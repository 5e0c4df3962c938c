use rivus::capability::CapabilitySet;
use rivus::extract::{CalleeInfo, ExtractError, FnDef, rvs_extract_reflection_usage, rvs_extract_todo_comments};

fn rvs_fn_def(name: &str, calls: &[(&str, usize)]) -> FnDef {
    FnDef {
        name: name.to_string(),
        capabilities: CapabilitySet::rvs_new(),
        calls: calls.iter().map(|(callee, line)| CalleeInfo { name: callee.to_string(), line: *line }).collect(),
        static_refs: Vec::new(),
        line: 1,
        line_count: 1,
        params: Vec::new(),
        debug_asserted_params: Vec::new(),
        has_body: true,
        has_unsafe_block: false,
        is_async_fn: false,
        is_unsafe_fn: false,
        has_mut_param: false,
        has_mut_self: false,
        has_panic_macro: false,
        raw_suffix: String::new(),
        is_test: false,
        allows_dead_code: false,
        has_allow_non_snake_case: false,
    }
}

#[test]
fn test_todo_comments_in_line_and_block_comments() {
    let source = "fn a() {}\n// TODO: split this\n  /* FIXME handle errors */\nlet x = 1; // TODO not at line start\n//TODO\n";
    let found = rvs_extract_todo_comments(source);
    let rows: Vec<(String, String, usize)> = found.into_iter().map(|t| (t.kind, t.text, t.line)).collect();
    assert_eq!(
        rows,
        vec![
            ("TODO".to_string(), ": split this".to_string(), 2),
            ("FIXME".to_string(), "handle errors *".to_string(), 3),
            ("TODO".to_string(), "".to_string(), 5),
        ]
    );
}

#[test]
fn test_todo_comments_with_crlf_lines() {
    let found = rvs_extract_todo_comments("// FIXME first\r\nfn b() {}\r\n// TODO second\r\n");
    assert_eq!(found.len(), 2);
    assert_eq!(found[0].text, "first");
    assert_eq!(found[1].line, 3);
}

#[test]
fn test_reflection_usage_matches_paths_and_suffixes() {
    let functions = vec![
        rvs_fn_def("rvs_describe", &[("std::any::type_name", 3), ("core::fmt::format", 4)]),
        rvs_fn_def("rvs_check", &[("my::any::Any", 9), ("anything::type_id", 10)]),
    ];
    let usages = rvs_extract_reflection_usage(&functions);
    let rows: Vec<(String, String, usize)> = usages.into_iter().map(|u| (u.function, u.path, u.line)).collect();
    assert_eq!(
        rows,
        vec![("rvs_describe".to_string(), "std::any::type_name".to_string(), 3), ("rvs_check".to_string(), "my::any::Any".to_string(), 9)]
    );
}

#[test]
fn test_extract_error_message() {
    let error = ExtractError::Parse { message: "unexpected token".to_string() };
    assert_eq!(error.rvs_message(), "parse error: unexpected token");
}

#[test]
fn test_todo_comments_of_joined_texts_shift_the_second() {
    let first = "fn a() {}\n// TODO one";
    let second = "// FIXME two\nfn b() {}\n// TODO three";
    let joined = format!("{}\n{}", first, second);
    let rows = |s: &str| -> Vec<(String, String, usize)> {
        rvs_extract_todo_comments(s).into_iter().map(|t| (t.kind, t.text, t.line)).collect()
    };
    let mut expected = rows(first);
    expected.extend(rows(second).into_iter().map(|(k, t, l)| (k, t, l + 2)));
    assert_eq!(rows(&joined), expected);
    assert_eq!(expected.len(), 3);
    assert_eq!(expected[2].2, 5);
}

#[test]
fn test_reflection_usage_of_concatenated_lists() {
    let a = vec![rvs_fn_def("rvs_one", &[("std::any::type_name", 2)])];
    let b = vec![rvs_fn_def("rvs_two", &[("core::any::type_id", 7)]), rvs_fn_def("rvs_three", &[("std::fs::read", 8)])];
    let mut both = a.clone();
    both.extend(b.clone());
    let rows = |fs: &Vec<FnDef>| -> Vec<(String, String, usize)> {
        rvs_extract_reflection_usage(fs).into_iter().map(|u| (u.function, u.path, u.line)).collect()
    };
    let mut expected = rows(&a);
    expected.extend(rows(&b));
    assert_eq!(rows(&both), expected);
    assert!(!expected.is_empty());
}
