use rivus::lints::{rvs_is_reflection_S, rvs_is_spawn_S, rvs_line_has_effective_code_M, rvs_unresolved_call_name, rvs_valid_test};

#[test]
fn test_valid_test_names() {
    assert!(rvs_valid_test("test_20260703_make_callee_display"));
    assert!(rvs_valid_test("test_20260801_415_generated"));
    assert!(!rvs_valid_test("test_2026070_make"));
    assert!(!rvs_valid_test("test_20260703make"));
    assert!(!rvs_valid_test("test_20260703_"));
    assert!(!rvs_valid_test("test_20260703_bad-name"));
    assert!(!rvs_valid_test("check_20260703_name"));
    assert!(!rvs_valid_test("test_2026o703_name"));
}

#[test]
fn test_unresolved_call_name_takes_last_segment() {
    assert_eq!(rvs_unresolved_call_name("std::fs::read"), "read");
    assert_eq!(rvs_unresolved_call_name("read"), "read");
    assert_eq!(rvs_unresolved_call_name("a::"), "");
    assert_eq!(rvs_unresolved_call_name("a:::b"), "b");
}

#[test]
fn test_spawn_and_reflection_lists() {
    assert!(rvs_is_spawn_S("std::thread::functions::spawn"));
    assert!(rvs_is_spawn_S("tokio::task::spawn"));
    assert!(!rvs_is_spawn_S("std::thread::sleep"));
    assert!(rvs_is_reflection_S("std::any::type_name"));
    assert!(!rvs_is_reflection_S("std::any::Any::is"));
}

#[test]
fn test_effective_code_lines_skip_comments() {
    let mut in_comment = false;
    assert!(!rvs_line_has_effective_code_M("   // only a comment", &mut in_comment));
    assert!(!in_comment);
    assert!(!rvs_line_has_effective_code_M("/* starts a block", &mut in_comment));
    assert!(in_comment);
    assert!(!rvs_line_has_effective_code_M("still inside", &mut in_comment));
    assert!(rvs_line_has_effective_code_M("ends */ let x = 1;", &mut in_comment));
    assert!(!in_comment);
    assert!(rvs_line_has_effective_code_M("let s = \"/* not a comment\";", &mut in_comment));
    assert!(!in_comment);
    assert!(!rvs_line_has_effective_code_M("", &mut in_comment));
}
