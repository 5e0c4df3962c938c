use rivus::body_scan::{
    rvs_collect_debug_asserted_params, rvs_is_empty_block, rvs_scan_block_for_stubs, rvs_scan_block_has_panic,
    rvs_scan_block_has_unsafe, rvs_scan_expr_has_panic,
};
use rivus::call_harvest::{rvs_harvest_calls_from_tokens, rvs_harvest_from_block, StaticDecl};
use rivus::capability::{Capability, CapabilitySet};
use rivus::extract::{
    rvs_extract_borrowed_params, rvs_extract_consumed_arg_on_error, rvs_extract_deny_warnings,
    rvs_extract_deref_polymorphism, rvs_extract_empty_fns, rvs_extract_functions, rvs_extract_imports,
    rvs_extract_into_impls, rvs_extract_missing_debug, rvs_extract_missing_panics_doc, rvs_extract_non_rvs_fns,
    rvs_extract_pub_items, rvs_extract_stub_macros, rvs_extract_tests, rvs_extract_unsafe_fns, ParamType,
};
use rivus::item_scan::{rvs_collect_static_decls_from_items, rvs_items_lines_ok, rvs_parse_thread_local_names};
use rivus::source_checks::{rvs_extract_test_call_names, rvs_items_lines_named};
use rivus::syntax::{
    Arm, Attribute, Block, BlockKind, Expr, FnArg, FnBody, FnItem, GenericArg, ImplBlock, ImplMember, Item,
    LocalInit, MacroUse, PairKind, PathSegment, Signature, SourceFile, Stmt, Token, TypeDecl, TypeExpr, TypeSegment,
    UnaryKind, UseTree,
};

fn seg(name: &str, line: usize) -> PathSegment {
    PathSegment { ident: name.to_string(), line }
}

fn path(text: &str, line: usize) -> Vec<PathSegment> {
    text.split("::").map(|s| seg(s, line)).collect()
}

fn mac(name: &str, line: usize, tokens: Vec<Token>) -> MacroUse {
    MacroUse { path: vec![seg(name, line)], tokens }
}

fn ident(s: &str) -> Token {
    Token::Ident(s.to_string())
}

fn punct(c: char, line: usize) -> Token {
    Token::Punct(c, line)
}

fn group(line: usize, tokens: Vec<Token>) -> Token {
    Token::Group(line, tokens)
}

fn call(callee: &str, line: usize, args: Vec<Expr>) -> Expr {
    Expr::Call(Box::new(Expr::Path(path(callee, line))), args)
}

fn method(receiver: Expr, name: &str, line: usize, args: Vec<Expr>) -> Expr {
    Expr::MethodCall(Box::new(receiver), seg(name, line), args)
}

fn block(stmts: Vec<Stmt>) -> Block {
    Block { stmts }
}

fn attr(name: &str, list: Option<&str>) -> Attribute {
    Attribute { path: vec![seg(name, 1)], line: 1, list_tokens: list.map(|s| s.to_string()), value_text: None, arg_paths: None }
}

fn doc(text: &str) -> Attribute {
    Attribute { path: vec![seg("doc", 1)], line: 1, list_tokens: None, value_text: Some(text.to_string()), arg_paths: None }
}

fn sig(name: &str, line: usize, inputs: Vec<FnArg>) -> Signature {
    Signature { ident: seg(name, line), fn_line: line, is_async: false, is_unsafe: false, inputs, output: None }
}

fn func(name: &str, line: usize, stmts: Vec<Stmt>, end_line: usize) -> FnItem {
    FnItem {
        attrs: Vec::new(),
        is_pub: false,
        sig: sig(name, line, Vec::new()),
        body: Some(FnBody { block: block(stmts), end_line }),
    }
}

fn ty_path(name: &str) -> TypeExpr {
    TypeExpr::Path(vec![TypeSegment { ident: name.to_string(), line: 1, angle_args: None }])
}

fn no_statics() -> Vec<StaticDecl> {
    Vec::new()
}

#[test]
fn test_stub_scan_finds_statement_and_nested_uses() {
    let body = block(vec![
        Stmt::Macro(mac("todo", 3, Vec::new())),
        Stmt::Expr(Expr::If(
            Box::new(Expr::Other),
            block(vec![Stmt::Expr(Expr::Closure(Box::new(Expr::Macro(mac("unimplemented", 5, Vec::new())))))]),
            None,
        )),
        Stmt::Expr(Expr::Macro(mac("panic", 6, Vec::new()))),
        Stmt::Expr(Expr::Struct(Vec::new(), Some(Box::new(Expr::Macro(mac("todo", 7, Vec::new())))))),
    ]);
    let found = rvs_scan_block_for_stubs(&body, "rvs_work");
    let rows: Vec<(String, String, usize)> = found.into_iter().map(|s| (s.function, s.macro_name, s.line)).collect();
    assert_eq!(
        rows,
        vec![
            ("rvs_work".to_string(), "todo".to_string(), 3),
            ("rvs_work".to_string(), "unimplemented".to_string(), 5),
        ]
    );
    // the struct base is no stub position, but it is a panic position
    assert!(rvs_scan_block_has_panic(&block(vec![Stmt::Expr(Expr::Struct(
        Vec::new(),
        Some(Box::new(Expr::Macro(mac("todo", 7, Vec::new())))),
    ))])));
}

#[test]
fn test_panic_scan_counts_unwrap_and_expect_but_not_debug_assert() {
    let unwrap = method(Expr::Path(path("x", 1)), "unwrap", 1, Vec::new());
    assert!(rvs_scan_expr_has_panic(&unwrap));
    let expect = method(Expr::Path(path("x", 1)), "expect", 1, vec![Expr::Other]);
    assert!(rvs_scan_expr_has_panic(&expect));
    let other = method(Expr::Path(path("x", 1)), "unwrap_or", 1, vec![Expr::Other]);
    assert!(!rvs_scan_expr_has_panic(&other));
    let debug = block(vec![Stmt::Macro(mac("debug_assert", 2, Vec::new()))]);
    assert!(!rvs_scan_block_has_panic(&debug));
    let asserting = block(vec![Stmt::Macro(mac("assert_eq", 2, Vec::new()))]);
    assert!(rvs_scan_block_has_panic(&asserting));
    let in_arm = Expr::Match(
        Box::new(Expr::Other),
        vec![Arm { guard: Some(method(Expr::Other, "unwrap", 4, Vec::new())), body: Expr::Other }],
    );
    assert!(rvs_scan_expr_has_panic(&in_arm));
}

#[test]
fn test_unsafe_scan_finds_nested_unsafe_block_only() {
    let nested = block(vec![Stmt::Local(Some(LocalInit {
        expr: Expr::Other,
        diverge: Some(Expr::Block(BlockKind::Unsafe, block(Vec::new()))),
    }))]);
    assert!(rvs_scan_block_has_unsafe(&nested));
    let plain = block(vec![
        Stmt::Expr(Expr::Block(BlockKind::Loop, block(vec![Stmt::Expr(Expr::Other)]))),
        Stmt::Item,
        Stmt::Macro(mac("unsafe_macro", 1, Vec::new())),
    ]);
    assert!(!rvs_scan_block_has_unsafe(&plain));
    let in_cast = block(vec![Stmt::Expr(Expr::Unary(
        UnaryKind::Cast,
        Box::new(Expr::Block(BlockKind::Unsafe, block(Vec::new()))),
    ))]);
    assert!(rvs_scan_block_has_unsafe(&in_cast));
}

#[test]
fn test_empty_block_is_only_debug_assertions() {
    assert!(rvs_is_empty_block(&block(Vec::new())));
    let asserts = block(vec![
        Stmt::Macro(mac("debug_assert", 1, Vec::new())),
        Stmt::Expr(Expr::Block(BlockKind::Plain, block(vec![Stmt::Expr(Expr::Macro(mac("debug_assert_eq", 2, Vec::new())))]))),
    ]);
    assert!(rvs_is_empty_block(&asserts));
    let with_let = block(vec![Stmt::Local(None)]);
    assert!(!rvs_is_empty_block(&with_let));
    let with_unsafe = block(vec![Stmt::Expr(Expr::Block(BlockKind::Unsafe, block(Vec::new())))]);
    assert!(!rvs_is_empty_block(&with_unsafe));
}

#[test]
fn test_harvest_records_paths_methods_statics_and_macro_calls() {
    let statics = vec![StaticDecl { name: "COUNTER".to_string(), required_caps: CapabilitySet::rvs_from_validated("S") }];
    let body = block(vec![
        Stmt::Expr(call("std::fs::read", 2, vec![Expr::Path(path("COUNTER", 2))])),
        Stmt::Expr(method(Expr::Path(path("x", 3)), "rvs_len", 3, Vec::new())),
        Stmt::Macro(mac("println", 4, vec![ident("helper"), group(4, vec![ident("a")])])),
    ]);
    let h = rvs_harvest_from_block(&body, &statics);
    let calls: Vec<(String, usize)> = h.calls.iter().map(|c| (c.name.clone(), c.line)).collect();
    assert_eq!(
        calls,
        vec![("std::fs::read".to_string(), 2), ("rvs_len".to_string(), 3), ("helper".to_string(), 4)]
    );
    assert_eq!(h.static_refs.len(), 1);
    assert_eq!(h.static_refs[0].name, "COUNTER");
    assert_eq!(h.static_refs[0].line, 2);
    assert!(h.static_refs[0].required_caps.rvs_contains(Capability::S));
}

#[test]
fn test_token_calls_follow_paths_and_drop_broken_ones() {
    // a::b(x) . c(y) 1 d(z)
    let tokens = vec![
        ident("a"),
        punct(':', 1),
        punct(':', 1),
        ident("b"),
        group(1, vec![ident("x")]),
        punct('.', 2),
        ident("c"),
        group(2, vec![ident("y"), punct(',', 2), ident("inner"), group(3, Vec::new())]),
        Token::Literal,
        ident("d"),
        punct('+', 4),
        group(4, Vec::new()),
    ];
    let h = rvs_harvest_calls_from_tokens(&tokens);
    let calls: Vec<(String, usize)> = h.calls.iter().map(|c| (c.name.clone(), c.line)).collect();
    assert_eq!(
        calls,
        vec![("a::b".to_string(), 1), ("c".to_string(), 2), ("inner".to_string(), 3)]
    );
    assert!(h.static_refs.is_empty());
}

#[test]
fn test_thread_local_names_skip_mut() {
    let tokens = vec![
        ident("static"),
        ident("CACHE"),
        punct(':', 1),
        ident("RefCell"),
        group(1, vec![ident("pub"), ident("static"), ident("INNER"), punct(':', 2)]),
        ident("static"),
        ident("mut"),
        ident("LATER"),
    ];
    let names = rvs_parse_thread_local_names(&tokens);
    assert_eq!(names, vec!["CACHE".to_string(), "INNER".to_string()]);
}

#[test]
fn test_static_decls_carry_capabilities() {
    let items = vec![
        Item::Static("PLAIN".to_string(), false),
        Item::Static("MUTABLE".to_string(), true),
        Item::Macro(mac("thread_local", 3, vec![ident("static"), ident("LOCAL"), punct(':', 3)])),
        Item::Mod(Vec::new(), Some(vec![Item::Static("INNER".to_string(), false)])),
    ];
    let decls = rvs_collect_static_decls_from_items(&items);
    let rows: Vec<(String, String)> = decls.iter().map(|d| (d.name.clone(), d.required_caps.rvs_letters())).collect();
    assert_eq!(
        rows,
        vec![
            ("PLAIN".to_string(), "S".to_string()),
            ("MUTABLE".to_string(), "SU".to_string()),
            ("LOCAL".to_string(), "ST".to_string()),
            ("INNER".to_string(), "S".to_string()),
        ]
    );
}

#[test]
fn test_debug_asserted_params_are_sorted_and_unique() {
    let body = block(vec![
        Stmt::Macro(mac("debug_assert", 1, vec![ident("len"), punct('>', 1), ident("count")])),
        Stmt::Expr(Expr::If(
            Box::new(Expr::Other),
            block(vec![Stmt::Macro(mac("debug_assert_eq", 2, vec![group(2, vec![ident("count")]), ident("alpha")]))]),
            None,
        )),
        Stmt::Macro(mac("assert", 3, vec![ident("zeta")])),
    ]);
    assert_eq!(
        rvs_collect_debug_asserted_params(&body),
        vec!["alpha".to_string(), "count".to_string(), "len".to_string()]
    );
}

fn sample_file() -> SourceFile {
    let mut work = func(
        "rvs_work_BI",
        10,
        vec![
            Stmt::Expr(call("helper::rvs_load_I", 11, vec![Expr::Path(path("STATE", 11))])),
            Stmt::Expr(method(Expr::Path(path("v", 12)), "unwrap", 12, Vec::new())),
            Stmt::Macro(mac("debug_assert", 13, vec![ident("n")])),
        ],
        14,
    );
    work.sig.inputs = vec![
        FnArg::Typed(Some("n".to_string()), ty_path("usize")),
        FnArg::Typed(Some("buf".to_string()), TypeExpr::Reference(true, Box::new(ty_path("Vec")))),
    ];
    let mut test_fn = func("test_work", 20, vec![Stmt::Expr(call("crate::rvs_work_BI", 21, Vec::new()))], 22);
    test_fn.attrs = vec![attr("test", None)];
    let trait_method = FnItem { attrs: Vec::new(), is_pub: false, sig: sig("rvs_shape", 30, Vec::new()), body: None };
    let hidden = func("rvs_hidden", 40, Vec::new(), 41);
    SourceFile {
        attrs: vec![attr("deny", Some("missing_docs , warnings"))],
        items: vec![
            Item::Static("STATE".to_string(), true),
            Item::Fn(work),
            Item::Fn(test_fn),
            Item::Trait(Vec::new(), vec![trait_method]),
            Item::Mod(vec![attr("cfg", Some("test"))], Some(vec![Item::Fn(hidden)])),
            Item::Fn(func("main", 50, Vec::new(), 50)),
        ],
    }
}

#[test]
fn test_extract_functions_records_checked_functions() {
    let file = sample_file();
    let defs = rvs_extract_functions(&file);
    let names: Vec<&str> = defs.iter().map(|d| d.name.as_str()).collect();
    assert_eq!(names, vec!["rvs_work_BI", "rvs_shape"]);
    let work = &defs[0];
    assert!(work.capabilities.rvs_contains(Capability::B));
    assert!(work.capabilities.rvs_contains(Capability::I));
    assert!(!work.capabilities.rvs_contains(Capability::P));
    assert_eq!(work.raw_suffix, "BI");
    assert_eq!(work.line, 10);
    assert_eq!(work.line_count, 5);
    let calls: Vec<(String, usize)> = work.calls.iter().map(|c| (c.name.clone(), c.line)).collect();
    assert_eq!(calls, vec![("helper::rvs_load_I".to_string(), 11), ("unwrap".to_string(), 12)]);
    assert_eq!(work.static_refs.len(), 1);
    assert_eq!(work.static_refs[0].required_caps.rvs_letters(), "SU");
    assert_eq!(work.params.len(), 2);
    assert_eq!(work.params[0].ty, ParamType::PrimitiveNumeric);
    assert_eq!(work.params[1].ty, ParamType::Other);
    assert_eq!(work.debug_asserted_params, vec!["n".to_string()]);
    assert!(work.has_panic_macro);
    assert!(!work.has_unsafe_block);
    assert!(work.has_mut_param);
    assert!(!work.has_mut_self);
    let shape = &defs[1];
    assert!(!shape.has_body);
    assert_eq!(shape.line_count, 1);
    assert!(shape.calls.is_empty());
}

#[test]
fn test_file_level_collectors() {
    let file = sample_file();
    let tests: Vec<(String, usize)> = rvs_extract_tests(&file).into_iter().map(|t| (t.name, t.line)).collect();
    assert_eq!(tests, vec![("test_work".to_string(), 20)]);
    let non_rvs: Vec<(String, bool)> =
        rvs_extract_non_rvs_fns(&file).into_iter().map(|f| (f.name, f.has_rvs_prefix)).collect();
    assert!(non_rvs.is_empty());
    assert_eq!(rvs_extract_deny_warnings(&file), Some(1));
    assert_eq!(rvs_extract_test_call_names(&file), vec!["rvs_work_BI".to_string()]);
    let empty: Vec<String> = rvs_extract_empty_fns(&file).into_iter().map(|e| e.function).collect();
    assert_eq!(empty, vec!["rvs_hidden".to_string(), "main".to_string()]);
    assert!(rvs_extract_stub_macros(&file).is_empty());
}

#[test]
fn test_documentation_and_signature_checks() {
    let mut documented = func("rvs_read_P", 1, Vec::new(), 1);
    documented.is_pub = true;
    documented.attrs = vec![doc(" # Panics"), doc(" when empty")];
    let mut bare = func("rvs_write_P", 5, Vec::new(), 5);
    bare.is_pub = true;
    bare.sig.is_unsafe = true;
    bare.sig.inputs = vec![
        FnArg::Typed(Some("name".to_string()), TypeExpr::Reference(false, Box::new(ty_path("String")))),
        FnArg::Typed(Some("items".to_string()), TypeExpr::Reference(false, Box::new(ty_path("Vec")))),
        FnArg::Typed(Some("fine".to_string()), TypeExpr::Reference(false, Box::new(ty_path("str")))),
    ];
    let mut safe_doc = func("rvs_poke", 9, Vec::new(), 9);
    safe_doc.sig.is_unsafe = true;
    safe_doc.attrs = vec![doc("  # Safety")];
    let file = SourceFile {
        attrs: vec![attr("deny", Some("warnings_extra"))],
        items: vec![Item::Fn(documented), Item::Fn(bare), Item::Fn(safe_doc)],
    };
    let pubs: Vec<(String, bool)> = rvs_extract_pub_items(&file).into_iter().map(|p| (p.name, p.has_doc)).collect();
    assert_eq!(pubs, vec![("rvs_read_P".to_string(), true), ("rvs_write_P".to_string(), false)]);
    let panics: Vec<String> = rvs_extract_missing_panics_doc(&file).into_iter().map(|p| p.function).collect();
    assert_eq!(panics, vec!["rvs_write_P".to_string()]);
    let unsafes: Vec<(String, bool)> =
        rvs_extract_unsafe_fns(&file).into_iter().map(|u| (u.name, u.has_safety_doc)).collect();
    assert_eq!(unsafes, vec![("rvs_write_P".to_string(), false), ("rvs_poke".to_string(), true)]);
    let borrowed: Vec<(String, String, String)> =
        rvs_extract_borrowed_params(&file).into_iter().map(|b| (b.param, b.original, b.suggestion)).collect();
    assert_eq!(
        borrowed,
        vec![
            ("name".to_string(), "&String".to_string(), "&str".to_string()),
            ("items".to_string(), "&Vec<T>".to_string(), "&[T]".to_string()),
        ]
    );
    assert_eq!(rvs_extract_deny_warnings(&file), None);
}

#[test]
fn test_types_impls_and_imports() {
    let public_struct = TypeDecl { is_pub: true, attrs: Vec::new(), ident: seg("Plain", 3) };
    let derived = TypeDecl {
        is_pub: true,
        attrs: vec![Attribute {
            path: vec![seg("derive", 4)],
            line: 4,
            list_tokens: Some("Clone, Debug".to_string()),
            value_text: None,
            arg_paths: Some(vec![vec![seg("Clone", 4)], vec![seg("Debug", 4)]]),
        }],
        ident: seg("Shown", 5),
    };
    let into = ImplBlock {
        attrs: Vec::new(),
        trait_path: Some(vec![TypeSegment {
            ident: "Into".to_string(),
            line: 7,
            angle_args: Some(vec![GenericArg::Type(ty_path("Target"))]),
        }]),
        self_ty: ty_path("Source"),
        members: Vec::new(),
    };
    let deref = ImplBlock {
        attrs: Vec::new(),
        trait_path: Some(path("std::ops::Deref", 9).into_iter().map(|s| TypeSegment { ident: s.ident, line: s.line, angle_args: None }).collect()),
        self_ty: ty_path("Wrapper"),
        members: vec![ImplMember::Other, ImplMember::Type("Target".to_string(), ty_path("Inner"))],
    };
    let use_tree = UseTree::Path(
        "std".to_string(),
        Box::new(UseTree::Group(vec![
            UseTree::Name("fmt".to_string()),
            UseTree::Rename("io".to_string(), "stdio".to_string()),
            UseTree::Path("collections".to_string(), Box::new(UseTree::Glob)),
        ])),
    );
    let file = SourceFile {
        attrs: Vec::new(),
        items: vec![
            Item::Struct(public_struct),
            Item::Enum(derived),
            Item::Impl(into),
            Item::Impl(deref),
            Item::Use(12, use_tree),
        ],
    };
    let missing: Vec<String> = rvs_extract_missing_debug(&file).into_iter().map(|m| m.name).collect();
    assert_eq!(missing, vec!["Plain".to_string()]);
    let intos: Vec<(String, String, usize)> =
        rvs_extract_into_impls(&file).into_iter().map(|i| (i.impl_type, i.target_type, i.line)).collect();
    assert_eq!(intos, vec![("Source".to_string(), "Target".to_string(), 7)]);
    let derefs: Vec<(String, String, usize)> =
        rvs_extract_deref_polymorphism(&file).into_iter().map(|d| (d.impl_type, d.target_type, d.line)).collect();
    assert_eq!(derefs, vec![("Wrapper".to_string(), "Inner".to_string(), 9)]);
    let imports: Vec<(String, usize)> = rvs_extract_imports(&file).into_iter().map(|i| (i.use_path, i.line)).collect();
    assert_eq!(
        imports,
        vec![
            ("std::fmt".to_string(), 12),
            ("std::io as stdio".to_string(), 12),
            ("std::collections::*".to_string(), 12),
        ]
    );
}

#[test]
fn test_consumed_argument_on_error() {
    let result_ty = |err: TypeExpr| {
        TypeExpr::Path(vec![TypeSegment {
            ident: "Result".to_string(),
            line: 2,
            angle_args: Some(vec![GenericArg::Type(TypeExpr::Tuple(Vec::new())), GenericArg::Type(err)]),
        }])
    };
    let mut send = func("rvs_send", 2, Vec::new(), 3);
    send.sig.inputs = vec![
        FnArg::Receiver(false),
        FnArg::Typed(Some("r".to_string()), TypeExpr::Reference(false, Box::new(ty_path("Request")))),
        FnArg::Typed(Some("msg".to_string()), ty_path("Message")),
    ];
    send.sig.output = Some(result_ty(ty_path("SendError")));
    let mut keeps = func("rvs_keep", 5, Vec::new(), 6);
    keeps.sig.inputs = vec![FnArg::Typed(Some("msg".to_string()), ty_path("Message"))];
    keeps.sig.output = Some(result_ty(TypeExpr::Path(vec![TypeSegment {
        ident: "SendError".to_string(),
        line: 5,
        angle_args: Some(vec![GenericArg::Type(ty_path("Message"))]),
    }])));
    let file = SourceFile { attrs: Vec::new(), items: vec![Item::Fn(send), Item::Fn(keeps)] };
    let found: Vec<(String, String, String, usize)> = rvs_extract_consumed_arg_on_error(&file)
        .into_iter()
        .map(|c| (c.function, c.param, c.param_type, c.line))
        .collect();
    assert_eq!(found, vec![("rvs_send".to_string(), "msg".to_string(), "Message".to_string(), 2)]);
}

#[test]
fn test_pair_and_index_expressions_are_walked() {
    let e = Expr::Pair(
        PairKind::Index,
        Box::new(Expr::Path(path("v", 1))),
        Box::new(method(Expr::Other, "expect", 1, Vec::new())),
    );
    assert!(rvs_scan_expr_has_panic(&e));
    let stubs = rvs_extract_stub_macros(&SourceFile {
        attrs: Vec::new(),
        items: vec![Item::Impl(ImplBlock {
            attrs: Vec::new(),
            trait_path: None,
            self_ty: ty_path("Svc"),
            members: vec![ImplMember::Fn(func("rvs_todo", 4, vec![Stmt::Expr(Expr::Macro(mac("todo", 5, Vec::new())))], 6))],
        })],
    });
    assert_eq!(stubs.len(), 1);
    assert_eq!(stubs[0].function, "rvs_todo");
    assert_eq!(stubs[0].line, 5);
}

#[test]
fn test_non_rvs_fns_leave_out_prefixed_names_and_main() {
    let file = SourceFile {
        attrs: Vec::new(),
        items: vec![
            Item::Fn(func("rvs_good", 1, Vec::new(), 1)),
            Item::Fn(func("bad", 2, Vec::new(), 2)),
            Item::Fn(func("main", 3, Vec::new(), 3)),
        ],
    };
    let found = rvs_extract_non_rvs_fns(&file);
    assert_eq!(found.len(), 1);
    assert_eq!(found[0].name, "bad");
    assert_eq!(found[0].line, 2);
    assert!(!found[0].has_rvs_prefix);
}

#[test]
fn test_line_checks_before_the_line_counting_scans() {
    let file = sample_file();
    assert!(rvs_items_lines_ok(&file.items));
    assert!(rvs_items_lines_named(&file.items));
    let backwards = vec![Item::Fn(func("rvs_back", 9, Vec::new(), 3))];
    assert!(!rvs_items_lines_ok(&backwards));
    let nested = vec![Item::Mod(Vec::new(), Some(backwards))];
    assert!(!rvs_items_lines_ok(&nested));
    let zero = vec![Item::Trait(Vec::new(), vec![func("rvs_zero", 0, Vec::new(), 0)])];
    assert!(!rvs_items_lines_named(&zero));
}
