use rivus::artifacts::FunctionIdentity;
use rivus::call_observations::{
    rvs_collect_test_calls_M, rvs_error_swallow_messages, rvs_is_catch_unwind_finding, rvs_is_reflection_finding,
    rvs_is_sysroot_runtime_target, rvs_missing_debug_assert_messages, rvs_path_lint_callable, rvs_spawn_message,
    rvs_stub_message, BodyFacts, CallObservation, CallSyntax, CallTarget, CalleeKind, ObservationKind,
    ParamBinding, TestCallTarget,
};
use rivus::symbols::DefPath;

fn resolved(path: &str, kind: CalleeKind, crate_id: u64) -> CallTarget {
    CallTarget::Resolved { def_path: DefPath::rvs_new(path), def_kind: kind, crate_id }
}

fn direct(syntax: CallSyntax, target: CallTarget) -> CallObservation {
    CallObservation { kind: ObservationKind::Direct, syntax, target }
}

fn facts(call_observations: Vec<CallObservation>) -> BodyFacts {
    BodyFacts { call_observations, has_stub: false, result_swallow_calls: Vec::new(), result_drop_calls: 0 }
}

fn holds(calls: &[TestCallTarget], wanted: &TestCallTarget) -> bool {
    calls.iter().any(|c| c.rvs_same(wanted))
}

#[test]
fn test_20260714_path_lint_callable_table() {
    let resolved_target = resolved(
        "demo::Worker{impl#64656d6f3a3a576f726b65723c75383e}::rvs_run",
        CalleeKind::AssocFn,
        1,
    );
    let unresolved_path = CallTarget::UnresolvedPath { path: "demo::rvs_path".to_string() };
    let unresolved_method = CallTarget::UnresolvedMethod { name: "rvs_method".to_string() };

    assert_eq!(rvs_path_lint_callable(&resolved_target).as_deref(), Some("demo::Worker::rvs_run"));
    assert_eq!(rvs_path_lint_callable(&unresolved_path).as_deref(), Some("demo::rvs_path"));
    assert_eq!(rvs_path_lint_callable(&unresolved_method), None);
}

#[test]
fn test_20260714_collect_test_calls_resolved_and_unresolved() {
    let body = facts(vec![
        direct(CallSyntax::Function, resolved("demo::rvs_resolved", CalleeKind::Fn, 1)),
        direct(CallSyntax::Method, CallTarget::UnresolvedMethod { name: "rvs_unresolved".to_string() }),
        direct(CallSyntax::Function, CallTarget::UnresolvedPath { path: "demo::plain".to_string() }),
    ]);
    let mut calls = Vec::new();
    rvs_collect_test_calls_M(&body, &mut calls);
    let is_resolved = holds(
        &calls,
        &TestCallTarget::Resolved(FunctionIdentity { crate_id: 1, def_path: DefPath::rvs_new("demo::rvs_resolved") }),
    );
    let is_unresolved = holds(&calls, &TestCallTarget::UnresolvedName("rvs_unresolved".to_string()));
    let is_plain = holds(&calls, &TestCallTarget::UnresolvedName("plain".to_string()));

    assert!(is_resolved);
    assert!(is_unresolved);
    assert!(!is_plain);
    assert_eq!(calls.len(), 2);
}

#[test]
fn test_collect_test_calls_keeps_each_target_once_and_skips_references() {
    let body = facts(vec![
        direct(CallSyntax::Function, CallTarget::UnresolvedPath { path: "a::rvs_go".to_string() }),
        direct(CallSyntax::Method, CallTarget::UnresolvedMethod { name: "rvs_go".to_string() }),
        CallObservation {
            kind: ObservationKind::FunctionReference,
            syntax: CallSyntax::Function,
            target: resolved("demo::rvs_passed", CalleeKind::Fn, 1),
        },
    ]);
    let mut calls = vec![TestCallTarget::UnresolvedName("rvs_earlier".to_string())];
    rvs_collect_test_calls_M(&body, &mut calls);
    assert_eq!(calls.len(), 2);
    assert!(holds(&calls, &TestCallTarget::UnresolvedName("rvs_go".to_string())));
    assert!(holds(&calls, &TestCallTarget::UnresolvedName("rvs_earlier".to_string())));
}

#[test]
fn test_runtime_targets_and_findings() {
    let std_spawn = resolved("std::thread::functions::spawn", CalleeKind::Fn, 3);
    assert!(rvs_is_sysroot_runtime_target(&std_spawn, "std::thread::functions::spawn", true));
    assert!(!rvs_is_sysroot_runtime_target(&std_spawn, "std::thread::functions::spawn", false));
    let tokio = resolved("tokio::task::spawn", CalleeKind::Fn, 4);
    assert!(rvs_is_sysroot_runtime_target(&tokio, "tokio::task::spawn", false));
    let unresolved_std = CallTarget::UnresolvedPath { path: "std::any::type_name".to_string() };
    assert!(!rvs_is_sysroot_runtime_target(&unresolved_std, "std::any::type_name", true));

    let call = direct(CallSyntax::Function, tokio.clone());
    assert_eq!(
        rvs_spawn_message(&call, false, false).as_deref(),
        Some("spawn: tokio::task::spawn — use structured concurrency")
    );
    assert_eq!(rvs_spawn_message(&call, true, false), None);
    let method = direct(CallSyntax::Method, tokio);
    assert_eq!(rvs_spawn_message(&method, false, false).as_deref(), Some("spawn: tokio::task::spawn"));

    let reflect = direct(CallSyntax::Function, resolved("std::any::type_name", CalleeKind::Fn, 2));
    assert!(rvs_is_reflection_finding(&reflect, true));
    assert!(!rvs_is_reflection_finding(&reflect, false));

    let catch = direct(CallSyntax::Function, resolved("std::panic::catch_unwind", CalleeKind::Fn, 2));
    assert!(rvs_is_catch_unwind_finding(&catch, true));
    let other = direct(CallSyntax::Function, resolved("std::panic::resume_unwind", CalleeKind::Fn, 2));
    assert!(!rvs_is_catch_unwind_finding(&other, true));
}

#[test]
fn test_swallow_stub_and_debug_assert_messages() {
    let body = BodyFacts {
        call_observations: Vec::new(),
        has_stub: true,
        result_swallow_calls: vec![(CallSyntax::Method, "ok".to_string()), (CallSyntax::Function, "drop_err".to_string())],
        result_drop_calls: 1,
    };
    assert_eq!(
        rvs_error_swallow_messages(&body),
        vec![
            ".ok() swallows errors".to_string(),
            "drop_err(...) swallows errors".to_string(),
            "drop(Result) discards a Result without handling it".to_string(),
        ]
    );
    assert_eq!(rvs_stub_message(&body).as_deref(), Some("stub: todo!()/unimplemented!()"));
    let params = vec![
        ParamBinding { binding: Some((1, "count".to_string())), type_text: "usize".to_string() },
        ParamBinding { binding: Some((2, "ratio".to_string())), type_text: "f64".to_string() },
        ParamBinding { binding: Some((3, "name".to_string())), type_text: "&str".to_string() },
        ParamBinding { binding: None, type_text: "u8".to_string() },
    ];
    assert_eq!(
        rvs_missing_debug_assert_messages(&params, &vec![2]),
        vec!["param 'count' missing debug_assert!".to_string()]
    );
}
