//! What the compiler pass observes of the calls in a function body, and the
//! decisions the body lints take on those observations: which calls count
//! as calls of a path, which calls of a test count as coverage, and which
//! calls are findings (spawning, reflection, `catch_unwind`, swallowed
//! errors, parameters without debug assertions).
use vstd::prelude::*;

use crate::artifacts::FunctionIdentity;
use crate::item_scan::{rvs_primitive_numeric_texts, spec_primitive_numeric_names, spec_text_rows};
use crate::lints::{rvs_is_reflection_S, rvs_is_spawn_S, rvs_unresolved_call_name, spec_reflection_functions,
    spec_spawn_functions, spec_unresolved_call_name};
use crate::symbols::{rvs_fn_name_chars, spec_fn_name, spec_user_path, DefPath};
use crate::syntax::rvs_spells;
use crate::text::{rvs_chars_eq, rvs_chars_of, rvs_first_index_of, rvs_push_all, rvs_slice_chars, rvs_starts_with, rvs_string_of,
    lemma_first_index_of, spec_first_index_of, spec_starts_with};

verus! {

/// The kind of a resolved callee's definition, as far as the lints tell
/// kinds apart.
#[derive(Debug, Clone, Copy, PartialEq, Eq, Structural)]
pub enum CalleeKind {
    Fn,
    AssocFn,
    Variant,
    Other,
}

/// What a call resolves to.
#[derive(Debug, Clone)]
pub enum CallTarget {
    Resolved { def_path: DefPath, def_kind: CalleeKind, crate_id: u64 },
    UnresolvedPath { path: String },
    UnresolvedMethod { name: String },
}

/// How a callee was reached: called directly, or named as a function value.
#[derive(Debug, Clone, Copy, PartialEq, Eq, Structural)]
pub enum ObservationKind {
    Direct,
    FunctionReference,
}

/// How a call is written.
#[derive(Debug, Clone, Copy, PartialEq, Eq, Structural)]
pub enum CallSyntax {
    Function,
    Method,
}

/// One observed call.
#[derive(Debug, Clone)]
pub struct CallObservation {
    pub kind: ObservationKind,
    pub syntax: CallSyntax,
    pub target: CallTarget,
}

/// What the lints read of a body: its calls, whether it uses a stub macro,
/// the calls that swallow a `Result`'s error (how each is written and its
/// name) and how many times a `Result` is dropped.
#[derive(Debug, Clone)]
pub struct BodyFacts {
    pub call_observations: Vec<CallObservation>,
    pub has_stub: bool,
    pub result_swallow_calls: Vec<(CallSyntax, String)>,
    pub result_drop_calls: usize,
}

/// A call of a test that counts as coverage: a resolved function, or the
/// name of an unresolved one.
#[derive(Debug, Clone)]
pub enum TestCallTarget {
    Resolved(FunctionIdentity),
    UnresolvedName(String),
}

/// A test call target as plain values.
pub enum TestCallView {
    Resolved(u64, Seq<char>),
    Unresolved(Seq<char>),
}

impl TestCallTarget {
    pub open spec fn view_of(self) -> TestCallView {
        match self {
            TestCallTarget::Resolved(id) => TestCallView::Resolved(id.crate_id, id.def_path@),
            TestCallTarget::UnresolvedName(n) => TestCallView::Unresolved(n@),
        }
    }

    /// Whether two targets are the same.
    pub fn rvs_same(&self, other: &TestCallTarget) -> (r: bool)
        ensures
            r == (self.view_of() == other.view_of()),
    {
        match (self, other) {
            (TestCallTarget::Resolved(a), TestCallTarget::Resolved(b)) => a.crate_id == b.crate_id && a.def_path.rvs_eq(&b.def_path),
            (TestCallTarget::UnresolvedName(a), TestCallTarget::UnresolvedName(b)) => {
                let x = rvs_chars_of(a.as_str());
                rvs_spells(x.as_slice(), b.as_str())
            },
            _ => false,
        }
    }
}

// ------------------------------------------------------- callable paths

/// The path a path lint looks at: the user-facing path of a resolved
/// function, method or enum variant, or an unresolved path as written.
pub open spec fn spec_path_lint_callable(target: CallTarget) -> Option<Seq<char>> {
    match target {
        CallTarget::Resolved { def_path, def_kind, .. } => if def_kind == CalleeKind::Fn || def_kind == CalleeKind::AssocFn
            || def_kind == CalleeKind::Variant {
            Some(spec_user_path(def_path@))
        } else {
            None
        },
        CallTarget::UnresolvedPath { path } => Some(path@),
        CallTarget::UnresolvedMethod { .. } => None,
    }
}

/// The path a path lint looks at, if the call has one.
pub fn rvs_path_lint_callable(target: &CallTarget) -> (r: Option<String>)
    ensures
        match r {
            Some(p) => spec_path_lint_callable(*target) == Some(p@),
            None => spec_path_lint_callable(*target) is None,
        },
{
    match target {
        CallTarget::Resolved { def_path, def_kind, .. } => match def_kind {
            CalleeKind::Other => None,
            _ => Some(def_path.rvs_user_path().rvs_to_string()),
        },
        CallTarget::UnresolvedPath { path } => Some(path.clone()),
        CallTarget::UnresolvedMethod { .. } => None,
    }
}

// ------------------------------------------------------ test coverage

/// The short name by which a test's call counts, and what it counts as.
pub open spec fn spec_test_call(target: CallTarget) -> (Seq<char>, TestCallView) {
    match target {
        CallTarget::Resolved { def_path, crate_id, .. } => (spec_fn_name(def_path@), TestCallView::Resolved(crate_id, def_path@)),
        CallTarget::UnresolvedPath { path } => (spec_unresolved_call_name(path@),
            TestCallView::Unresolved(spec_unresolved_call_name(path@))),
        CallTarget::UnresolvedMethod { name } => (name@, TestCallView::Unresolved(name@)),
    }
}

/// Whether an observation is a covering call: a direct call whose short
/// name has the `rvs_` prefix.
pub open spec fn spec_counts_as_coverage(o: CallObservation) -> bool {
    o.kind == ObservationKind::Direct && spec_starts_with(spec_test_call(o.target).0, "rvs_"@)
}

/// The targets held by a list, as a set.
pub open spec fn spec_target_set(v: Seq<TestCallTarget>) -> Set<TestCallView> {
    Set::new(|x: TestCallView| exists|i: int| 0 <= i < v.len() && #[trigger] v[i].view_of() == x)
}

/// No target occurs twice.
pub open spec fn spec_targets_distinct(v: Seq<TestCallTarget>) -> bool {
    forall|i: int, j: int| 0 <= i < j < v.len() ==> #[trigger] v[i].view_of() != #[trigger] v[j].view_of()
}

/// The covering targets of the observations, as a set.
pub open spec fn spec_covered(obs: Seq<CallObservation>) -> Set<TestCallView> {
    Set::new(|x: TestCallView| exists|i: int| 0 <= i < obs.len() && spec_counts_as_coverage(#[trigger] obs[i])
        && spec_test_call(obs[i].target).1 == x)
}

fn rvs_test_call(target: &CallTarget) -> (r: (Vec<char>, TestCallTarget))
    ensures
        r.0@ == spec_test_call(*target).0,
        r.1.view_of() == spec_test_call(*target).1,
{
    match target {
        CallTarget::Resolved { def_path, crate_id, .. } => (rvs_fn_name_chars(def_path.rvs_chars()),
            TestCallTarget::Resolved(FunctionIdentity { crate_id: *crate_id, def_path: def_path.rvs_copy() })),
        CallTarget::UnresolvedPath { path } => {
            let name = rvs_unresolved_call_name(path.as_str());
            (rvs_chars_of(name.as_str()), TestCallTarget::UnresolvedName(name))
        },
        CallTarget::UnresolvedMethod { name } => (rvs_chars_of(name.as_str()), TestCallTarget::UnresolvedName(name.clone())),
    }
}

fn rvs_insert_target_M(out: &mut Vec<TestCallTarget>, t: TestCallTarget)
    requires
        spec_targets_distinct(old(out)@),
    ensures
        spec_targets_distinct(final(out)@),
        spec_target_set(final(out)@) == spec_target_set(old(out)@).insert(t.view_of()),
{
    let ghost before = out@;
    let mut i: usize = 0;
    while i < out.len()
        invariant
            out@ == before,
            spec_targets_distinct(before),
            i <= out@.len(),
            forall|j: int| 0 <= j < i ==> #[trigger] out@[j].view_of() != t.view_of(),
        decreases out@.len() - i,
    {
        if out[i].rvs_same(&t) {
            assert(spec_target_set(out@) =~= spec_target_set(before).insert(t.view_of()));
            return;
        }
        i = i + 1;
    }
    let ghost tv = t.view_of();
    out.push(t);
    assert forall|x: TestCallView| #[trigger] spec_target_set(out@).contains(x) == spec_target_set(before).insert(tv).contains(x) by {
        if spec_target_set(out@).contains(x) {
            let j = choose|j: int| 0 <= j < out@.len() && #[trigger] out@[j].view_of() == x;
            if j < before.len() {
                assert(before[j].view_of() == x);
            }
        }
        if spec_target_set(before).contains(x) {
            let j = choose|j: int| 0 <= j < before.len() && #[trigger] before[j].view_of() == x;
            assert(out@[j].view_of() == x);
        }
        if x == tv {
            assert(out@[before.len() as int].view_of() == x);
        }
    }
    assert(spec_target_set(out@) =~= spec_target_set(before).insert(tv));
}

/// Adds the covering calls of a test body to `out`, each target once.
#[allow(non_snake_case)]
pub fn rvs_collect_test_calls_M(facts: &BodyFacts, out: &mut Vec<TestCallTarget>)
    requires
        spec_targets_distinct(old(out)@),
    ensures
        spec_targets_distinct(final(out)@),
        spec_target_set(final(out)@) == spec_target_set(old(out)@).union(spec_covered(facts.call_observations@)),
{
    let obs = &facts.call_observations;
    let ghost start = spec_target_set(out@);
    let mut i: usize = 0;
    while i < obs.len()
        invariant
            obs == &facts.call_observations,
            i <= obs@.len(),
            spec_targets_distinct(out@),
            spec_target_set(out@) == start.union(spec_covered(obs@.take(i as int))),
        decreases obs@.len() - i,
    {
        let ghost before = spec_target_set(out@);
        let o = &obs[i];
        let counts = match o.kind {
            ObservationKind::Direct => {
                let (name, target) = rvs_test_call(&o.target);
                let prefix = rvs_chars_of("rvs_");
                if rvs_starts_with(name.as_slice(), prefix.as_slice()) {
                    rvs_insert_target_M(out, target);
                    true
                } else {
                    false
                }
            },
            ObservationKind::FunctionReference => false,
        };
        proof {
            assert forall|x: TestCallView| #[trigger] spec_covered(obs@.take(i + 1)).contains(x)
                == (spec_covered(obs@.take(i as int)).contains(x) || (spec_counts_as_coverage(obs@[i as int])
                && spec_test_call(obs@[i as int].target).1 == x)) by {
                if spec_covered(obs@.take(i + 1)).contains(x) {
                    let j = choose|j: int| 0 <= j < i + 1 && spec_counts_as_coverage(#[trigger] obs@.take(i + 1)[j])
                        && spec_test_call(obs@.take(i + 1)[j].target).1 == x;
                    if j < i {
                        assert(obs@.take(i as int)[j] == obs@.take(i + 1)[j]);
                    }
                }
                if spec_covered(obs@.take(i as int)).contains(x) {
                    let j = choose|j: int| 0 <= j < i && spec_counts_as_coverage(#[trigger] obs@.take(i as int)[j])
                        && spec_test_call(obs@.take(i as int)[j].target).1 == x;
                    assert(obs@.take(i + 1)[j] == obs@.take(i as int)[j]);
                }
                if spec_counts_as_coverage(obs@[i as int]) && spec_test_call(obs@[i as int].target).1 == x {
                    assert(obs@.take(i + 1)[i as int] == obs@[i as int]);
                }
            }
            assert(counts == spec_counts_as_coverage(obs@[i as int]));
            assert(spec_target_set(out@) =~= start.union(spec_covered(obs@.take(i + 1))));
        }
        i = i + 1;
    }
    assert(obs@.take(obs@.len() as int) =~= obs@);
}

// ------------------------------------------------------------ findings

/// The crate a path names first: its text up to the first `:`.
pub open spec fn spec_first_segment(path: Seq<char>) -> Seq<char> {
    match spec_first_index_of(path, ':') {
        Some(k) => path.subrange(0, k),
        None => path,
    }
}

/// Whether a call reaches runtime code worth a finding: any call outside
/// `std`, `core` and `alloc`, and a resolved call into one of those when
/// it is that sysroot crate (`crate_is_sysroot`, the compiler's answer for
/// the callee's crate).
pub open spec fn spec_is_runtime_target(target: CallTarget, path: Seq<char>, crate_is_sysroot: bool) -> bool {
    let first = spec_first_segment(path);
    if !(first == "std"@ || first == "core"@ || first == "alloc"@) {
        true
    } else {
        target is Resolved && crate_is_sysroot
    }
}

/// Whether a call reaches runtime code worth a finding.
pub fn rvs_is_sysroot_runtime_target(target: &CallTarget, path: &str, crate_is_sysroot: bool) -> (r: bool)
    ensures
        r == spec_is_runtime_target(*target, path@, crate_is_sysroot),
{
    let p = rvs_chars_of(path);
    proof {
        lemma_first_index_of(p@, ':');
    }
    let first = match rvs_first_index_of(p.as_slice(), ':') {
        Some(k) => rvs_slice_chars(p.as_slice(), 0, k),
        None => p,
    };
    if !(rvs_spells(first.as_slice(), "std") || rvs_spells(first.as_slice(), "core") || rvs_spells(first.as_slice(), "alloc")) {
        return true;
    }
    match target {
        CallTarget::Resolved { .. } => crate_is_sysroot,
        _ => false,
    }
}

/// The texts one after another.
fn rvs_concat(a: &str, b: &str, c: &str) -> (r: String)
    ensures
        r@ == a@ + b@ + c@,
{
    let mut out = rvs_chars_of(a);
    let middle = rvs_chars_of(b);
    let last = rvs_chars_of(c);
    rvs_push_all(&mut out, middle.as_slice());
    rvs_push_all(&mut out, last.as_slice());
    rvs_string_of(out.as_slice())
}

/// The spawn finding for a call, if it is one: a direct call, outside a
/// test, of a spawning function reached at runtime.
pub open spec fn spec_spawn_message(o: CallObservation, is_test: bool, crate_is_sysroot: bool) -> Option<Seq<char>> {
    match spec_path_lint_callable(o.target) {
        Some(path) => if o.kind == ObservationKind::Direct && !is_test && spec_is_runtime_target(o.target, path, crate_is_sysroot)
            && spec_spawn_functions().contains(path) {
            Some(if o.syntax == CallSyntax::Function {
                "spawn: "@ + path + " — use structured concurrency"@
            } else {
                "spawn: "@ + path
            })
        } else {
            None
        },
        None => None,
    }
}

/// The spawn finding for a call, if it is one.
pub fn rvs_spawn_message(o: &CallObservation, is_test: bool, crate_is_sysroot: bool) -> (r: Option<String>)
    ensures
        match r {
            Some(m) => spec_spawn_message(*o, is_test, crate_is_sysroot) == Some(m@),
            None => spec_spawn_message(*o, is_test, crate_is_sysroot) is None,
        },
{
    let path = match rvs_path_lint_callable(&o.target) {
        Some(p) => p,
        None => {
            return None;
        },
    };
    let direct = match o.kind {
        ObservationKind::Direct => true,
        ObservationKind::FunctionReference => false,
    };
    if !direct || is_test || !rvs_is_sysroot_runtime_target(&o.target, path.as_str(), crate_is_sysroot)
        || !rvs_is_spawn_S(path.as_str()) {
        return None;
    }
    let m = match o.syntax {
        CallSyntax::Function => rvs_concat("spawn: ", path.as_str(), " — use structured concurrency"),
        CallSyntax::Method => rvs_concat("spawn: ", path.as_str(), ""),
    };
    proof {
        reveal_strlit("");
        assert(("spawn: "@ + path@ + ""@) =~= ("spawn: "@ + path@));
    }
    Some(m)
}

/// Whether a call is a reflection finding: a direct call of a reflection
/// function reached at runtime.
pub open spec fn spec_is_reflection_finding(o: CallObservation, crate_is_sysroot: bool) -> bool {
    match spec_path_lint_callable(o.target) {
        Some(path) => o.kind == ObservationKind::Direct && spec_is_runtime_target(o.target, path, crate_is_sysroot)
            && spec_reflection_functions().contains(path),
        None => false,
    }
}

/// Whether a call is a reflection finding.
pub fn rvs_is_reflection_finding(o: &CallObservation, crate_is_sysroot: bool) -> (r: bool)
    ensures
        r == spec_is_reflection_finding(*o, crate_is_sysroot),
{
    let path = match rvs_path_lint_callable(&o.target) {
        Some(p) => p,
        None => {
            return false;
        },
    };
    let direct = match o.kind {
        ObservationKind::Direct => true,
        ObservationKind::FunctionReference => false,
    };
    direct && rvs_is_sysroot_runtime_target(&o.target, path.as_str(), crate_is_sysroot) && rvs_is_reflection_S(path.as_str())
}

/// The paths of `catch_unwind`.
pub open spec fn spec_catch_unwind_paths() -> Seq<Seq<char>> {
    seq!["core::intrinsics::catch_unwind"@, "std::panic::catch_unwind"@, "std::panicking::catch_unwind"@]
}

/// Whether a call is a `catch_unwind` finding: a direct, resolved call of
/// one of its paths, reached at runtime.
pub open spec fn spec_is_catch_unwind_finding(o: CallObservation, crate_is_sysroot: bool) -> bool {
    match o.target {
        CallTarget::Resolved { def_path, .. } => o.kind == ObservationKind::Direct
            && spec_catch_unwind_paths().contains(spec_user_path(def_path@))
            && spec_is_runtime_target(o.target, spec_user_path(def_path@), crate_is_sysroot),
        _ => false,
    }
}

/// Whether a call is a `catch_unwind` finding.
pub fn rvs_is_catch_unwind_finding(o: &CallObservation, crate_is_sysroot: bool) -> (r: bool)
    ensures
        r == spec_is_catch_unwind_finding(*o, crate_is_sysroot),
{
    let direct = match o.kind {
        ObservationKind::Direct => true,
        ObservationKind::FunctionReference => false,
    };
    if !direct {
        return false;
    }
    match &o.target {
        CallTarget::Resolved { def_path, .. } => {
            let path = def_path.rvs_user_path().rvs_to_string();
            let p = rvs_chars_of(path.as_str());
            let listed = rvs_spells(p.as_slice(), "core::intrinsics::catch_unwind")
                || rvs_spells(p.as_slice(), "std::panic::catch_unwind")
                || rvs_spells(p.as_slice(), "std::panicking::catch_unwind");
            proof {
                if listed {
                    assert(spec_catch_unwind_paths().contains(p@));
                } else {
                    assert(!spec_catch_unwind_paths().contains(p@)) by {
                        if spec_catch_unwind_paths().contains(p@) {
                            let k = choose|k: int| 0 <= k < 3 && spec_catch_unwind_paths()[k] == p@;
                        }
                    }
                }
            }
            listed && rvs_is_sysroot_runtime_target(&o.target, path.as_str(), crate_is_sysroot)
        },
        _ => false,
    }
}

/// The finding for a call that swallows a `Result`'s error.
pub open spec fn spec_swallow_message(syntax: CallSyntax, name: Seq<char>) -> Seq<char> {
    if syntax == CallSyntax::Method {
        "."@ + name + "() swallows errors"@
    } else {
        name + "(...) swallows errors"@
    }
}

/// The finding for a dropped `Result`.
pub open spec fn spec_drop_message() -> Seq<char> {
    "drop(Result) discards a Result without handling it"@
}

/// The findings of swallowed errors in a body: one per swallowing call, in
/// order, then one per dropped `Result`.
pub fn rvs_error_swallow_messages(facts: &BodyFacts) -> (r: Vec<String>)
    ensures
        r@.len() == facts.result_swallow_calls@.len() + facts.result_drop_calls,
        forall|i: int| 0 <= i < facts.result_swallow_calls@.len() ==> #[trigger] r@[i]@
            == spec_swallow_message(facts.result_swallow_calls@[i].0, facts.result_swallow_calls@[i].1@),
        forall|i: int| facts.result_swallow_calls@.len() <= i < r@.len() ==> #[trigger] r@[i]@ == spec_drop_message(),
{
    let calls = &facts.result_swallow_calls;
    let mut r: Vec<String> = Vec::new();
    let mut i: usize = 0;
    while i < calls.len()
        invariant
            calls == &facts.result_swallow_calls,
            i <= calls@.len(),
            r@.len() == i,
            forall|j: int| 0 <= j < i ==> #[trigger] r@[j]@ == spec_swallow_message(calls@[j].0, calls@[j].1@),
        decreases calls@.len() - i,
    {
        let (syntax, name) = &calls[i];
        let m = match syntax {
            CallSyntax::Method => rvs_concat(".", name.as_str(), "() swallows errors"),
            CallSyntax::Function => rvs_concat("", name.as_str(), "(...) swallows errors"),
        };
        proof {
            reveal_strlit("");
            assert((""@ + name@ + "(...) swallows errors"@) =~= (name@ + "(...) swallows errors"@));
        }
        r.push(m);
        i = i + 1;
    }
    let mut k: usize = 0;
    while k < facts.result_drop_calls
        invariant
            calls == &facts.result_swallow_calls,
            k <= facts.result_drop_calls,
            r@.len() == calls@.len() + k,
            forall|j: int| 0 <= j < calls@.len() ==> #[trigger] r@[j]@ == spec_swallow_message(calls@[j].0, calls@[j].1@),
            forall|j: int| calls@.len() <= j < r@.len() ==> #[trigger] r@[j]@ == spec_drop_message(),
        decreases facts.result_drop_calls - k,
    {
        r.push("drop(Result) discards a Result without handling it".to_owned());
        k = k + 1;
    }
    r
}

/// The stub finding of a body, if it uses a stub macro.
pub fn rvs_stub_message(facts: &BodyFacts) -> (r: Option<String>)
    ensures
        match r {
            Some(m) => facts.has_stub && m@ == "stub: todo!()/unimplemented!()"@,
            None => !facts.has_stub,
        },
{
    if facts.has_stub {
        Some("stub: todo!()/unimplemented!()".to_owned())
    } else {
        None
    }
}

/// A parameter as the debug-assertion lint sees it: its binding (the
/// binding's id and name) when the pattern binds a plain name, and its type
/// as text.
#[derive(Debug, Clone)]
pub struct ParamBinding {
    pub binding: Option<(u64, String)>,
    pub type_text: String,
}

/// The finding for a parameter without a debug assertion.
pub open spec fn spec_missing_assert_message(name: Seq<char>) -> Seq<char> {
    "param '"@ + name + "' missing debug_assert!"@
}

/// The parameters of primitive number type, bound by name, that no
/// `debug_assert!` mentions, as findings in parameter order.
pub open spec fn spec_missing_asserts(params: Seq<ParamBinding>, asserted: Seq<u64>) -> Seq<Seq<char>>
    decreases params.len(),
{
    if params.len() == 0 {
        Seq::empty()
    } else {
        spec_missing_asserts(params.drop_last(), asserted) + match params.last().binding {
            Some(b) => if spec_primitive_numeric_names().contains(params.last().type_text@) && !asserted.contains(b.0) {
                seq![spec_missing_assert_message(b.1@)]
            } else {
                Seq::empty()
            },
            None => Seq::empty(),
        }
    }
}

/// The findings for parameters of primitive number type that no
/// `debug_assert!` mentions (`asserted` holds the bindings that one does).
pub fn rvs_missing_debug_assert_messages(params: &Vec<ParamBinding>, asserted: &Vec<u64>) -> (r: Vec<String>)
    ensures
        spec_text_rows(r@) == spec_missing_asserts(params@, asserted@),
{
    let names = rvs_primitive_numeric_texts();
    let mut r: Vec<String> = Vec::new();
    let mut i: usize = 0;
    assert(spec_text_rows(r@) =~= spec_missing_asserts(params@.take(0), asserted@));
    while i < params.len()
        invariant
            i <= params@.len(),
            names@.len() == spec_primitive_numeric_names().len(),
            forall|j: int| 0 <= j < names@.len() ==> #[trigger] names@[j]@ == spec_primitive_numeric_names()[j],
            spec_text_rows(r@) == spec_missing_asserts(params@.take(i as int), asserted@),
        decreases params@.len() - i,
    {
        assert(params@.take(i + 1).drop_last() =~= params@.take(i as int));
        assert(params@.take(i + 1).last() == params@[i as int]);
        let ghost before = r@;
        let p = &params[i];
        match &p.binding {
            Some(b) => {
                let t = rvs_chars_of(p.type_text.as_str());
                let mut primitive = false;
                let mut k: usize = 0;
                while k < names.len()
                    invariant
                        k <= names@.len(),
                        names@.len() == spec_primitive_numeric_names().len(),
                        forall|j: int| 0 <= j < names@.len() ==> #[trigger] names@[j]@ == spec_primitive_numeric_names()[j],
                        primitive == exists|j: int| 0 <= j < k && #[trigger] spec_primitive_numeric_names()[j] == t@,
                    decreases names@.len() - k,
                {
                    if rvs_chars_eq(names[k].as_slice(), t.as_slice()) {
                        primitive = true;
                    }
                    k = k + 1;
                }
                let mut mentioned = false;
                let mut m: usize = 0;
                while m < asserted.len()
                    invariant
                        m <= asserted@.len(),
                        mentioned == exists|j: int| 0 <= j < m && #[trigger] asserted@[j] == b.0,
                    decreases asserted@.len() - m,
                {
                    if asserted[m] == b.0 {
                        mentioned = true;
                    }
                    m = m + 1;
                }
                if primitive && !mentioned {
                    r.push(rvs_concat("param '", b.1.as_str(), "' missing debug_assert!"));
                }
                assert(spec_text_rows(r@) =~= spec_missing_asserts(params@.take(i + 1), asserted@));
            },
            None => {
                assert(spec_text_rows(r@) =~= spec_missing_asserts(params@.take(i + 1), asserted@));
            },
        }
        i = i + 1;
    }
    assert(params@.take(params@.len() as int) =~= params@);
    r
}

} // verus!
