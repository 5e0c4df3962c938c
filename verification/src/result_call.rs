//! The effect of a function body's terminators on the `Result` flow state:
//! inline assembly, drops and calls.  A call is given by what the analysis
//! asks the compiler about its callee: the callee's definition path, the
//! summary of its effects on its parameters when it is a function of this
//! crate, which arguments need dropping, and whether the callee (or the
//! coroutine it polls) may return an error.
use vstd::prelude::*;

use crate::flow_map::{FlowKey, FlowMap, PlaceView};
use crate::result_flow::{
    spec_predicate_view, LocalParamChannelEffect, LocalParamEffect, ResultFlowState, ResultPlaceKey, ResultReference, ResultReferenceMap,
    rvs_call_is_result_branch, rvs_call_is_result_from_output, rvs_call_preserves_result_variant, rvs_result_predicate_source,
    spec_error_test, spec_sole_direct, RVS_RESULT_OK,
    rvs_merge_reference_maps, spec_merged_reference, spec_inner_get, spec_is_result_branch, spec_is_result_from_output, spec_preserves_result_variant,
};
use crate::result_mir::{
    lemma_merged_operands, rvs_apply_drop_M, rvs_apply_inline_asm_M, spec_asm_in, spec_asm_targets, spec_drop_in, spec_drop_targets,
    rvs_forget_targets_M, rvs_operand_references, rvs_push_changing_targets, spec_operand_in,
    spec_operands_reference, spec_place_reference, spec_operand_place, spec_operand_value, spec_unknown_value,
    rvs_operand_result_value, rvs_unknown_result_value, spec_mir_key, spec_join_opt, spec_can_change, spec_escape_set, spec_forgotten, spec_names_from, spec_operand_reference, spec_target_set, MirOperand,
    MirPlace, TypeFacts,
};
use crate::symbols::{rvs_user_path_chars, spec_user_path};
use crate::text::{rvs_chars_eq, rvs_chars_of, rvs_ends_with, rvs_string_of, spec_ends_with};

verus! {

/// What the analysis asks the compiler about a call.
#[derive(Debug, Clone)]
pub struct CallFacts {
    /// The callee's definition path, when the called operand names a
    /// function.
    pub def_path: Option<String>,
    /// The callee's effects on its parameters, when it is a function of
    /// this crate with a summary.
    pub local_effects: Option<Vec<LocalParamEffect>>,
    /// Whether each argument's type needs dropping.
    pub argument_needs_drop: Vec<bool>,
    /// Whether the callee, a function of this crate, may return an error;
    /// nothing when that is not known.
    pub callee_summary: Option<bool>,
    /// The same for the coroutine the called function polls directly.
    pub coroutine_summary: Option<bool>,
}

/// A terminator, as far as its effects go.
#[derive(Debug, Clone)]
pub enum MirTerminator {
    InlineAsm,
    Drop(MirPlace),
    /// A call: what is known of the callee, the arguments and the
    /// destination.
    Call(CallFacts, Vec<MirOperand>, MirPlace),
    Other,
}

// ------------------------------------------------------------ callees

/// The user path of the callee, if the call names one.
pub open spec fn spec_call_user_path(f: CallFacts) -> Option<Seq<char>> {
    match f.def_path {
        Some(d) => Some(spec_user_path(d@)),
        None => None,
    }
}

/// `core::hint::black_box`, which hands its argument back.
pub open spec fn spec_is_black_box(u: Seq<char>) -> bool {
    u == "core::hint::black_box"@
}

/// `Future::poll`.
pub open spec fn spec_is_future_poll(u: Seq<char>) -> bool {
    u == "core::future::future::Future::poll"@ || spec_ends_with(u, "poll@core::future::future::Future"@)
}

/// The callee keeps the variant of the `Result` it is called on.
pub open spec fn spec_call_preserves_variant(f: CallFacts) -> bool {
    match spec_call_user_path(f) {
        Some(u) => spec_preserves_result_variant(u),
        None => false,
    }
}

/// The argument at `i` exists and its type needs dropping.
pub open spec fn spec_needs_drop(f: CallFacts, args: Seq<MirOperand>, i: int) -> bool {
    0 <= i < args.len() && i < f.argument_needs_drop@.len() && f.argument_needs_drop@[i]
}

/// The effect assumed of a callee nothing is known of.
pub open spec fn spec_unknown_effect() -> LocalParamEffect {
    let channel = LocalParamChannelEffect { may_mutate: true, may_escape: true, may_drop: true, may_return_alias: true };
    LocalParamEffect { direct: channel, nested: channel }
}

/// The callee's effect on its `i`-th parameter: its summary's, or the
/// unknown effect past the summary.
pub open spec fn spec_effect_at(effects: Seq<LocalParamEffect>, i: int) -> LocalParamEffect {
    if 0 <= i < effects.len() {
        effects[i]
    } else {
        spec_unknown_effect()
    }
}

/// The effect leaves the argument alone.
pub open spec fn spec_preserves_argument(e: LocalParamEffect, needs_drop: bool) -> bool {
    !e.direct.may_mutate && !e.direct.may_escape && !(e.direct.may_drop && needs_drop) && !e.nested.may_mutate
        && !e.nested.may_escape && !(e.nested.may_drop && needs_drop)
}

/// The callee's summary leaves every argument alone.
pub open spec fn spec_effects_preserve(f: CallFacts, args: Seq<MirOperand>) -> bool {
    match f.local_effects {
        Some(e) => forall|i: int| 0 <= i < e@.len() ==> #[trigger] spec_preserves_argument(e@[i], spec_needs_drop(f, args, i)),
        None => false,
    }
}

/// The callee leaves the contents of its arguments alone: by its summary,
/// or because it is `black_box`, a variant-keeping `Result` method or
/// `Try::branch`.
pub open spec fn spec_call_preserves_contents(f: CallFacts, args: Seq<MirOperand>) -> bool {
    ||| spec_effects_preserve(f, args)
    ||| match spec_call_user_path(f) {
        Some(u) => spec_is_black_box(u) || spec_preserves_result_variant(u) || spec_is_result_branch(u),
        None => false,
    }
}

/// The effect may mutate what the reference reaches.
pub open spec fn spec_may_mutate(e: LocalParamEffect, r: ResultReference) -> bool {
    (r.direct_mutable && e.direct.may_mutate) || (r.nested_mutable && e.nested.may_mutate)
}

/// What the reference reaches may escape.
pub open spec fn spec_may_escape(e: LocalParamEffect, r: ResultReference) -> bool {
    (r.direct_mutable && e.direct.may_escape) || (r.nested_mutable && e.nested.may_escape)
}

/// What the reference reaches may be dropped.
pub open spec fn spec_may_drop(e: LocalParamEffect, r: ResultReference) -> bool {
    (r.direct_mutable && e.direct.may_drop) || (r.nested_mutable && e.nested.may_drop)
}

/// What the reference reaches may be returned.
pub open spec fn spec_may_return_alias(e: LocalParamEffect, r: ResultReference) -> bool {
    (r.direct && e.direct.may_return_alias) || (r.nested && e.nested.may_return_alias)
}

/// The callee may change what the reference reaches through an argument
/// whose type needs dropping or not.
pub open spec fn spec_effect_touches(e: LocalParamEffect, r: Option<ResultReference>, needs_drop: bool) -> bool {
    match r {
        Some(x) => spec_may_mutate(e, x) || spec_may_escape(e, x) || (needs_drop && spec_may_drop(e, x)),
        None => false,
    }
}

/// What the reference reaches escapes into the callee.
pub open spec fn spec_effect_escapes(e: LocalParamEffect, r: Option<ResultReference>) -> bool {
    match r {
        Some(x) => spec_may_escape(e, x),
        None => false,
    }
}

/// Some target from position `from` on names `t` and escapes.
pub open spec fn spec_escapes_from(ts: Seq<(ResultPlaceKey, bool)>, from: int, t: PlaceView) -> bool {
    exists|j: int| from <= j < ts.len() && #[trigger] ts[j].0.spec_key() == t && ts[j].1
}

/// Appends every place a map reaches that the effect may change, flagged
/// with whether it escapes.
fn rvs_push_effect_targets(targets: &mut Vec<(ResultPlaceKey, bool)>, m: &ResultReferenceMap, e: LocalParamEffect, needs_drop: bool)
    requires
        m.wf(),
    ensures
        final(targets)@.len() >= old(targets)@.len(),
        forall|j: int| 0 <= j < old(targets)@.len() ==> #[trigger] final(targets)@[j] == old(targets)@[j],
        forall|t: PlaceView| #[trigger] spec_names_from(final(targets)@, old(targets)@.len() as int, t)
            == spec_effect_touches(e, m.get(t), needs_drop),
        forall|t: PlaceView| #[trigger] spec_escapes_from(final(targets)@, old(targets)@.len() as int, t)
            == spec_effect_escapes(e, m.get(t)),
{
    let ghost start = targets@;
    let ghost n = start.len() as int;
    let mut i: usize = 0;
    while i < m.rvs_len()
        invariant
            m.wf(),
            i <= m.len_spec(),
            n == start.len(),
            targets@.len() >= start.len(),
            forall|j: int| 0 <= j < start.len() ==> #[trigger] targets@[j] == start[j],
            forall|t: PlaceView| #[trigger] spec_names_from(targets@, n, t)
                == exists|k: int| 0 <= k < i && #[trigger] m.key(k) == t && spec_effect_touches(e, Some(m.val(k)), needs_drop),
            forall|t: PlaceView| #[trigger] spec_escapes_from(targets@, n, t)
                == exists|k: int| 0 <= k < i && #[trigger] m.key(k) == t && spec_effect_escapes(e, Some(m.val(k))),
        decreases m.len_spec() - i,
    {
        let r = *m.rvs_value_at(i);
        let may_mutate = e.rvs_may_mutate(r);
        let may_escape = e.rvs_may_escape(r);
        let may_drop = needs_drop && e.rvs_may_drop(r);
        let ghost before = targets@;
        if may_mutate || may_escape || may_drop {
            targets.push((m.rvs_key_at(i).rvs_dup(), may_escape));
        }
        proof {
            assert forall|t: PlaceView| #[trigger] spec_names_from(targets@, n, t)
                == exists|k: int| 0 <= k < i + 1 && #[trigger] m.key(k) == t && spec_effect_touches(e, Some(m.val(k)), needs_drop) by {
                if spec_names_from(targets@, n, t) {
                    let j = choose|j: int| n <= j < targets@.len() && #[trigger] targets@[j].0.spec_key() == t;
                    if j < before.len() {
                        assert(before[j] == targets@[j]);
                        assert(spec_names_from(before, n, t));
                        let k = choose|k: int| 0 <= k < i && #[trigger] m.key(k) == t && spec_effect_touches(e, Some(m.val(k)), needs_drop);
                        assert(0 <= k < i + 1);
                    } else {
                        assert(m.key(i as int) == t);
                    }
                }
                if exists|k: int| 0 <= k < i + 1 && #[trigger] m.key(k) == t && spec_effect_touches(e, Some(m.val(k)), needs_drop) {
                    let k = choose|k: int| 0 <= k < i + 1 && #[trigger] m.key(k) == t && spec_effect_touches(e, Some(m.val(k)), needs_drop);
                    if k < i {
                        assert(spec_names_from(before, n, t));
                        let j = choose|j: int| n <= j < before.len() && #[trigger] before[j].0.spec_key() == t;
                        assert(targets@[j] == before[j]);
                    } else {
                        assert(targets@[before.len() as int].0.spec_key() == t);
                    }
                }
            }
            assert forall|t: PlaceView| #[trigger] spec_escapes_from(targets@, n, t)
                == exists|k: int| 0 <= k < i + 1 && #[trigger] m.key(k) == t && spec_effect_escapes(e, Some(m.val(k))) by {
                if spec_escapes_from(targets@, n, t) {
                    let j = choose|j: int| n <= j < targets@.len() && #[trigger] targets@[j].0.spec_key() == t && targets@[j].1;
                    if j < before.len() {
                        assert(before[j] == targets@[j]);
                        assert(spec_escapes_from(before, n, t));
                        let k = choose|k: int| 0 <= k < i && #[trigger] m.key(k) == t && spec_effect_escapes(e, Some(m.val(k)));
                        assert(0 <= k < i + 1);
                    } else {
                        assert(m.key(i as int) == t);
                    }
                }
                if exists|k: int| 0 <= k < i + 1 && #[trigger] m.key(k) == t && spec_effect_escapes(e, Some(m.val(k))) {
                    let k = choose|k: int| 0 <= k < i + 1 && #[trigger] m.key(k) == t && spec_effect_escapes(e, Some(m.val(k)));
                    if k < i {
                        assert(spec_escapes_from(before, n, t));
                        let j = choose|j: int| n <= j < before.len() && #[trigger] before[j].0.spec_key() == t && before[j].1;
                        assert(targets@[j] == before[j]);
                    } else {
                        assert(targets@[before.len() as int].0.spec_key() == t && targets@[before.len() as int].1);
                    }
                }
            }
        }
        i = i + 1;
    }
    proof {
        assert forall|t: PlaceView| #[trigger] spec_names_from(targets@, n, t) == spec_effect_touches(e, m.get(t), needs_drop) by {
            if m.has(t) {
                let k = m.index_of(t);
                m.lemma_index_unique(k);
            }
            if exists|k: int| 0 <= k < m.len_spec() && #[trigger] m.key(k) == t && spec_effect_touches(e, Some(m.val(k)), needs_drop) {
                let k = choose|k: int| 0 <= k < m.len_spec() && #[trigger] m.key(k) == t && spec_effect_touches(e, Some(m.val(k)), needs_drop);
                m.lemma_index_unique(k);
            }
        }
        assert forall|t: PlaceView| #[trigger] spec_escapes_from(targets@, n, t) == spec_effect_escapes(e, m.get(t)) by {
            if m.has(t) {
                let k = m.index_of(t);
                m.lemma_index_unique(k);
            }
            if exists|k: int| 0 <= k < m.len_spec() && #[trigger] m.key(k) == t && spec_effect_escapes(e, Some(m.val(k))) {
                let k = choose|k: int| 0 <= k < m.len_spec() && #[trigger] m.key(k) == t && spec_effect_escapes(e, Some(m.val(k)));
                m.lemma_index_unique(k);
            }
        }
    }
}

// ------------------------------------------------------ places in range

/// Every place the state names belongs to a local below `n`.
pub open spec fn spec_keys_in(s: ResultFlowState, n: nat) -> bool {
    &&& forall|l: PlaceView, t: PlaceView| #[trigger] spec_inner_get(s.references, l, t) is Some ==> t.0 < n
    &&& forall|p: PlaceView| #[trigger] s.projected_values.has(p) ==> p.0 < n
    &&& forall|p: PlaceView| #[trigger] s.escaped_results.has(p) ==> p.0 < n
}

proof fn lemma_place_reference_in(s: ResultFlowState, p: MirPlace, t: PlaceView, n: nat)
    requires
        spec_keys_in(s, n),
        p.local < n,
        spec_place_reference(s, p, t) is Some,
    ensures
        t.0 < n,
{
    if spec_inner_get(s.references, (p.local, Seq::empty()), t) is Some {
    } else if s.projected_values.has(t) {
    } else {
        assert(t == spec_mir_key(p));
    }
}

proof fn lemma_operands_reference_in(s: ResultFlowState, ops: Seq<MirOperand>, locals: Seq<TypeFacts>, t: PlaceView)
    requires
        spec_keys_in(s, locals.len()),
        forall|i: int| 0 <= i < ops.len() ==> spec_operand_in(#[trigger] ops[i], locals),
        spec_operands_reference(s, ops, t) is Some,
    ensures
        t.0 < locals.len(),
    decreases ops.len(),
{
    if ops.len() > 0 {
        if spec_operands_reference(s, ops.drop_last(), t) is Some {
            assert forall|i: int| 0 <= i < ops.drop_last().len() implies spec_operand_in(#[trigger] ops.drop_last()[i], locals) by {
                assert(ops.drop_last()[i] == ops[i]);
            }
            lemma_operands_reference_in(s, ops.drop_last(), locals, t);
        } else {
            let o = ops.last();
            assert(spec_operand_in(ops[ops.len() - 1], locals));
            match spec_operand_place(o) {
                Some(p) => lemma_place_reference_in(s, p, t, locals.len()),
                None => {},
            }
        }
    }
}

// ------------------------------------------------------ argument effects

/// Some argument reaches `t` through a reference its parameter's effect
/// may change.
pub open spec fn spec_arg_touched(s: ResultFlowState, f: CallFacts, args: Seq<MirOperand>, e: Seq<LocalParamEffect>, n: int, t: PlaceView) -> bool {
    exists|i: int| 0 <= i < n && #[trigger] spec_effect_touches(spec_effect_at(e, i), spec_operand_reference(s, args[i], t), spec_needs_drop(f, args, i))
}

/// Some argument reaches `t` through a reference that escapes into the
/// callee.
pub open spec fn spec_arg_escaped(s: ResultFlowState, args: Seq<MirOperand>, e: Seq<LocalParamEffect>, n: int, t: PlaceView) -> bool {
    exists|i: int| 0 <= i < n && #[trigger] spec_effect_escapes(spec_effect_at(e, i), spec_operand_reference(s, args[i], t))
}

/// The places a call forgets: with a summary of the callee, those an
/// argument reaches that its parameter's effect may change; without one,
/// unless the callee keeps variants or contents, every place the
/// arguments reach through a reference that can change a variant.
pub open spec fn spec_call_hit(s: ResultFlowState, f: CallFacts, args: Seq<MirOperand>) -> Set<PlaceView> {
    match f.local_effects {
        Some(e) => Set::new(|t: PlaceView| spec_arg_touched(s, f, args, e@, args.len() as int, t)),
        None => if !spec_call_preserves_variant(f) && !spec_call_preserves_contents(f, args) {
            Set::new(|t: PlaceView| spec_can_change(spec_operands_reference(s, args, t)))
        } else {
            Set::empty()
        },
    }
}

/// The places that escape into a call.
pub open spec fn spec_call_escaped(s: ResultFlowState, f: CallFacts, args: Seq<MirOperand>) -> Set<PlaceView> {
    match f.local_effects {
        Some(e) => Set::new(|t: PlaceView| spec_arg_escaped(s, args, e@, args.len() as int, t)),
        None => spec_call_hit(s, f, args),
    }
}

/// The reference maps of the arguments.
fn rvs_argument_maps(state: &ResultFlowState, args: &Vec<MirOperand>) -> (maps: Vec<ResultReferenceMap>)
    requires
        state.wf(),
    ensures
        maps@.len() == args@.len(),
        forall|i: int| 0 <= i < maps@.len() ==> (#[trigger] maps@[i]).wf(),
        forall|i: int, t: PlaceView| 0 <= i < maps@.len() ==> #[trigger] maps@[i].get(t) == spec_operand_reference(*state, args@[i], t),
{
    let mut maps: Vec<ResultReferenceMap> = Vec::new();
    let mut i: usize = 0;
    while i < args.len()
        invariant
            state.wf(),
            i <= args@.len(),
            maps@.len() == i,
            forall|j: int| 0 <= j < i ==> (#[trigger] maps@[j]).wf(),
            forall|j: int, t: PlaceView| 0 <= j < i ==> #[trigger] maps@[j].get(t) == spec_operand_reference(*state, args@[j], t),
        decreases args@.len() - i,
    {
        maps.push(rvs_operand_references(state, &args[i]));
        i = i + 1;
    }
    maps
}

/// The targets a call with a summary of its callee forgets.
fn rvs_effect_targets(
    state: &ResultFlowState,
    f: &CallFacts,
    args: &Vec<MirOperand>,
    maps: &Vec<ResultReferenceMap>,
    effects: &Vec<LocalParamEffect>,
) -> (targets: Vec<(ResultPlaceKey, bool)>)
    requires
        maps@.len() == args@.len(),
        forall|i: int| 0 <= i < maps@.len() ==> (#[trigger] maps@[i]).wf(),
        forall|i: int, t: PlaceView| 0 <= i < maps@.len() ==> #[trigger] maps@[i].get(t) == spec_operand_reference(*state, args@[i], t),
    ensures
        forall|t: PlaceView| #[trigger] spec_names_from(targets@, 0, t) == spec_arg_touched(*state, *f, args@, effects@, args@.len() as int, t),
        forall|t: PlaceView| #[trigger] spec_escapes_from(targets@, 0, t) == spec_arg_escaped(*state, args@, effects@, args@.len() as int, t),
{
    let mut targets: Vec<(ResultPlaceKey, bool)> = Vec::new();
    let mut i: usize = 0;
    while i < maps.len()
        invariant
            maps@.len() == args@.len(),
            forall|j: int| 0 <= j < maps@.len() ==> (#[trigger] maps@[j]).wf(),
            forall|j: int, t: PlaceView| 0 <= j < maps@.len() ==> #[trigger] maps@[j].get(t) == spec_operand_reference(*state, args@[j], t),
            i <= maps@.len(),
            forall|t: PlaceView| #[trigger] spec_names_from(targets@, 0, t) == spec_arg_touched(*state, *f, args@, effects@, i as int, t),
            forall|t: PlaceView| #[trigger] spec_escapes_from(targets@, 0, t) == spec_arg_escaped(*state, args@, effects@, i as int, t),
        decreases maps@.len() - i,
    {
        let effect = if i < effects.len() {
            effects[i]
        } else {
            crate::result_flow::rvs_unknown_local_param_effect()
        };
        let needs_drop = i < f.argument_needs_drop.len() && f.argument_needs_drop[i];
        let ghost before = targets@;
        proof {
            assert(effect == spec_effect_at(effects@, i as int));
            assert(needs_drop == spec_needs_drop(*f, args@, i as int));
        }
        rvs_push_effect_targets(&mut targets, &maps[i], effect, needs_drop);
        proof {
            assert forall|t: PlaceView| #[trigger] spec_names_from(targets@, 0, t) == spec_arg_touched(*state, *f, args@, effects@, i + 1, t) by {
                assert(maps@[i as int].get(t) == spec_operand_reference(*state, args@[i as int], t));
                if spec_names_from(targets@, 0, t) {
                    let j = choose|j: int| 0 <= j < targets@.len() && #[trigger] targets@[j].0.spec_key() == t;
                    if j < before.len() {
                        assert(before[j] == targets@[j]);
                        assert(spec_names_from(before, 0, t));
                        let k = choose|k: int| 0 <= k < i && #[trigger] spec_effect_touches(spec_effect_at(effects@, k),
                            spec_operand_reference(*state, args@[k], t), spec_needs_drop(*f, args@, k));
                        assert(0 <= k < i + 1);
                    } else {
                        assert(spec_names_from(targets@, before.len() as int, t));
                        assert(spec_effect_touches(spec_effect_at(effects@, i as int), spec_operand_reference(*state, args@[i as int], t),
                            spec_needs_drop(*f, args@, i as int)));
                    }
                }
                if spec_arg_touched(*state, *f, args@, effects@, i + 1, t) {
                    let k = choose|k: int| 0 <= k < i + 1 && #[trigger] spec_effect_touches(spec_effect_at(effects@, k),
                        spec_operand_reference(*state, args@[k], t), spec_needs_drop(*f, args@, k));
                    if k < i {
                        assert(spec_arg_touched(*state, *f, args@, effects@, i as int, t));
                        assert(spec_names_from(before, 0, t));
                        let j = choose|j: int| 0 <= j < before.len() && #[trigger] before[j].0.spec_key() == t;
                        assert(targets@[j] == before[j]);
                    } else {
                        assert(spec_names_from(targets@, before.len() as int, t));
                        let j = choose|j: int| before.len() <= j < targets@.len() && #[trigger] targets@[j].0.spec_key() == t;
                    }
                }
            }
            assert forall|t: PlaceView| #[trigger] spec_escapes_from(targets@, 0, t) == spec_arg_escaped(*state, args@, effects@, i + 1, t) by {
                assert(maps@[i as int].get(t) == spec_operand_reference(*state, args@[i as int], t));
                if spec_escapes_from(targets@, 0, t) {
                    let j = choose|j: int| 0 <= j < targets@.len() && #[trigger] targets@[j].0.spec_key() == t && targets@[j].1;
                    if j < before.len() {
                        assert(before[j] == targets@[j]);
                        assert(spec_escapes_from(before, 0, t));
                        let k = choose|k: int| 0 <= k < i && #[trigger] spec_effect_escapes(spec_effect_at(effects@, k),
                            spec_operand_reference(*state, args@[k], t));
                        assert(0 <= k < i + 1);
                    } else {
                        assert(spec_escapes_from(targets@, before.len() as int, t));
                    }
                }
                if spec_arg_escaped(*state, args@, effects@, i + 1, t) {
                    let k = choose|k: int| 0 <= k < i + 1 && #[trigger] spec_effect_escapes(spec_effect_at(effects@, k),
                        spec_operand_reference(*state, args@[k], t));
                    if k < i {
                        assert(spec_arg_escaped(*state, args@, effects@, i as int, t));
                        assert(spec_escapes_from(before, 0, t));
                        let j = choose|j: int| 0 <= j < before.len() && #[trigger] before[j].0.spec_key() == t && before[j].1;
                        assert(targets@[j] == before[j]);
                    } else {
                        assert(spec_escapes_from(targets@, before.len() as int, t));
                        let j = choose|j: int| before.len() <= j < targets@.len() && #[trigger] targets@[j].0.spec_key() == t && targets@[j].1;
                    }
                }
            }
        }
        i = i + 1;
    }
    targets
}

// ------------------------------------------------------ returned references

/// A reference the callee may hand back through its result.
pub open spec fn spec_returned_alias(e: LocalParamEffect, r: Option<ResultReference>) -> Option<ResultReference> {
    match r {
        Some(x) => if spec_may_return_alias(e, x) { Some(x) } else { None },
        None => None,
    }
}

/// What the first `n` arguments may hand back for `t`, joined.
pub open spec fn spec_returned(s: ResultFlowState, args: Seq<MirOperand>, e: Seq<LocalParamEffect>, n: int, t: PlaceView) -> Option<ResultReference>
    decreases n,
{
    if n <= 0 {
        None
    } else {
        spec_join_opt(spec_returned(s, args, e, n - 1, t), spec_returned_alias(e[n - 1], spec_operand_reference(s, args[n - 1], t)))
    }
}

/// The reference the call's result holds to `t`: with a summary of the
/// callee, what the arguments may hand back; otherwise everything the
/// arguments reach; no longer able to change a `Result` itself when the
/// callee keeps variants.
pub open spec fn spec_stored_reference(s: ResultFlowState, f: CallFacts, args: Seq<MirOperand>, t: PlaceView) -> Option<ResultReference> {
    let returned = match f.local_effects {
        Some(e) => spec_returned(s, args, e@, if e@.len() < args.len() { e@.len() as int } else { args.len() as int }, t),
        None => spec_operands_reference(s, args, t),
    };
    if spec_call_preserves_variant(f) {
        match returned {
            Some(x) => Some(ResultReference { direct_mutable: false, ..x }),
            None => None,
        }
    } else {
        returned
    }
}

/// The entries of a map the callee may hand back.
fn rvs_filter_returned(m: &ResultReferenceMap, e: LocalParamEffect) -> (r: ResultReferenceMap)
    requires
        m.wf(),
    ensures
        r.wf(),
        forall|t: PlaceView| #[trigger] r.get(t) == spec_returned_alias(e, m.get(t)),
{
    let mut r: ResultReferenceMap = FlowMap::rvs_new();
    let mut i: usize = 0;
    while i < m.rvs_len()
        invariant
            m.wf(),
            r.wf(),
            i <= m.len_spec(),
            forall|t: PlaceView| #[trigger] r.get(t) == if exists|k: int| 0 <= k < i && #[trigger] m.key(k) == t {
                spec_returned_alias(e, m.get(t))
            } else {
                None
            },
        decreases m.len_spec() - i,
    {
        let x = *m.rvs_value_at(i);
        let ghost k = m.key(i as int);
        proof {
            m.lemma_index_unique(i as int);
        }
        if e.rvs_may_return_alias(x) {
            r.rvs_insert_M(m.rvs_key_at(i).rvs_dup(), x);
        }
        proof {
            assert forall|t: PlaceView| #[trigger] r.get(t) == if exists|j: int| 0 <= j < i + 1 && #[trigger] m.key(j) == t {
                spec_returned_alias(e, m.get(t))
            } else {
                None
            } by {
                if t == k {
                    assert(m.key(i as int) == t);
                } else if exists|j: int| 0 <= j < i + 1 && #[trigger] m.key(j) == t {
                    let j = choose|j: int| 0 <= j < i + 1 && #[trigger] m.key(j) == t;
                    assert(j < i);
                }
            }
        }
        i = i + 1;
    }
    proof {
        assert forall|t: PlaceView| #[trigger] r.get(t) == spec_returned_alias(e, m.get(t)) by {
            if m.has(t) {
                let j = choose|j: int| 0 <= j < m.len_spec() && #[trigger] m.key(j) == t;
                assert(m.key(j) == t);
            }
        }
    }
    r
}

proof fn lemma_merged_returned(
    s: ResultFlowState,
    args: Seq<MirOperand>,
    e: Seq<LocalParamEffect>,
    maps: Seq<ResultReferenceMap>,
    t: PlaceView,
)
    requires
        maps.len() <= args.len(),
        maps.len() <= e.len(),
        forall|i: int| 0 <= i < maps.len() ==> #[trigger] maps[i].get(t) == spec_returned_alias(e[i], spec_operand_reference(s, args[i], t)),
    ensures
        spec_merged_reference(maps, t) == spec_returned(s, args, e, maps.len() as int, t),
    decreases maps.len(),
{
    if maps.len() > 0 {
        lemma_merged_returned(s, args, e, maps.drop_last(), t);
        assert(maps.last() == maps[maps.len() - 1]);
    }
}

/// The references the call's result holds.
fn rvs_stored_references(
    state: &ResultFlowState,
    f: &CallFacts,
    args: &Vec<MirOperand>,
    maps: &Vec<ResultReferenceMap>,
    merged: &ResultReferenceMap,
    preserves_variant: bool,
) -> (r: ResultReferenceMap)
    requires
        merged.wf(),
        forall|t: PlaceView| #[trigger] merged.get(t) == spec_operands_reference(*state, args@, t),
        maps@.len() == args@.len(),
        forall|i: int| 0 <= i < maps@.len() ==> (#[trigger] maps@[i]).wf(),
        forall|i: int, t: PlaceView| 0 <= i < maps@.len() ==> #[trigger] maps@[i].get(t) == spec_operand_reference(*state, args@[i], t),
        preserves_variant == spec_call_preserves_variant(*f),
    ensures
        r.wf(),
        forall|t: PlaceView| #[trigger] r.get(t) == spec_stored_reference(*state, *f, args@, t),
{
    let returned = match &f.local_effects {
        Some(e) => {
            let mut filtered: Vec<ResultReferenceMap> = Vec::new();
            let mut i: usize = 0;
            while i < e.len() && i < maps.len()
                invariant
                    maps@.len() == args@.len(),
                    forall|j: int| 0 <= j < maps@.len() ==> (#[trigger] maps@[j]).wf(),
                    forall|j: int, t: PlaceView| 0 <= j < maps@.len() ==> #[trigger] maps@[j].get(t) == spec_operand_reference(*state, args@[j], t),
                    i <= e@.len(),
                    i <= maps@.len(),
                    filtered@.len() == i,
                    forall|j: int| 0 <= j < i ==> (#[trigger] filtered@[j]).wf(),
                    forall|j: int, t: PlaceView| 0 <= j < i ==> #[trigger] filtered@[j].get(t)
                        == spec_returned_alias(e@[j], spec_operand_reference(*state, args@[j], t)),
                decreases maps@.len() - i,
            {
                filtered.push(rvs_filter_returned(&maps[i], e[i]));
                i = i + 1;
            }
            let m = rvs_merge_reference_maps(&filtered);
            proof {
                assert forall|t: PlaceView| #[trigger] m.get(t) == spec_returned(*state, args@, e@,
                    if e@.len() < args@.len() { e@.len() as int } else { args@.len() as int }, t) by {
                    assert forall|j: int| 0 <= j < filtered@.len() implies #[trigger] filtered@[j].get(t)
                        == spec_returned_alias(e@[j], spec_operand_reference(*state, args@[j], t)) by {}
                    lemma_merged_returned(*state, args@, e@, filtered@, t);
                }
            }
            m
        },
        None => crate::result_mir::rvs_copy_reference_map(merged),
    };
    if preserves_variant {
        crate::result_flow::rvs_preserve_direct_variants(returned)
    } else {
        returned
    }
}

// ------------------------------------------------------ preserved variants

/// The variants of the places the first `n` entries of the map reach
/// directly, united.
pub open spec fn spec_direct_or(s: ResultFlowState, m: ResultReferenceMap, n: int) -> u8
    decreases n,
{
    if n <= 0 {
        0u8
    } else {
        spec_direct_or(s, m, n - 1) | (if m.val(n - 1).direct { s.spec_place_value(m.key(n - 1)) } else { 0u8 })
    }
}

/// The variants of the places the map reaches directly, united.
fn rvs_direct_or(state: &ResultFlowState, m: &ResultReferenceMap) -> (r: u8)
    requires
        state.wf(),
    ensures
        r == spec_direct_or(*state, *m, m.len_spec() as int),
{
    let mut acc: u8 = 0;
    let mut i: usize = 0;
    while i < m.rvs_len()
        invariant
            state.wf(),
            i <= m.len_spec(),
            acc == spec_direct_or(*state, *m, i as int),
        decreases m.len_spec() - i,
    {
        let x = *m.rvs_value_at(i);
        let v = if x.direct {
            crate::result_flow::rvs_result_place_value(state, m.rvs_key_at(i))
        } else {
            0u8
        };
        acc = acc | v;
        i = i + 1;
    }
    acc
}

// ------------------------------------------------------------ calls

fn rvs_is_black_box(u: &str) -> (r: bool)
    ensures
        r == spec_is_black_box(u@),
{
    rvs_chars_eq(rvs_chars_of(u).as_slice(), rvs_chars_of("core::hint::black_box").as_slice())
}

fn rvs_is_future_poll(u: &str) -> (r: bool)
    ensures
        r == spec_is_future_poll(u@),
{
    let chars = rvs_chars_of(u);
    rvs_chars_eq(chars.as_slice(), rvs_chars_of("core::future::future::Future::poll").as_slice())
        || rvs_ends_with(chars.as_slice(), rvs_chars_of("poll@core::future::future::Future").as_slice())
}

/// The escaped places of a state.
pub open spec fn spec_escaped_set(s: ResultFlowState) -> Set<PlaceView> {
    Set::new(|t: PlaceView| s.escaped_results.has(t))
}

/// After a call, the destination local, when assigned whole, takes what
/// its type allows (when tracked), holds the references the result holds,
/// and loses its discriminant and predicate; an assignment to a projection
/// changes nothing here.
pub open spec fn spec_dest_reset(
    a: ResultFlowState,
    b: ResultFlowState,
    s1: ResultFlowState,
    f: CallFacts,
    args: Seq<MirOperand>,
    dest: MirPlace,
    locals: Seq<TypeFacts>,
) -> bool {
    let dl: PlaceView = (dest.local, Seq::empty());
    &&& b.wf()
    &&& if dest.projection@.len() == 0 {
        &&& forall|k: PlaceView| #[trigger] b.values.get(k) == if k == dl && a.values.has(dl) {
            Some(spec_unknown_value(locals[dest.local as int]))
        } else {
            a.values.get(k)
        }
        &&& forall|l: PlaceView, t: PlaceView| #[trigger] spec_inner_get(b.references, l, t) == if l == dl {
            spec_stored_reference(s1, f, args, t)
        } else {
            spec_inner_get(a.references, l, t)
        }
        &&& forall|l: PlaceView| #[trigger] b.references.has(l) == if l == dl {
            exists|t: PlaceView| #[trigger] spec_stored_reference(s1, f, args, t) is Some
        } else {
            a.references.has(l)
        }
        &&& forall|l: PlaceView| #[trigger] b.discriminants.get(l) == if l == dl { None } else { a.discriminants.get(l) }
        &&& forall|l: PlaceView| #[trigger] b.predicates.get(l) == if l == dl { None } else { a.predicates.get(l) }
        &&& b.projected_values == a.projected_values
        &&& b.escaped_results == a.escaped_results
        &&& b.coroutine_saved_values == a.coroutine_saved_values
    } else {
        b == a
    }
}

/// The local `l` takes `value` when `cond` holds; nothing else changes.
pub open spec fn spec_value_set(a: ResultFlowState, b: ResultFlowState, l: u32, cond: bool, value: u8) -> bool {
    &&& b.wf()
    &&& forall|k: PlaceView| #[trigger] b.values.get(k) == if cond && k == (l, Seq::<(Seq<char>, bool, bool)>::empty()) {
        Some(value)
    } else {
        a.values.get(k)
    }
    &&& b.projected_values == a.projected_values
    &&& b.references == a.references
    &&& b.discriminants == a.discriminants
    &&& b.predicates == a.predicates
    &&& b.escaped_results == a.escaped_results
    &&& b.coroutine_saved_values == a.coroutine_saved_values
}

/// `t` is the only place the arguments reach directly.
pub open spec fn spec_sole_direct_place(s: ResultFlowState, args: Seq<MirOperand>, t: PlaceView) -> bool {
    &&& spec_operands_reference(s, args, t) is Some
    &&& spec_operands_reference(s, args, t)->0.direct
    &&& forall|u: PlaceView| u != t ==> !(#[trigger] spec_operands_reference(s, args, u) is Some && spec_operands_reference(s, args, u)->0.direct)
}

/// After an `is_err` or `is_ok` call whose arguments reach one place
/// directly, the destination local holds the test of that place.
pub open spec fn spec_predicate_recorded(
    a: ResultFlowState,
    b: ResultFlowState,
    s1: ResultFlowState,
    f: CallFacts,
    args: Seq<MirOperand>,
    dest: MirPlace,
) -> bool {
    let dl: PlaceView = (dest.local, Seq::empty());
    let test = spec_error_test(spec_call_user_path(f));
    &&& b.wf()
    &&& b.values == a.values
    &&& b.projected_values == a.projected_values
    &&& b.references == a.references
    &&& b.discriminants == a.discriminants
    &&& b.escaped_results == a.escaped_results
    &&& b.coroutine_saved_values == a.coroutine_saved_values
    &&& if dest.projection@.len() == 0 && test is Some && exists|t: PlaceView| #[trigger] spec_sole_direct_place(s1, args, t) {
        &&& forall|l: PlaceView| l != dl ==> #[trigger] b.predicates.get(l) == a.predicates.get(l)
        &&& b.predicates.get(dl) is Some
        &&& spec_predicate_view(b.predicates.get(dl)->0) == (choose|t: PlaceView| #[trigger] spec_sole_direct_place(s1, args, t), test->0)
    } else {
        b.predicates == a.predicates
    }
}

/// Before the result is handled: the escaped places are forgotten, then
/// the places the call may change (and escape) through its arguments.
pub open spec fn spec_call_front(
    s0: ResultFlowState,
    s1: ResultFlowState,
    s2: ResultFlowState,
    f: CallFacts,
    args: Seq<MirOperand>,
    locals: Seq<TypeFacts>,
) -> bool {
    &&& spec_forgotten(s0, s1, spec_escaped_set(s0), Set::empty(), locals)
    &&& spec_forgotten(s1, s2, spec_call_hit(s1, f, args), spec_call_escaped(s1, f, args), locals)
}

/// A variant-keeping callee's result takes the variants of the places its
/// arguments reach directly (united over the places `m` lists, once each),
/// when there are any and the destination local is tracked.
pub open spec fn spec_preserved_set(
    s1: ResultFlowState,
    m: ResultReferenceMap,
    a: ResultFlowState,
    b: ResultFlowState,
    f: CallFacts,
    args: Seq<MirOperand>,
    dest: MirPlace,
) -> bool {
    let v = spec_direct_or(s1, m, m.len_spec() as int);
    &&& m.wf()
    &&& forall|t: PlaceView| #[trigger] m.get(t) == spec_operands_reference(s1, args, t)
    &&& spec_value_set(a, b, dest.local, spec_call_preserves_variant(f) && v != 0 && a.values.has((dest.local, Seq::empty())), v)
}

/// `Try::from_output` gives `Ok` to a tracked destination local.
pub open spec fn spec_from_output_set(a: ResultFlowState, b: ResultFlowState, f: CallFacts, dest: MirPlace) -> bool {
    spec_value_set(a, b, dest.local, match spec_call_user_path(f) {
        Some(u) => spec_is_result_from_output(u),
        None => false,
    } && a.values.has((dest.local, Seq::empty())), RVS_RESULT_OK)
}

/// `Try::branch` into a whole local passes its argument's variants on.
pub open spec fn spec_branch_set(a: ResultFlowState, b: ResultFlowState, f: CallFacts, args: Seq<MirOperand>, dest: MirPlace, locals: Seq<TypeFacts>) -> bool {
    spec_value_set(a, b, dest.local, match spec_call_user_path(f) {
        Some(u) => spec_is_result_branch(u),
        None => false,
    } && dest.projection@.len() == 0 && args.len() > 0, spec_operand_value(a, args[0], locals))
}

/// `black_box` passes its argument's variants on to a tracked
/// destination local.
pub open spec fn spec_identity_set(a: ResultFlowState, b: ResultFlowState, f: CallFacts, args: Seq<MirOperand>, dest: MirPlace, locals: Seq<TypeFacts>) -> bool {
    spec_value_set(a, b, dest.local, match spec_call_user_path(f) {
        Some(u) => spec_is_black_box(u),
        None => false,
    } && a.values.has((dest.local, Seq::empty())) && args.len() > 0, spec_operand_value(a, args[0], locals))
}

/// A callee of this crate that never returns an error gives `Ok` to a
/// tracked destination local.
pub open spec fn spec_summary_set(a: ResultFlowState, b: ResultFlowState, f: CallFacts, dest: MirPlace) -> bool {
    spec_value_set(a, b, dest.local, f.callee_summary == Some(false) && a.values.has((dest.local, Seq::empty())), RVS_RESULT_OK)
}

/// Polling a coroutine of this crate into a `Poll` local, when the callee
/// is not known to return an error: pending, or ready with `Ok` (or any
/// variant, when the coroutine may return an error).
pub open spec fn spec_poll_set(a: ResultFlowState, b: ResultFlowState, f: CallFacts, dest: MirPlace, locals: Seq<TypeFacts>) -> bool {
    spec_value_set(a, b, dest.local, locals[dest.local as int].is_poll && f.callee_summary != Some(true) && match spec_call_user_path(f) {
        Some(u) => spec_is_future_poll(u),
        None => false,
    } && f.coroutine_summary is Some, if f.coroutine_summary == Some(true) { 14u8 } else { 10u8 })
}

/// A call, in its steps.
pub open spec fn spec_call_step(
    s0: ResultFlowState,
    s10: ResultFlowState,
    f: CallFacts,
    args: Seq<MirOperand>,
    dest: MirPlace,
    locals: Seq<TypeFacts>,
) -> bool {
    exists|s1: ResultFlowState, s2: ResultFlowState, s3: ResultFlowState, m: ResultReferenceMap, s4: ResultFlowState,
        s5: ResultFlowState, s6: ResultFlowState, s7: ResultFlowState, s8: ResultFlowState, s9: ResultFlowState|
        #![trigger spec_call_front(s0, s1, s2, f, args, locals), spec_dest_reset(s2, s3, s1, f, args, dest, locals),
            spec_preserved_set(s1, m, s3, s4, f, args, dest), spec_from_output_set(s4, s5, f, dest),
            spec_branch_set(s5, s6, f, args, dest, locals), spec_identity_set(s6, s7, f, args, dest, locals),
            spec_predicate_recorded(s7, s8, s1, f, args, dest), spec_summary_set(s8, s9, f, dest)]
        spec_call_front(s0, s1, s2, f, args, locals) && spec_dest_reset(s2, s3, s1, f, args, dest, locals)
            && spec_preserved_set(s1, m, s3, s4, f, args, dest) && spec_from_output_set(s4, s5, f, dest)
            && spec_branch_set(s5, s6, f, args, dest, locals) && spec_identity_set(s6, s7, f, args, dest, locals)
            && spec_predicate_recorded(s7, s8, s1, f, args, dest) && spec_summary_set(s8, s9, f, dest)
            && spec_poll_set(s9, s10, f, dest, locals)
}

/// Every place a call can name belongs to the body.
pub open spec fn spec_call_in(s: ResultFlowState, args: Seq<MirOperand>, dest: MirPlace, locals: Seq<TypeFacts>) -> bool {
    &&& spec_keys_in(s, locals.len())
    &&& dest.local < locals.len()
    &&& forall|i: int| 0 <= i < args.len() ==> spec_operand_in(#[trigger] args[i], locals)
}

/// Sets the destination local's value when `cond` holds.
#[allow(non_snake_case)]
fn rvs_set_value_if_M(state: &mut ResultFlowState, l: u32, cond: bool, value: u8)
    requires
        old(state).wf(),
    ensures
        spec_value_set(*old(state), *final(state), l, cond, value),
{
    if cond {
        state.values.rvs_insert_M(l, value);
    }
}

/// Whether the callee's summary leaves every argument alone.
fn rvs_effects_preserve_arguments(f: &CallFacts, args: &Vec<MirOperand>) -> (r: bool)
    ensures
        r == spec_effects_preserve(*f, args@),
{
    match &f.local_effects {
        Some(e) => {
            let mut i: usize = 0;
            while i < e.len()
                invariant
                    f.local_effects == Some(*e),
                    i <= e@.len(),
                    forall|j: int| 0 <= j < i ==> #[trigger] spec_preserves_argument(e@[j], spec_needs_drop(*f, args@, j)),
                decreases e@.len() - i,
            {
                let needs_drop = i < args.len() && i < f.argument_needs_drop.len() && f.argument_needs_drop[i];
                assert(needs_drop == spec_needs_drop(*f, args@, i as int));
                if !e[i].rvs_preserves_argument(needs_drop) {
                    assert(!spec_preserves_argument(e@[i as int], spec_needs_drop(*f, args@, i as int)));
                    assert(f.local_effects->0 == *e);
                    assert(f.local_effects->0@[i as int] == e@[i as int]);
                    assert(!spec_effects_preserve(*f, args@));
                    return false;
                }
                i = i + 1;
            }
            true
        },
        None => false,
    }
}

proof fn lemma_forgotten_keeps_keys(a: ResultFlowState, b: ResultFlowState, hit: Set<PlaceView>, locals: Seq<TypeFacts>)
    requires
        spec_forgotten(a, b, hit, Set::empty(), locals),
        spec_keys_in(a, locals.len()),
    ensures
        spec_keys_in(b, locals.len()),
        forall|p: PlaceView| #[trigger] b.projected_values.has(p) == a.projected_values.has(p),
{
    assert forall|p: PlaceView| #[trigger] b.projected_values.has(p) == a.projected_values.has(p) by {
        assert(b.projected_values.get(p) is Some == a.projected_values.get(p) is Some);
    }
    assert forall|p: PlaceView| #[trigger] b.escaped_results.has(p) implies p.0 < locals.len() by {
        assert(b.escaped_results.get(p) == a.escaped_results.get(p));
    }
}

/// Applies a call.
#[allow(non_snake_case)]
#[verifier::rlimit(100)]
pub fn rvs_apply_call_M(state: &mut ResultFlowState, f: &CallFacts, args: &Vec<MirOperand>, dest: &MirPlace, locals: &Vec<TypeFacts>)
    requires
        old(state).wf(),
        spec_call_in(*old(state), args@, *dest, locals@),
    ensures
        final(state).wf(),
        spec_call_step(*old(state), *final(state), *f, args@, *dest, locals@),
{
    let ghost s0 = *state;
    let ghost dl: PlaceView = (dest.local, Seq::empty());
    let mut escaped_targets: Vec<(ResultPlaceKey, bool)> = Vec::new();
    let escaped = &state.escaped_results;
    let mut k: usize = 0;
    while k < escaped.rvs_len()
        invariant
            escaped == &state.escaped_results,
            k <= escaped.len_spec(),
            escaped_targets@.len() == k,
            forall|j: int| 0 <= j < k ==> #[trigger] escaped_targets@[j].0.spec_key() == escaped.key(j) && !escaped_targets@[j].1,
        decreases escaped.len_spec() - k,
    {
        escaped_targets.push((escaped.rvs_key_at(k).rvs_dup(), false));
        k = k + 1;
    }
    proof {
        assert forall|t: PlaceView| #[trigger] spec_target_set(escaped_targets@).contains(t) == spec_escaped_set(s0).contains(t) by {
            if spec_target_set(escaped_targets@).contains(t) {
                let j = choose|j: int| 0 <= j < escaped_targets@.len() && #[trigger] escaped_targets@[j].0.spec_key() == t;
                assert(s0.escaped_results.key(j) == t);
            }
            if s0.escaped_results.has(t) {
                let j = choose|j: int| 0 <= j < s0.escaped_results.len_spec() && #[trigger] s0.escaped_results.key(j) == t;
                assert(escaped_targets@[j].0.spec_key() == t);
            }
        }
        assert(spec_target_set(escaped_targets@) =~= spec_escaped_set(s0));
        assert forall|t: PlaceView| !#[trigger] spec_escape_set(escaped_targets@).contains(t) by {
            if spec_escape_set(escaped_targets@).contains(t) {
                let j = choose|j: int| 0 <= j < escaped_targets@.len() && #[trigger] escaped_targets@[j].0.spec_key() == t && escaped_targets@[j].1;
            }
        }
        assert(spec_escape_set(escaped_targets@) =~= Set::<PlaceView>::empty());
        assert forall|j: int| 0 <= j < escaped_targets@.len() implies (#[trigger] escaped_targets@[j]).0.local < locals@.len() by {
            assert(s0.escaped_results.has(escaped_targets@[j].0.spec_key()));
        }
    }
    rvs_forget_targets_M(state, &escaped_targets, locals);
    let ghost s1 = *state;
    proof {
        lemma_forgotten_keeps_keys(s0, s1, spec_escaped_set(s0), locals@);
    }
    let maps = rvs_argument_maps(state, args);
    let merged = rvs_merge_reference_maps(&maps);
    proof {
        assert forall|t: PlaceView| #[trigger] merged.get(t) == spec_operands_reference(s1, args@, t) by {
            lemma_merged_operands(s1, maps@, args@, t);
        }
    }
    let user: Option<String> = match &f.def_path {
        Some(d) => Some(rvs_string_of(rvs_user_path_chars(rvs_chars_of(d.as_str()).as_slice()).as_slice())),
        None => None,
    };
    let ghost u = spec_call_user_path(*f);
    assert(match user {
        Some(x) => u == Some(x@),
        None => u is None,
    });
    let preserves_variant = match &f.def_path {
        Some(d) => rvs_call_preserves_result_variant(d.as_str()),
        None => false,
    };
    let path_preserves = match &user {
        Some(x) => rvs_is_black_box(x.as_str()) || preserves_variant || rvs_call_is_result_branch(x.as_str()),
        None => false,
    };
    let preserves_contents = rvs_effects_preserve_arguments(f, args) || path_preserves;
    assert(preserves_contents == spec_call_preserves_contents(*f, args@));
    let preserved = if preserves_variant {
        rvs_direct_or(state, &merged)
    } else {
        0u8
    };
    let stored = rvs_stored_references(state, f, args, &maps, &merged, preserves_variant);
    let targets = match &f.local_effects {
        Some(e) => rvs_effect_targets(state, f, args, &maps, e),
        None => {
            let mut t: Vec<(ResultPlaceKey, bool)> = Vec::new();
            if !preserves_variant && !preserves_contents {
                rvs_push_changing_targets(&mut t, &merged, true);
            }
            t
        },
    };
    proof {
        let hit = spec_call_hit(s1, *f, args@);
        let esc = spec_call_escaped(s1, *f, args@);
        assert forall|t: PlaceView| #[trigger] spec_target_set(targets@).contains(t) == hit.contains(t) by {
            if spec_target_set(targets@).contains(t) {
                let j = choose|j: int| 0 <= j < targets@.len() && #[trigger] targets@[j].0.spec_key() == t;
                assert(spec_names_from(targets@, 0, t));
            }
            if hit.contains(t) {
                assert(spec_names_from(targets@, 0, t));
                let j = choose|j: int| 0 <= j < targets@.len() && #[trigger] targets@[j].0.spec_key() == t;
            }
        }
        assert(spec_target_set(targets@) =~= hit);
        assert forall|t: PlaceView| #[trigger] spec_escape_set(targets@).contains(t) == esc.contains(t) by {
            if f.local_effects is Some {
                if spec_escape_set(targets@).contains(t) {
                    let j = choose|j: int| 0 <= j < targets@.len() && #[trigger] targets@[j].0.spec_key() == t && targets@[j].1;
                    assert(spec_escapes_from(targets@, 0, t));
                }
                if esc.contains(t) {
                    assert(spec_escapes_from(targets@, 0, t));
                    let j = choose|j: int| 0 <= j < targets@.len() && #[trigger] targets@[j].0.spec_key() == t && targets@[j].1;
                }
            } else {
                if spec_escape_set(targets@).contains(t) {
                    let j = choose|j: int| 0 <= j < targets@.len() && #[trigger] targets@[j].0.spec_key() == t && targets@[j].1;
                    assert(spec_target_set(targets@).contains(t));
                }
                if esc.contains(t) {
                    assert(spec_names_from(targets@, 0, t));
                    let j = choose|j: int| 0 <= j < targets@.len() && #[trigger] targets@[j].0.spec_key() == t;
                    assert(targets@[j].1);
                }
            }
        }
        assert(spec_escape_set(targets@) =~= esc);
        assert forall|j: int| 0 <= j < targets@.len() implies (#[trigger] targets@[j]).0.local < locals@.len() by {
            let t = targets@[j].0.spec_key();
            assert(spec_names_from(targets@, 0, t));
            assert(hit.contains(t));
            match f.local_effects {
                Some(e) => {
                    let i = choose|i: int| 0 <= i < args@.len() as int && #[trigger] spec_effect_touches(spec_effect_at(e@, i),
                        spec_operand_reference(s1, args@[i], t), spec_needs_drop(*f, args@, i));
                    assert(spec_operand_in(args@[i], locals@));
                    match spec_operand_place(args@[i]) {
                        Some(p) => lemma_place_reference_in(s1, p, t, locals@.len()),
                        None => {},
                    }
                },
                None => {
                    lemma_operands_reference_in(s1, args@, locals@, t);
                },
            }
        }
    }
    rvs_forget_targets_M(state, &targets, locals);
    let ghost s2 = *state;
    if dest.projection.len() == 0 {
        if state.values.rvs_contains(&dest.local) {
            let unknown = rvs_unknown_result_value(locals[dest.local as usize]);
            state.values.rvs_insert_M(dest.local, unknown);
        }
        let ghost refs_before = state.references;
        state.references.rvs_remove_M(&dest.local);
        let ghost refs_removed = state.references;
        proof {
            assert forall|i: int| 0 <= i < refs_removed.len_spec() implies (#[trigger] refs_removed.val(i)).wf() by {
                let key = refs_removed.key(i);
                refs_removed.lemma_index_unique(i);
                let j = refs_before.index_of(key);
                refs_before.lemma_index_unique(j);
            }
        }
        let nonempty = stored.rvs_len() > 0;
        proof {
            if nonempty {
                stored.lemma_index_unique(0);
                assert(spec_stored_reference(s1, *f, args@, stored.key(0)) is Some);
            }
            if exists|t: PlaceView| #[trigger] spec_stored_reference(s1, *f, args@, t) is Some {
                let t = choose|t: PlaceView| #[trigger] spec_stored_reference(s1, *f, args@, t) is Some;
                assert(stored.get(t) is Some);
            }
        }
        if nonempty {
            state.references.rvs_insert_M(dest.local, stored);
            proof {
                assert forall|i: int| 0 <= i < state.references.len_spec() implies (#[trigger] state.references.val(i)).wf() by {
                    let key = state.references.key(i);
                    state.references.lemma_index_unique(i);
                    if key != dl {
                        let j = refs_removed.index_of(key);
                        refs_removed.lemma_index_unique(j);
                    }
                }
            }
        }
        state.discriminants.rvs_remove_M(&dest.local);
        state.predicates.rvs_remove_M(&dest.local);
    }
    let ghost s3 = *state;
    let tracked_local = state.values.rvs_contains(&dest.local);
    rvs_set_value_if_M(state, dest.local, preserves_variant && preserved != 0 && tracked_local, preserved);
    let ghost s4 = *state;
    let from_output = match &user {
        Some(x) => rvs_call_is_result_from_output(x.as_str()),
        None => false,
    };
    let tracked_local = state.values.rvs_contains(&dest.local);
    rvs_set_value_if_M(state, dest.local, from_output && tracked_local, RVS_RESULT_OK);
    let ghost s5 = *state;
    let branch = match &user {
        Some(x) => rvs_call_is_result_branch(x.as_str()),
        None => false,
    };
    if branch && dest.projection.len() == 0 && args.len() > 0 {
        let v = rvs_operand_result_value(state, &args[0], locals);
        state.values.rvs_insert_M(dest.local, v);
    }
    let ghost s6 = *state;
    let identity = match &user {
        Some(x) => rvs_is_black_box(x.as_str()),
        None => false,
    };
    if identity && state.values.rvs_contains(&dest.local) && args.len() > 0 {
        let v = rvs_operand_result_value(state, &args[0], locals);
        state.values.rvs_insert_M(dest.local, v);
    }
    let ghost s7 = *state;
    if dest.projection.len() == 0 {
        let path: Option<&str> = match &user {
            Some(x) => Some(x.as_str()),
            None => None,
        };
        match rvs_result_predicate_source(path, &merged) {
            Some((is_error_test, source)) => {
                let ghost src = source.spec_key();
                state.predicates.rvs_insert_M(dest.local, (source, is_error_test));
                proof {
                    let i = choose|i: int| spec_sole_direct(merged, i) && #[trigger] merged.key(i) == src;
                    merged.lemma_index_unique(i);
                    assert(spec_sole_direct_place(s1, args@, src)) by {
                        assert forall|w: PlaceView| w != src implies !(#[trigger] spec_operands_reference(s1, args@, w) is Some
                            && spec_operands_reference(s1, args@, w)->0.direct) by {
                            assert(merged.get(w) == spec_operands_reference(s1, args@, w));
                            if merged.has(w) {
                                let j = merged.index_of(w);
                                merged.lemma_index_unique(j);
                                assert(merged.key(j) == w);
                                assert(j != i);
                                assert(!merged.val(j).direct);
                            }
                        }
                    }
                    let chosen = choose|t: PlaceView| #[trigger] spec_sole_direct_place(s1, args@, t);
                    if chosen != src {
                        assert(spec_sole_direct_place(s1, args@, chosen));
                    }
                }
            },
            None => {
                proof {
                    if exists|t: PlaceView| #[trigger] spec_sole_direct_place(s1, args@, t) {
                        let t = choose|t: PlaceView| #[trigger] spec_sole_direct_place(s1, args@, t);
                        let i = merged.index_of(t);
                        assert(merged.get(t) is Some);
                        merged.lemma_index_unique(i);
                        assert forall|j: int| 0 <= j < merged.len_spec() && j != i implies !(#[trigger] merged.val(j)).direct by {
                            merged.lemma_index_unique(j);
                            assert(merged.key(j) != merged.key(i));
                        }
                        assert(spec_sole_direct(merged, i));
                    }
                }
            },
        }
    }
    let ghost s8 = *state;
    let never_errs = match f.callee_summary {
        Some(b) => !b,
        None => false,
    };
    let tracked_local = state.values.rvs_contains(&dest.local);
    rvs_set_value_if_M(state, dest.local, never_errs && tracked_local, RVS_RESULT_OK);
    let ghost s9 = *state;
    let not_erring = match f.callee_summary {
        Some(b) => !b,
        None => true,
    };
    let polls = match &user {
        Some(x) => rvs_is_future_poll(x.as_str()),
        None => false,
    };
    let completed = match f.coroutine_summary {
        Some(b) => if b { 14u8 } else { 10u8 },
        None => 10u8,
    };
    rvs_set_value_if_M(state, dest.local, locals[dest.local as usize].is_poll && not_erring && polls && f.coroutine_summary.is_some(), completed);
    proof {
        assert(spec_call_front(s0, s1, s2, *f, args@, locals@));
        assert(spec_dest_reset(s2, s3, s1, *f, args@, *dest, locals@));
        assert(spec_preserved_set(s1, merged, s3, s4, *f, args@, *dest));
        assert(spec_from_output_set(s4, s5, *f, *dest));
        assert(spec_branch_set(s5, s6, *f, args@, *dest, locals@));
        assert(spec_identity_set(s6, s7, *f, args@, *dest, locals@));
        assert(spec_predicate_recorded(s7, s8, s1, *f, args@, *dest));
        assert(spec_summary_set(s8, s9, *f, *dest));
        assert(spec_poll_set(s9, *state, *f, *dest, locals@));
    }
}

// ------------------------------------------------------------ terminators

/// Every place a terminator can name belongs to the body.
pub open spec fn spec_terminator_in(s: ResultFlowState, term: MirTerminator, locals: Seq<TypeFacts>) -> bool {
    match term {
        MirTerminator::InlineAsm => spec_asm_in(s, locals),
        MirTerminator::Drop(p) => spec_drop_in(s, p, locals),
        MirTerminator::Call(f, args, dest) => spec_call_in(s, args@, dest, locals),
        MirTerminator::Other => true,
    }
}

/// What a terminator does to the flow state: inline assembly makes every
/// place reachable through a mutable reference, and every escaped place,
/// escape and be forgotten; a drop forgets what it reaches mutably; a call
/// as `spec_call_step` says; anything else changes nothing.
pub open spec fn spec_terminator_step(a: ResultFlowState, b: ResultFlowState, term: MirTerminator, locals: Seq<TypeFacts>) -> bool {
    match term {
        MirTerminator::InlineAsm => spec_forgotten(a, b, spec_asm_targets(a), spec_asm_targets(a), locals),
        MirTerminator::Drop(p) => spec_forgotten(a, b, spec_drop_targets(a, p), Set::empty(), locals),
        MirTerminator::Call(f, args, dest) => spec_call_step(a, b, f, args@, dest, locals),
        MirTerminator::Other => b == a,
    }
}

/// Applies the effects of a terminator to the flow state.
#[allow(non_snake_case)]
pub fn rvs_apply_terminator_effects_M(state: &mut ResultFlowState, terminator: &MirTerminator, locals: &Vec<TypeFacts>)
    requires
        old(state).wf(),
        spec_terminator_in(*old(state), *terminator, locals@),
    ensures
        final(state).wf(),
        spec_terminator_step(*old(state), *final(state), *terminator, locals@),
{
    match terminator {
        MirTerminator::InlineAsm => rvs_apply_inline_asm_M(state, locals),
        MirTerminator::Drop(p) => rvs_apply_drop_M(state, p, locals),
        MirTerminator::Call(f, args, dest) => rvs_apply_call_M(state, f, args, dest, locals),
        MirTerminator::Other => {},
    }
}

} // verus!
