//! Which inferred capability sets are only lower bounds: functions whose
//! analysis was incomplete, callers of callees nothing is known of, and
//! everything that reaches them through calls or trait dispatch, up to the
//! functions whose records are complete.
use vstd::prelude::*;

use crate::artifacts::FnGraph;
use crate::capability::{CapabilityCompleteness, CapabilitySet};
use crate::collections::{PathSet, rvs_set_contains, rvs_set_insert_M, rvs_set_new, spec_list_has, spec_lists_have};
use crate::graph_index::{ImplIndex, InferenceDependents};
use crate::inference::{lemma_lists_have_in_flat, spec_flat_values, spec_resolver_over};
use crate::names::spec_declared_caps;
use crate::symbols::spec_fn_name;
use crate::pathmap::PathMap;
use crate::resolver::{CalleeCapsResolver, CalleeCapsSource, CapabilityKnowledgeView, rvs_declared_caps_from_def_path};
use crate::symbols::DefPath;

verus! {

/// A path whose record is complete: incompleteness stops there.
pub open spec fn spec_taint_barrier<'a>(knowledge: CapabilityKnowledgeView<'a>, k: Seq<char>) -> bool {
    knowledge.spec_info(k) matches Some(info) && info.completeness == CapabilityCompleteness::Complete
}

/// A path that is no port method and whose record is not complete.
pub open spec fn spec_incomplete_record<'a>(knowledge: CapabilityKnowledgeView<'a>, ports: PathSet, k: Seq<char>) -> bool {
    &&& !ports.has_key(k)
    &&& knowledge.spec_info(k) matches Some(info) && info.completeness != CapabilityCompleteness::Complete
}

/// Whether the record of `path` is complete.
pub fn rvs_is_inference_taint_barrier<'a>(path: &DefPath, knowledge: CapabilityKnowledgeView<'a>) -> (r: bool)
    requires
        knowledge.wf(),
    ensures
        r == spec_taint_barrier(knowledge, path@),
{
    match knowledge.rvs_lookup_info(path) {
        Some(info) => info.completeness == CapabilityCompleteness::Complete,
        None => false,
    }
}

/// Whether `path` is no port method and has a record that is not complete.
pub fn rvs_has_incomplete_capsmap_knowledge<'a>(path: &DefPath, knowledge: CapabilityKnowledgeView<'a>, ports: &PathSet) -> (r: bool)
    requires
        knowledge.wf(),
        ports.wf(),
    ensures
        r == spec_incomplete_record(knowledge, *ports, path@),
{
    !rvs_set_contains(ports, path) && match knowledge.rvs_lookup_info(path) {
        Some(info) => info.completeness != CapabilityCompleteness::Complete,
        None => false,
    }
}

/// How many of the given keys a set lacks.
pub open spec fn spec_missing(keys: Seq<Seq<char>>, set: PathSet) -> nat
    decreases keys.len(),
{
    if keys.len() == 0 {
        0
    } else {
        spec_missing(keys.drop_last(), set) + if set.has_key(keys.last()) { 0nat } else { 1nat }
    }
}

proof fn lemma_missing_mono(keys: Seq<Seq<char>>, s1: PathSet, s2: PathSet)
    requires
        forall|k: Seq<char>| #[trigger] s1.has_key(k) ==> s2.has_key(k),
    ensures
        spec_missing(keys, s2) <= spec_missing(keys, s1),
    decreases keys.len(),
{
    if keys.len() > 0 {
        lemma_missing_mono(keys.drop_last(), s1, s2);
    }
}

proof fn lemma_missing_strict(keys: Seq<Seq<char>>, s1: PathSet, s2: PathSet, x: Seq<char>)
    requires
        forall|k: Seq<char>| #[trigger] s1.has_key(k) ==> s2.has_key(k),
        keys.contains(x),
        !s1.has_key(x),
        s2.has_key(x),
    ensures
        spec_missing(keys, s2) < spec_missing(keys, s1),
    decreases keys.len(),
{
    if keys.last() == x {
        lemma_missing_mono(keys.drop_last(), s1, s2);
    } else {
        let i = choose|i: int| 0 <= i < keys.len() && keys[i] == x;
        assert(keys.drop_last()[i] == x);
        lemma_missing_strict(keys.drop_last(), s1, s2, x);
    }
}

/// Whether the entry of `p` holds the port marker.
pub open spec fn spec_has_port_marker(inferred: PathMap<CapabilitySet>, p: Seq<char>) -> bool {
    inferred.spec_get(p) matches Some(c) && c.p
}

/// Incompleteness of `p` has reached everything it reaches: its callers
/// (unless `p` carries the port marker, which hides what is behind it) and
/// the trait methods it implements, barriers excepted.
pub open spec fn spec_spread<'a>(
    knowledge: CapabilityKnowledgeView<'a>,
    inferred: PathMap<CapabilitySet>,
    dependents: InferenceDependents,
    p: Seq<char>,
    set: PathSet,
) -> bool {
    &&& !spec_has_port_marker(inferred, p) ==> forall|c: Seq<char>| #[trigger] spec_lists_have(dependents.callers, p, c)
        && !spec_taint_barrier(knowledge, c) ==> set.has_key(c)
    &&& forall|t: Seq<char>| #[trigger] spec_lists_have(dependents.trait_methods, p, t) && !spec_taint_barrier(knowledge, t)
        ==> set.has_key(t)
}

proof fn lemma_spread_grows<'a>(
    knowledge: CapabilityKnowledgeView<'a>,
    inferred: PathMap<CapabilitySet>,
    dependents: InferenceDependents,
    p: Seq<char>,
    s1: PathSet,
    s2: PathSet,
)
    requires
        spec_spread(knowledge, inferred, dependents, p, s1),
        forall|k: Seq<char>| #[trigger] s1.has_key(k) ==> s2.has_key(k),
    ensures
        spec_spread(knowledge, inferred, dependents, p, s2),
{
    if !spec_has_port_marker(inferred, p) {
        assert forall|c: Seq<char>| #[trigger] spec_lists_have(dependents.callers, p, c) && !spec_taint_barrier(knowledge, c)
            implies s2.has_key(c) by {
            assert(s1.has_key(c));
        }
    }
    assert forall|t: Seq<char>| #[trigger] spec_lists_have(dependents.trait_methods, p, t) && !spec_taint_barrier(knowledge, t)
        implies s2.has_key(t) by {
        assert(s1.has_key(t));
    }
}

/// Adds every non-barrier path of `list` to `set`, queueing the new ones.
#[allow(non_snake_case)]
fn rvs_spread_to_M<'a>(
    knowledge: CapabilityKnowledgeView<'a>,
    list: &Vec<DefPath>,
    set: &mut PathSet,
    pending: &mut Vec<DefPath>,
)
    requires
        knowledge.wf(),
        old(set).wf(),
    ensures
        final(set).wf(),
        forall|k: Seq<char>| #[trigger] final(set).has_key(k) == (old(set).has_key(k)
            || (spec_list_has(list@, k) && !spec_taint_barrier(knowledge, k))),
        final(pending)@.len() >= old(pending)@.len(),
        forall|i: int| 0 <= i < old(pending)@.len() ==> #[trigger] final(pending)@[i] == old(pending)@[i],
        forall|k: Seq<char>| final(set).has_key(k) && !old(set).has_key(k)
            ==> exists|i: int| old(pending)@.len() <= i < final(pending)@.len() && #[trigger] final(pending)@[i]@ == k,
        forall|i: int| old(pending)@.len() <= i < final(pending)@.len() ==> spec_list_has(list@, #[trigger] final(pending)@[i]@),
        forall|i: int| old(pending)@.len() <= i < final(pending)@.len()
            ==> !old(set).has_key(#[trigger] final(pending)@[i]@) && final(set).has_key(final(pending)@[i]@),
{
    let ghost start = *set;
    let ghost start_pending = pending@;
    let mut q: usize = 0;
    while q < list.len()
        invariant
            knowledge.wf(),
            set.wf(),
            q <= list@.len(),
            forall|k: Seq<char>| #[trigger] set.has_key(k) == (start.has_key(k)
                || ((exists|j: int| 0 <= j < q && #[trigger] list@[j]@ == k) && !spec_taint_barrier(knowledge, k))),
            pending@.len() >= start_pending.len(),
            forall|i: int| 0 <= i < start_pending.len() ==> #[trigger] pending@[i] == start_pending[i],
            forall|k: Seq<char>| set.has_key(k) && !start.has_key(k)
                ==> exists|i: int| start_pending.len() <= i < pending@.len() && #[trigger] pending@[i]@ == k,
            forall|i: int| start_pending.len() <= i < pending@.len() ==> spec_list_has(list@, #[trigger] pending@[i]@),
            forall|i: int| start_pending.len() <= i < pending@.len()
                ==> !start.has_key(#[trigger] pending@[i]@) && set.has_key(pending@[i]@),
        decreases list@.len() - q,
    {
        let item = &list[q];
        let ghost before_pending = pending@;
        let ghost before = *set;
        if !rvs_is_inference_taint_barrier(item, knowledge) {
            if rvs_set_insert_M(set, item) {
                pending.push(item.rvs_copy());
            }
        }
        proof {
            assert forall|k: Seq<char>| #[trigger] set.has_key(k) == (start.has_key(k)
                || ((exists|j: int| 0 <= j < q + 1 && #[trigger] list@[j]@ == k) && !spec_taint_barrier(knowledge, k))) by {
                if k == item@ {
                    assert(list@[q as int]@ == k);
                } else if exists|j: int| 0 <= j < q + 1 && #[trigger] list@[j]@ == k {
                    let j = choose|j: int| 0 <= j < q + 1 && #[trigger] list@[j]@ == k;
                    assert(j < q);
                }
            }
            assert forall|i: int| 0 <= i < start_pending.len() implies #[trigger] pending@[i] == start_pending[i] by {
                assert(pending@[i] == before_pending[i]);
            }
            assert forall|k: Seq<char>| set.has_key(k) && !start.has_key(k)
                implies exists|i: int| start_pending.len() <= i < pending@.len() && #[trigger] pending@[i]@ == k by {
                if before.has_key(k) {
                    let i = choose|i: int| start_pending.len() <= i < before_pending.len() && #[trigger] before_pending[i]@ == k;
                    assert(pending@[i] == before_pending[i]);
                } else {
                    assert(pending@[pending@.len() - 1]@ == k);
                }
            }
            assert forall|i: int| start_pending.len() <= i < pending@.len()
                implies !start.has_key(#[trigger] pending@[i]@) && set.has_key(pending@[i]@) by {
                if i < before_pending.len() {
                    assert(pending@[i] == before_pending[i]);
                }
            }
            assert forall|i: int| start_pending.len() <= i < pending@.len() implies spec_list_has(list@, #[trigger] pending@[i]@) by {
                if i < before_pending.len() {
                    assert(pending@[i] == before_pending[i]);
                } else {
                    assert(list@[q as int]@ == pending@[i]@);
                }
            }
        }
        q = q + 1;
    }
    proof {
        assert forall|k: Seq<char>| #[trigger] set.has_key(k) == (start.has_key(k)
            || (spec_list_has(list@, k) && !spec_taint_barrier(knowledge, k))) by {
            if spec_list_has(list@, k) {
                let j = choose|j: int| 0 <= j < list@.len() && #[trigger] list@[j]@ == k;
                assert(list@[j]@ == k);
            }
        }
    }
}

/// The resolver, as a contract is checked, knows nothing of `k`.
pub open spec fn spec_unresolved<'a>(
    graph: &'a FnGraph,
    knowledge: CapabilityKnowledgeView<'a>,
    inferred: &'a PathMap<CapabilitySet>,
    impl_index: &'a ImplIndex,
    ports: &'a PathSet,
    k: Seq<char>,
) -> bool {
    spec_resolver_over(graph, knowledge, inferred, impl_index, ports).spec_resolved(k, seq![CalleeCapsSource::PortMethod,
        CalleeCapsSource::ExactCapsMap, CalleeCapsSource::DeclaredCaps, CalleeCapsSource::Inferred, CalleeCapsSource::ImplMajority], None)
}

/// Where incompleteness starts: a graph function (no barrier) whose
/// analysis was incomplete, whose record is not complete, or that has no
/// body, port marker, record or declared capabilities and that the
/// resolver knows nothing of; or a caller (no barrier) of a callee the
/// resolver knows nothing of or whose record is not complete.
pub open spec fn spec_incomplete_origin<'a>(
    graph: &'a FnGraph,
    knowledge: CapabilityKnowledgeView<'a>,
    inferred: &'a PathMap<CapabilitySet>,
    impl_index: &'a ImplIndex,
    ports: &'a PathSet,
    dependents: InferenceDependents,
    k: Seq<char>,
) -> bool {
    ||| {
        &&& graph.nodes.has_key(k)
        &&& !spec_taint_barrier(knowledge, k)
        &&& (!graph.nodes.spec_get(k)->0.complete || spec_incomplete_record(knowledge, *ports, k) || {
            &&& !graph.nodes.spec_get(k)->0.has_body
            &&& !ports.has_key(k)
            &&& knowledge.spec_info(k) is None
            &&& spec_declared_caps(spec_fn_name(k)) is None
            &&& spec_unresolved(graph, knowledge, inferred, impl_index, ports, k)
        })
    }
    ||| !spec_taint_barrier(knowledge, k) && exists|callee: Seq<char>| #[trigger] spec_lists_have(dependents.callers, callee, k)
        && (spec_unresolved(graph, knowledge, inferred, impl_index, ports, callee) || spec_incomplete_record(knowledge, *ports, callee))
}

/// Incompleteness passes from `p` to `k`: `k` (no barrier) calls `p` and
/// `p` does not carry the port marker, or `k` is a trait method `p`
/// implements.
pub open spec fn spec_incomplete_step<'a>(
    knowledge: CapabilityKnowledgeView<'a>,
    inferred: PathMap<CapabilitySet>,
    dependents: InferenceDependents,
    p: Seq<char>,
    k: Seq<char>,
) -> bool {
    &&& !spec_taint_barrier(knowledge, k)
    &&& ((!(inferred.spec_get(p) matches Some(c) && c.p) && spec_lists_have(dependents.callers, p, k))
        || spec_lists_have(dependents.trait_methods, p, k))
}

/// The `i`-th path of `order` is an origin, or incompleteness passes to it
/// from an earlier path.
pub open spec fn spec_incomplete_supported<'a>(
    graph: &'a FnGraph,
    knowledge: CapabilityKnowledgeView<'a>,
    inferred: &'a PathMap<CapabilitySet>,
    impl_index: &'a ImplIndex,
    ports: &'a PathSet,
    dependents: InferenceDependents,
    order: Seq<DefPath>,
    i: int,
) -> bool {
    ||| spec_incomplete_origin(graph, knowledge, inferred, impl_index, ports, dependents, order[i]@)
    ||| exists|j: int| 0 <= j < i && #[trigger] spec_incomplete_step(knowledge, *inferred, dependents, order[j]@, order[i]@)
}

/// `order` lists every path of `set` (and only such paths), each an origin
/// or reached from an earlier one: every path of the set is owed to an
/// origin along the steps incompleteness passes by.
pub open spec fn spec_incomplete_order<'a>(
    graph: &'a FnGraph,
    knowledge: CapabilityKnowledgeView<'a>,
    inferred: &'a PathMap<CapabilitySet>,
    impl_index: &'a ImplIndex,
    ports: &'a PathSet,
    dependents: InferenceDependents,
    order: Seq<DefPath>,
    set: PathSet,
) -> bool {
    &&& forall|k: Seq<char>| #[trigger] set.has_key(k) ==> exists|i: int| 0 <= i < order.len() && #[trigger] order[i]@ == k
    &&& forall|i: int| 0 <= i < order.len() ==> set.has_key(#[trigger] order[i]@)
        && spec_incomplete_supported(graph, knowledge, inferred, impl_index, ports, dependents, order, i)
}

proof fn lemma_supported_prefix<'a>(
    graph: &'a FnGraph,
    knowledge: CapabilityKnowledgeView<'a>,
    inferred: &'a PathMap<CapabilitySet>,
    impl_index: &'a ImplIndex,
    ports: &'a PathSet,
    dependents: InferenceDependents,
    before: Seq<DefPath>,
    after: Seq<DefPath>,
    set_before: PathSet,
    set_after: PathSet,
)
    requires
        before.len() <= after.len(),
        forall|j: int| 0 <= j < before.len() ==> #[trigger] after[j] == before[j],
        forall|k: Seq<char>| #[trigger] set_before.has_key(k) ==> set_after.has_key(k),
        forall|q: int| 0 <= q < before.len() ==> set_before.has_key(#[trigger] before[q]@)
            && spec_incomplete_supported(graph, knowledge, inferred, impl_index, ports, dependents, before, q),
    ensures
        forall|q: int| 0 <= q < before.len() ==> set_after.has_key(#[trigger] after[q]@)
            && spec_incomplete_supported(graph, knowledge, inferred, impl_index, ports, dependents, after, q),
{
    assert forall|q: int| 0 <= q < before.len() implies set_after.has_key(#[trigger] after[q]@)
        && spec_incomplete_supported(graph, knowledge, inferred, impl_index, ports, dependents, after, q) by {
        assert(after[q] == before[q]);
        assert(set_before.has_key(before[q]@));
        if !spec_incomplete_origin(graph, knowledge, inferred, impl_index, ports, dependents, before[q]@) {
            assert(spec_incomplete_supported(graph, knowledge, inferred, impl_index, ports, dependents, before, q));
            let j = choose|j: int| 0 <= j < q && #[trigger] spec_incomplete_step(knowledge, *inferred, dependents, before[j]@, before[q]@);
            assert(after[j] == before[j]);
            assert(spec_incomplete_step(knowledge, *inferred, dependents, after[j]@, after[q]@));
        }
    }
}

/// The paths whose inferred capabilities are only a lower bound.
///
/// It starts from the graph functions that are no barrier and whose analysis
/// was incomplete, whose record is not complete, or that have no body, port
/// marker, record or declared capabilities and that the resolver knows
/// nothing of; and from the callers (barriers excepted) of every callee the
/// resolver knows nothing of or whose record is not complete.  From there it
/// reaches the callers of each path that does not carry the port marker and
/// the trait methods each path implements, never a barrier.
pub fn rvs_incomplete_inference_paths_with_knowledge<'a>(
    graph: &FnGraph,
    knowledge: CapabilityKnowledgeView<'a>,
    inferred: &PathMap<CapabilitySet>,
    impl_index: &ImplIndex,
    ports: &PathSet,
    dependents: &InferenceDependents,
) -> (r: PathSet)
    requires
        graph.wf(),
        knowledge.wf(),
        inferred.wf(),
        impl_index.wf(),
        ports.wf(),
        dependents.wf(),
    ensures
        r.wf(),
        forall|k: Seq<char>| #[trigger] r.has_key(k) ==> !spec_taint_barrier(knowledge, k),
        forall|k: Seq<char>| graph.nodes.has_key(k) && !spec_taint_barrier(knowledge, k)
            && (!graph.nodes.spec_get(k)->0.complete || spec_incomplete_record(knowledge, *ports, k)) ==> #[trigger] r.has_key(k),
        forall|k: Seq<char>| #[trigger] r.has_key(k) ==> spec_spread(knowledge, *inferred, *dependents, k, r),
        exists|order: Seq<DefPath>| #[trigger] spec_incomplete_order(graph, knowledge, inferred, impl_index, ports, *dependents, order, r),
{
    let resolver = CalleeCapsResolver::rvs_new_with_knowledge(graph, knowledge, inferred, impl_index, ports);
    assert(resolver == spec_resolver_over(graph, knowledge, inferred, impl_index, ports));
    let mut incomplete: PathSet = rvs_set_new();
    let mut pending: Vec<DefPath> = Vec::new();
    let mut i: usize = 0;
    while i < graph.rvs_len()
        invariant
            graph.wf(),
            knowledge.wf(),
            ports.wf(),
            resolver.wf(),
            incomplete.wf(),
            i <= graph.nodes.len_spec(),
            forall|k: Seq<char>| #[trigger] incomplete.has_key(k) ==> !spec_taint_barrier(knowledge, k),
            forall|j: int| 0 <= j < i && !spec_taint_barrier(knowledge, graph.nodes.key(j))
                && (!graph.nodes.val(j).complete || spec_incomplete_record(knowledge, *ports, graph.nodes.key(j)))
                ==> incomplete.has_key(#[trigger] graph.nodes.key(j)),
            forall|k: Seq<char>| #[trigger] incomplete.has_key(k) ==> exists|p: int| 0 <= p < pending@.len() && #[trigger] pending@[p]@ == k,
            forall|q: int| 0 <= q < pending@.len() ==> incomplete.has_key(#[trigger] pending@[q]@)
                && spec_incomplete_supported(graph, knowledge, inferred, impl_index, ports, *dependents, pending@, q),
            resolver == spec_resolver_over(graph, knowledge, inferred, impl_index, ports),
        decreases graph.nodes.len_spec() - i,
    {
        let path = graph.rvs_path_at(i);
        let node = graph.rvs_node_at(i);
        let seed = if rvs_is_inference_taint_barrier(path, knowledge) {
            false
        } else if !node.complete || rvs_has_incomplete_capsmap_knowledge(path, knowledge, ports) {
            true
        } else {
            let has_declared_caps = rvs_declared_caps_from_def_path(path).is_some();
            let has_exact = knowledge.rvs_lookup_info(path).is_some();
            !node.has_body && !rvs_set_contains(ports, path) && !has_exact && !has_declared_caps
                && resolver.rvs_for_contract_check(path).is_none()
        };
        let ghost before = incomplete;
        let ghost before_pending = pending@;
        proof {
            graph.nodes.lemma_index_unique(i as int);
            if seed {
                assert(spec_incomplete_origin(graph, knowledge, inferred, impl_index, ports, *dependents, path@));
            }
        }
        if seed {
            if rvs_set_insert_M(&mut incomplete, path) {
                pending.push(path.rvs_copy());
            }
        }
        proof {
            lemma_supported_prefix(graph, knowledge, inferred, impl_index, ports, *dependents, before_pending, pending@, before, incomplete);
            if pending@.len() > before_pending.len() {
                let n = before_pending.len() as int;
                assert(pending@[n]@ == path@);
                assert(spec_incomplete_supported(graph, knowledge, inferred, impl_index, ports, *dependents, pending@, n));
            }
            assert forall|k: Seq<char>| #[trigger] incomplete.has_key(k) implies exists|p: int| 0 <= p < pending@.len() && #[trigger] pending@[p]@ == k by {
                if before.has_key(k) {
                    let p = choose|p: int| 0 <= p < before_pending.len() && #[trigger] before_pending[p]@ == k;
                    assert(pending@[p] == before_pending[p]);
                } else {
                    assert(pending@[pending@.len() - 1]@ == k);
                }
            }
        }
        i = i + 1;
    }
    proof {
        assert forall|k: Seq<char>| graph.nodes.has_key(k) && !spec_taint_barrier(knowledge, k)
            && (!graph.nodes.spec_get(k)->0.complete || spec_incomplete_record(knowledge, *ports, k)) implies #[trigger] incomplete.has_key(k) by {
            let j = graph.nodes.index_of(k);
            graph.nodes.lemma_index_unique(j);
            assert(graph.nodes.key(j) == k);
        }
    }
    let ghost seeded = incomplete;
    let mut c: usize = 0;
    while c < dependents.callers.rvs_len()
        invariant
            knowledge.wf(),
            ports.wf(),
            resolver.wf(),
            dependents.wf(),
            incomplete.wf(),
            c <= dependents.callers.len_spec(),
            forall|k: Seq<char>| seeded.has_key(k) ==> #[trigger] incomplete.has_key(k),
            forall|k: Seq<char>| #[trigger] incomplete.has_key(k) ==> !spec_taint_barrier(knowledge, k),
            forall|k: Seq<char>| #[trigger] incomplete.has_key(k) ==> exists|p: int| 0 <= p < pending@.len() && #[trigger] pending@[p]@ == k,
            graph.wf(),
            impl_index.wf(),
            inferred.wf(),
            forall|q: int| 0 <= q < pending@.len() ==> incomplete.has_key(#[trigger] pending@[q]@)
                && spec_incomplete_supported(graph, knowledge, inferred, impl_index, ports, *dependents, pending@, q),
            resolver == spec_resolver_over(graph, knowledge, inferred, impl_index, ports),
        decreases dependents.callers.len_spec() - c,
    {
        let callee = dependents.callers.rvs_key_at(c);
        let callers = dependents.callers.rvs_value_at(c);
        let known = resolver.rvs_for_contract_check(callee).is_some()
            && !rvs_has_incomplete_capsmap_knowledge(callee, knowledge, ports);
        if !known {
            let ghost before = incomplete;
            let ghost before_pending = pending@;
            rvs_spread_to_M(knowledge, callers, &mut incomplete, &mut pending);
            proof {
                dependents.callers.lemma_index_unique(c as int);
                assert(spec_unresolved(graph, knowledge, inferred, impl_index, ports, callee@)
                    || spec_incomplete_record(knowledge, *ports, callee@));
                lemma_supported_prefix(graph, knowledge, inferred, impl_index, ports, *dependents, before_pending, pending@, before, incomplete);
                assert forall|q: int| before_pending.len() <= q < pending@.len() implies incomplete.has_key(#[trigger] pending@[q]@)
                    && spec_incomplete_supported(graph, knowledge, inferred, impl_index, ports, *dependents, pending@, q) by {
                    let k = pending@[q]@;
                    assert(spec_list_has(callers@, k));
                    assert(!before.has_key(k) && incomplete.has_key(k));
                    assert(spec_lists_have(dependents.callers, callee@, k));
                    assert(spec_incomplete_origin(graph, knowledge, inferred, impl_index, ports, *dependents, k));
                }
                assert forall|k: Seq<char>| #[trigger] incomplete.has_key(k) implies exists|p: int| 0 <= p < pending@.len() && #[trigger] pending@[p]@ == k by {
                    if before.has_key(k) {
                        let p = choose|p: int| 0 <= p < before_pending.len() && #[trigger] before_pending[p]@ == k;
                        assert(pending@[p] == before_pending[p]);
                    }
                }
            }
        }
        c = c + 1;
    }
    let ghost universe = spec_flat_values(dependents.callers.entries@) + spec_flat_values(dependents.trait_methods.entries@);
    let mut head: usize = 0;
    proof {
        assert forall|k: Seq<char>| #[trigger] incomplete.has_key(k)
            implies (exists|p: int| head <= p < pending@.len() && #[trigger] pending@[p]@ == k)
                || spec_spread(knowledge, *inferred, *dependents, k, incomplete) by {
        }
    }
    while head < pending.len()
        invariant
            knowledge.wf(),
            inferred.wf(),
            dependents.wf(),
            incomplete.wf(),
            head <= pending@.len(),
            universe == spec_flat_values(dependents.callers.entries@) + spec_flat_values(dependents.trait_methods.entries@),
            forall|k: Seq<char>| seeded.has_key(k) ==> #[trigger] incomplete.has_key(k),
            forall|k: Seq<char>| #[trigger] incomplete.has_key(k) ==> !spec_taint_barrier(knowledge, k),
            forall|k: Seq<char>| #[trigger] incomplete.has_key(k)
                ==> (exists|p: int| head <= p < pending@.len() && #[trigger] pending@[p]@ == k)
                    || spec_spread(knowledge, *inferred, *dependents, k, incomplete),
            forall|k: Seq<char>| #[trigger] incomplete.has_key(k) ==> exists|p: int| 0 <= p < pending@.len() && #[trigger] pending@[p]@ == k,
            graph.wf(),
            impl_index.wf(),
            ports.wf(),
            resolver == spec_resolver_over(graph, knowledge, inferred, impl_index, ports),
            forall|q: int| 0 <= q < pending@.len() ==> incomplete.has_key(#[trigger] pending@[q]@)
                && spec_incomplete_supported(graph, knowledge, inferred, impl_index, ports, *dependents, pending@, q),
        decreases spec_missing(universe, incomplete), pending@.len() - head,
    {
        let path = pending[head].rvs_copy();
        let ghost head_at = head as int;
        let ghost pending_at = pending@;
        let ghost start = incomplete;
        head = head + 1;
        let marked = match inferred.rvs_get(path.rvs_chars()) {
            Some(caps) => caps.p,
            None => false,
        };
        assert(marked == (inferred.spec_get(path@) matches Some(c) && c.p));
        assert(path@ == pending_at[head_at]@);
        proof {
            lemma_supported_prefix(graph, knowledge, inferred, impl_index, ports, *dependents, pending_at, pending@, start, incomplete);
        }
        if !marked {
            match dependents.callers.rvs_get(path.rvs_chars()) {
                Some(callers) => {
                    let ghost before = incomplete;
                    let ghost before_pending = pending@;
                    rvs_spread_to_M(knowledge, callers, &mut incomplete, &mut pending);
                    proof {
                        lemma_supported_prefix(graph, knowledge, inferred, impl_index, ports, *dependents, before_pending, pending@, before, incomplete);
                        assert forall|q: int| before_pending.len() <= q < pending@.len() implies incomplete.has_key(#[trigger] pending@[q]@)
                            && spec_incomplete_supported(graph, knowledge, inferred, impl_index, ports, *dependents, pending@, q) by {
                            let k = pending@[q]@;
                            assert(spec_list_has(callers@, k));
                            assert(!before.has_key(k) && incomplete.has_key(k));
                            assert(spec_lists_have(dependents.callers, path@, k));
                            assert(pending@[head_at] == pending_at[head_at]);
                            assert(spec_incomplete_step(knowledge, *inferred, *dependents, pending@[head_at]@, k));
                        }
                        assert forall|k: Seq<char>| #[trigger] incomplete.has_key(k) implies exists|p: int| 0 <= p < pending@.len() && #[trigger] pending@[p]@ == k by {
                            if before.has_key(k) {
                                let p = choose|p: int| 0 <= p < before_pending.len() && #[trigger] before_pending[p]@ == k;
                                assert(pending@[p] == before_pending[p]);
                            }
                        }
                        assert forall|k: Seq<char>| incomplete.has_key(k) && !before.has_key(k) implies universe.contains(k) by {
                            assert(spec_lists_have(dependents.callers, path@, k));
                            lemma_lists_have_in_flat(dependents.callers, path@, k);
                            let fl = spec_flat_values(dependents.callers.entries@);
                            let j = choose|j: int| 0 <= j < fl.len() && fl[j] == k;
                            assert(universe[j] == k);
                        }
                    }
                },
                None => {},
            }
        }
        let ghost mid = incomplete;
        let ghost pending_mid = pending@;
        match dependents.trait_methods.rvs_get(path.rvs_chars()) {
            Some(methods) => {
                rvs_spread_to_M(knowledge, methods, &mut incomplete, &mut pending);
                proof {
                    lemma_supported_prefix(graph, knowledge, inferred, impl_index, ports, *dependents, pending_mid, pending@, mid, incomplete);
                    assert forall|q: int| pending_mid.len() <= q < pending@.len() implies incomplete.has_key(#[trigger] pending@[q]@)
                        && spec_incomplete_supported(graph, knowledge, inferred, impl_index, ports, *dependents, pending@, q) by {
                        let k = pending@[q]@;
                        assert(spec_list_has(methods@, k));
                        assert(!mid.has_key(k) && incomplete.has_key(k));
                        assert(spec_lists_have(dependents.trait_methods, path@, k));
                        assert(pending@[head_at] == pending_at[head_at]);
                        assert(spec_incomplete_step(knowledge, *inferred, *dependents, pending@[head_at]@, k));
                    }
                    assert forall|k: Seq<char>| #[trigger] incomplete.has_key(k) implies exists|p: int| 0 <= p < pending@.len() && #[trigger] pending@[p]@ == k by {
                        if mid.has_key(k) {
                            let p = choose|p: int| 0 <= p < pending_mid.len() && #[trigger] pending_mid[p]@ == k;
                            assert(pending@[p] == pending_mid[p]);
                        }
                    }
                    assert forall|k: Seq<char>| incomplete.has_key(k) && !mid.has_key(k) implies universe.contains(k) by {
                        assert(spec_lists_have(dependents.trait_methods, path@, k));
                        lemma_lists_have_in_flat(dependents.trait_methods, path@, k);
                        let fl = spec_flat_values(dependents.trait_methods.entries@);
                        let j = choose|j: int| 0 <= j < fl.len() && fl[j] == k;
                        let l = spec_flat_values(dependents.callers.entries@).len();
                        assert(universe[l + j] == k);
                    }
                }
            },
            None => {},
        }
        proof {
            assert forall|k: Seq<char>| #[trigger] start.has_key(k) implies incomplete.has_key(k) by {
                assert(mid.has_key(k));
            }
            if exists|k: Seq<char>| incomplete.has_key(k) && !start.has_key(k) {
                let k = choose|k: Seq<char>| incomplete.has_key(k) && !start.has_key(k);
                assert(universe.contains(k));
                lemma_missing_strict(universe, start, incomplete, k);
            } else {
                lemma_missing_mono(universe, start, incomplete);
                assert(spec_missing(universe, incomplete) == spec_missing(universe, start)) by {
                    lemma_missing_mono(universe, incomplete, start);
                }
                if pending@.len() > pending_at.len() {
                    let x = pending@[pending_at.len() as int]@;
                    if pending_mid.len() > pending_at.len() {
                        assert(pending@[pending_at.len() as int] == pending_mid[pending_at.len() as int]);
                        assert(!start.has_key(x) && mid.has_key(x));
                    } else {
                        assert(!mid.has_key(x) && incomplete.has_key(x));
                    }
                }
            }
            assert(spec_spread(knowledge, *inferred, *dependents, path@, incomplete));
            assert forall|k: Seq<char>| #[trigger] incomplete.has_key(k)
                implies (exists|p: int| head <= p < pending@.len() && #[trigger] pending@[p]@ == k)
                    || spec_spread(knowledge, *inferred, *dependents, k, incomplete) by {
                if k != path@ {
                    if start.has_key(k) {
                        if exists|p: int| head_at <= p < pending_at.len() && #[trigger] pending_at[p]@ == k {
                            let p = choose|p: int| head_at <= p < pending_at.len() && #[trigger] pending_at[p]@ == k;
                            assert(p != head_at);
                            assert(pending@[p] == pending_at[p]);
                        } else {
                            lemma_spread_grows(knowledge, *inferred, *dependents, k, start, incomplete);
                        }
                    } else if mid.has_key(k) {
                        let p = choose|p: int| pending_at.len() <= p < pending_mid.len() && #[trigger] pending_mid[p]@ == k;
                        assert(pending@[p] == pending_mid[p]);
                    } else {
                        let p = choose|p: int| pending_mid.len() <= p < pending@.len() && #[trigger] pending@[p]@ == k;
                        assert(head <= p);
                    }
                }
            }
        }
    }
    assert(spec_incomplete_order(graph, knowledge, inferred, impl_index, ports, *dependents, pending@, incomplete));
    incomplete
}

} // verus!
