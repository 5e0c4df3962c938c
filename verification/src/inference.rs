//! Capability inference over the call graph: initial capabilities from each
//! function's own facts and recorded knowledge, then propagation along call
//! edges to a fixed point.
use vstd::prelude::*;

use crate::artifacts::{FnGraph, FnNode};
use crate::capability::{
    lemma_edge_of_propagated, lemma_edge_within_propagated, lemma_union_within, Capability, spec_single,
    CapabilityFacts, CapabilitySet, rvs_call_edge_caps, rvs_port_operation_signature_caps,
    rvs_signature_caps, spec_call_edge_caps, spec_empty, spec_includes, spec_port_operation_caps,
    spec_propagated, spec_signature_caps, spec_union,
};
use crate::collections::{PathSet, rvs_set_contains, spec_list_has, spec_lists_have};
use crate::graph_index::{ImplIndex, InferenceDependents, spec_calls};
use crate::growth::{
    lemma_union_again, spec_entry_or_empty,
    lemma_grows_refl, lemma_grows_trans, lemma_total_room_mono, lemma_total_room_strict, rvs_extend_entry_M,
    spec_grows, spec_room, spec_total_room,
};
use crate::names::spec_declared_caps;
use crate::pathmap::PathMap;
use crate::resolver::{
    CalleeCapsSource,
    CalleeCapsResolver, CapabilityKnowledgeView, rvs_declared_caps_from_def_path, spec_no_voters,
    rvs_resolve_impl_majority_caps_with_ports,
};
use crate::propagation::{
    lemma_flow_empty, lemma_flow_facts, lemma_flow_finish, lemma_flow_keep, lemma_flow_grow, lemma_flow_pop, lemma_flow_start, lemma_flow_publish, lemma_flow_release, spec_flow_law,
    spec_handed_value, spec_plain_source, spec_settled_entry, spec_tracked, spec_waiting,
};
use crate::symbols::{DefPath, spec_fn_name, spec_impl_split, spec_trait_method_key};

verus! {

/// A function's capabilities before propagation.  A port method has its
/// signature capabilities with the port marker (a port implementation) or
/// only its async/unsafe markers and the port marker (the port operation
/// itself); any other function has its recorded capabilities, or else its
/// signature capabilities.
pub open spec fn spec_initial_caps<'a>(
    ports: PathSet,
    knowledge: CapabilityKnowledgeView<'a>,
    k: Seq<char>,
    node: FnNode,
) -> CapabilitySet {
    if ports.has_key(k) {
        let facts = CapabilityFacts { is_port_method: true, ..node.facts };
        if node.is_trait_impl || spec_impl_split(k) is Some {
            spec_signature_caps(facts)
        } else {
            spec_port_operation_caps(facts)
        }
    } else {
        match knowledge.spec_caps(k) {
            Some(c) => c,
            None => spec_signature_caps(node.facts),
        }
    }
}

/// Capabilities from a function's facts alone.
pub fn rvs_infer_signature_caps(behavior: &FnNode) -> (r: CapabilitySet)
    ensures
        r == spec_signature_caps(behavior.facts),
{
    rvs_signature_caps(behavior.facts)
}

/// The propagated part of a capability set.
pub fn rvs_propagated_caps(caps: &CapabilitySet) -> (r: CapabilitySet)
    ensures
        r == spec_propagated(*caps),
{
    caps.rvs_propagated()
}

/// The initial capabilities of every graph node.
pub fn rvs_initial_caps_with_knowledge<'a>(
    graph: &FnGraph,
    knowledge: CapabilityKnowledgeView<'a>,
    ports: &PathSet,
) -> (r: PathMap<CapabilitySet>)
    requires
        graph.wf(),
        knowledge.wf(),
        ports.wf(),
    ensures
        r.wf(),
        forall|k: Seq<char>| #[trigger] r.has_key(k) == graph.nodes.has_key(k),
        forall|k: Seq<char>| graph.nodes.has_key(k) ==> #[trigger] r.spec_get(k)
            == Some(spec_initial_caps(*ports, knowledge, k, graph.nodes.spec_get(k)->0)),
{
    let mut r: PathMap<CapabilitySet> = PathMap::rvs_new();
    let mut i: usize = 0;
    while i < graph.rvs_len()
        invariant
            r.wf(),
            graph.wf(),
            knowledge.wf(),
            ports.wf(),
            i <= graph.nodes.len_spec(),
            forall|k: Seq<char>| #[trigger] r.has_key(k) == exists|j: int| 0 <= j < i && #[trigger] graph.nodes.key(j) == k,
            forall|k: Seq<char>| r.has_key(k) ==> graph.nodes.has_key(k) && #[trigger] r.spec_get(k)
                == Some(spec_initial_caps(*ports, knowledge, k, graph.nodes.spec_get(k)->0)),
        decreases graph.nodes.len_spec() - i,
    {
        let func = graph.rvs_path_at(i);
        let node = graph.rvs_node_at(i);
        let caps = if rvs_set_contains(ports, func) {
            let mut facts = node.facts;
            facts.is_port_method = true;
            if node.is_trait_impl || func.rvs_is_trait_impl_path() {
                rvs_signature_caps(facts)
            } else {
                rvs_port_operation_signature_caps(facts)
            }
        } else {
            match knowledge.rvs_lookup_caps(func) {
                Some(c) => c,
                None => rvs_signature_caps(node.facts),
            }
        };
        proof {
            graph.nodes.lemma_index_unique(i as int);
        }
        r.rvs_insert_M(func.rvs_copy(), caps);
        proof {
            assert forall|k: Seq<char>| #[trigger] r.has_key(k) == exists|j: int| 0 <= j < i + 1 && #[trigger] graph.nodes.key(j) == k by {
                if k == graph.nodes.key(i as int) {
                    assert(graph.nodes.key(i as int) == k);
                } else if exists|j: int| 0 <= j < i + 1 && #[trigger] graph.nodes.key(j) == k {
                    let j = choose|j: int| 0 <= j < i + 1 && #[trigger] graph.nodes.key(j) == k;
                    assert(j < i);
                }
            }
        }
        i = i + 1;
    }
    proof {
        assert forall|k: Seq<char>| #[trigger] r.has_key(k) == graph.nodes.has_key(k) by {
            if graph.nodes.has_key(k) {
                let j = choose|j: int| 0 <= j < graph.nodes.len_spec() && #[trigger] graph.nodes.key(j) == k;
                assert(0 <= j < i);
            }
        }
    }
    r
}

/// A callee that is no graph node but has recorded or declared capabilities.
pub open spec fn spec_seeded_callee<'a>(graph: FnGraph, knowledge: CapabilityKnowledgeView<'a>, k: Seq<char>) -> bool {
    &&& exists|f: Seq<char>| #[trigger] spec_calls(graph, f, k)
    &&& (knowledge.spec_caps(k) is Some || spec_declared_caps(spec_fn_name(k)) is Some)
}

/// The capabilities a callee starts with: recorded, else declared.
pub open spec fn spec_callee_seed<'a>(knowledge: CapabilityKnowledgeView<'a>, k: Seq<char>) -> CapabilitySet {
    match knowledge.spec_caps(k) {
        Some(c) => c,
        None => spec_declared_caps(spec_fn_name(k))->0,
    }
}

/// Adds an entry for every callee that has none yet and whose capabilities
/// are recorded or declared.
#[allow(non_snake_case)]
pub fn rvs_seed_callees_M<'a>(
    graph: &FnGraph,
    knowledge: CapabilityKnowledgeView<'a>,
    inferred: &mut PathMap<CapabilitySet>,
)
    requires
        graph.wf(),
        knowledge.wf(),
        old(inferred).wf(),
    ensures
        final(inferred).wf(),
        forall|k: Seq<char>| #[trigger] final(inferred).has_key(k)
            == (old(inferred).has_key(k) || spec_seeded_callee(*graph, knowledge, k)),
        forall|k: Seq<char>| old(inferred).has_key(k) ==> #[trigger] final(inferred).spec_get(k) == old(inferred).spec_get(k),
        forall|k: Seq<char>| !old(inferred).has_key(k) && spec_seeded_callee(*graph, knowledge, k)
            ==> #[trigger] final(inferred).spec_get(k) == Some(spec_callee_seed(knowledge, k)),
{
    let ghost start = *inferred;
    let mut i: usize = 0;
    while i < graph.rvs_len()
        invariant
            graph.wf(),
            knowledge.wf(),
            inferred.wf(),
            i <= graph.nodes.len_spec(),
            forall|k: Seq<char>| #[trigger] inferred.has_key(k) == (start.has_key(k) || ((exists|j: int, q: int|
                0 <= j < i && 0 <= q < graph.nodes.val(j).calls@.len() && #[trigger] graph.nodes.val(j).calls@[q].def_path@ == k)
                && (knowledge.spec_caps(k) is Some || spec_declared_caps(spec_fn_name(k)) is Some))),
            forall|k: Seq<char>| start.has_key(k) ==> #[trigger] inferred.spec_get(k) == start.spec_get(k),
            forall|k: Seq<char>| !start.has_key(k) && inferred.has_key(k) ==> #[trigger] inferred.spec_get(k) == Some(spec_callee_seed(knowledge, k)),
        decreases graph.nodes.len_spec() - i,
    {
        let node = graph.rvs_node_at(i);
        let ghost at_i = *inferred;
        let mut q: usize = 0;
        while q < node.calls.len()
            invariant
                graph.wf(),
                knowledge.wf(),
                inferred.wf(),
                i < graph.nodes.len_spec(),
                *node == graph.nodes.val(i as int),
                q <= node.calls@.len(),
                forall|k: Seq<char>| #[trigger] inferred.has_key(k) == (at_i.has_key(k) || ((exists|p: int|
                    0 <= p < q && #[trigger] node.calls@[p].def_path@ == k)
                    && (knowledge.spec_caps(k) is Some || spec_declared_caps(spec_fn_name(k)) is Some))),
                forall|k: Seq<char>| at_i.has_key(k) ==> #[trigger] inferred.spec_get(k) == at_i.spec_get(k),
                forall|k: Seq<char>| !start.has_key(k) && inferred.has_key(k) ==> #[trigger] inferred.spec_get(k) == Some(spec_callee_seed(knowledge, k)),
                forall|k: Seq<char>| start.has_key(k) ==> #[trigger] at_i.has_key(k),
                forall|k: Seq<char>| start.has_key(k) ==> #[trigger] at_i.spec_get(k) == start.spec_get(k),
            decreases node.calls@.len() - q,
        {
            let callee = &node.calls[q].def_path;
            let ghost before = *inferred;
            if !inferred.rvs_contains(callee.rvs_chars()) {
                match knowledge.rvs_lookup_caps(callee) {
                    Some(c) => {
                        inferred.rvs_insert_M(callee.rvs_copy(), c);
                    },
                    None => match rvs_declared_caps_from_def_path(callee) {
                        Some(d) => {
                            inferred.rvs_insert_M(callee.rvs_copy(), d);
                        },
                        None => {},
                    },
                }
            }
            proof {
                assert forall|k: Seq<char>| #[trigger] inferred.has_key(k) == (at_i.has_key(k) || ((exists|p: int|
                    0 <= p < q + 1 && #[trigger] node.calls@[p].def_path@ == k)
                    && (knowledge.spec_caps(k) is Some || spec_declared_caps(spec_fn_name(k)) is Some))) by {
                    if k == callee@ {
                        assert(node.calls@[q as int].def_path@ == k);
                    } else if exists|p: int| 0 <= p < q + 1 && #[trigger] node.calls@[p].def_path@ == k {
                        let p = choose|p: int| 0 <= p < q + 1 && #[trigger] node.calls@[p].def_path@ == k;
                        assert(p < q);
                    }
                }
            }
            q = q + 1;
        }
        proof {
            assert forall|k: Seq<char>| #[trigger] inferred.has_key(k) == (start.has_key(k) || ((exists|j: int, p: int|
                0 <= j < i + 1 && 0 <= p < graph.nodes.val(j).calls@.len() && #[trigger] graph.nodes.val(j).calls@[p].def_path@ == k)
                && (knowledge.spec_caps(k) is Some || spec_declared_caps(spec_fn_name(k)) is Some))) by {
                if exists|p: int| 0 <= p < q && #[trigger] node.calls@[p].def_path@ == k {
                    let p = choose|p: int| 0 <= p < q && #[trigger] node.calls@[p].def_path@ == k;
                    assert(graph.nodes.val(i as int).calls@[p].def_path@ == k);
                }
                if exists|j: int, p: int| 0 <= j < i + 1 && 0 <= p < graph.nodes.val(j).calls@.len() && #[trigger] graph.nodes.val(j).calls@[p].def_path@ == k {
                    let (j, p) = choose|j: int, p: int| 0 <= j < i + 1 && 0 <= p < graph.nodes.val(j).calls@.len() && #[trigger] graph.nodes.val(j).calls@[p].def_path@ == k;
                    if j == i {
                        assert(node.calls@[p].def_path@ == k);
                    }
                }
            }
        }
        i = i + 1;
    }
    proof {
        assert forall|k: Seq<char>| #[trigger] inferred.has_key(k)
            == (start.has_key(k) || spec_seeded_callee(*graph, knowledge, k)) by {
            let called = exists|j: int, p: int| 0 <= j < i && 0 <= p < graph.nodes.val(j).calls@.len() && #[trigger] graph.nodes.val(j).calls@[p].def_path@ == k;
            if called {
                let (j, p) = choose|j: int, p: int| 0 <= j < i && 0 <= p < graph.nodes.val(j).calls@.len() && #[trigger] graph.nodes.val(j).calls@[p].def_path@ == k;
                graph.nodes.lemma_index_unique(j);
                assert(spec_calls(*graph, graph.nodes.key(j), k));
            }
            if exists|f: Seq<char>| #[trigger] spec_calls(*graph, f, k) {
                let f = choose|f: Seq<char>| #[trigger] spec_calls(*graph, f, k);
                let j = graph.nodes.index_of(f);
                graph.nodes.lemma_index_unique(j);
                let p = choose|p: int| 0 <= p < graph.nodes.spec_get(f)->0.calls@.len()
                    && #[trigger] graph.nodes.spec_get(f)->0.calls@[p].def_path@ == k;
                assert(graph.nodes.val(j).calls@[p].def_path@ == k);
            }
        }
    }
}


/// The key of every entry, in order.
pub open spec fn spec_key_seq<V>(m: PathMap<V>) -> Seq<Seq<char>> {
    m.entries@.map_values(|e: (DefPath, V)| e.0@)
}

proof fn lemma_key_seq_contains<V>(m: PathMap<V>, k: Seq<char>)
    requires
        m.has_key(k),
    ensures
        spec_key_seq(m).contains(k),
{
    let i = choose|i: int| 0 <= i < m.len_spec() && #[trigger] m.key(i) == k;
    assert(spec_key_seq(m)[i] == k);
}

/// Every path in the lists of a list map, list by list.
pub open spec fn spec_flat_values(entries: Seq<(DefPath, Vec<DefPath>)>) -> Seq<Seq<char>>
    decreases entries.len(),
{
    if entries.len() == 0 {
        Seq::empty()
    } else {
        spec_flat_values(entries.drop_last()) + entries.last().1@.map_values(|p: DefPath| p@)
    }
}

pub proof fn lemma_flat_values_contains(entries: Seq<(DefPath, Vec<DefPath>)>, i: int, q: int)
    requires
        0 <= i < entries.len(),
        0 <= q < entries[i].1@.len(),
    ensures
        spec_flat_values(entries).contains(entries[i].1@[q]@),
    decreases entries.len(),
{
    let prev = spec_flat_values(entries.drop_last());
    let tail = entries.last().1@.map_values(|p: DefPath| p@);
    if i == entries.len() - 1 {
        assert(spec_flat_values(entries)[prev.len() + q] == entries[i].1@[q]@);
    } else {
        assert(entries.drop_last()[i] == entries[i]);
        lemma_flat_values_contains(entries.drop_last(), i, q);
        let j = choose|j: int| 0 <= j < prev.len() && prev[j] == entries[i].1@[q]@;
        assert(spec_flat_values(entries)[j] == prev[j]);
    }
}

pub proof fn lemma_lists_have_in_flat(m: PathMap<Vec<DefPath>>, k: Seq<char>, v: Seq<char>)
    requires
        m.wf(),
        spec_lists_have(m, k, v),
    ensures
        spec_flat_values(m.entries@).contains(v),
{
    let i = m.index_of(k);
    m.lemma_index_unique(i);
    let list = m.val(i);
    let q = choose|q: int| 0 <= q < list@.len() && #[trigger] list@[q]@ == v;
    lemma_flat_values_contains(m.entries@, i, q);
}

/// A port operation: a port method that is no trait impl method.
pub open spec fn spec_is_port_operation(graph: FnGraph, ports: PathSet, f: Seq<char>) -> bool {
    &&& ports.has_key(f)
    &&& graph.nodes.has_key(f)
    &&& !graph.nodes.spec_get(f)->0.is_trait_impl
    &&& spec_impl_split(f) is None
}

/// A caller whose capabilities propagation may raise: a graph node without
/// recorded capabilities that is no port operation.
pub open spec fn spec_open_caller<'a>(graph: FnGraph, knowledge: CapabilityKnowledgeView<'a>, ports: PathSet, f: Seq<char>) -> bool {
    &&& graph.nodes.has_key(f)
    &&& knowledge.spec_caps(f) is None
    &&& !spec_is_port_operation(graph, ports, f)
}

/// A callee with recorded capabilities that propagate, which is no port
/// method.
pub open spec fn spec_recorded_source<'a>(knowledge: CapabilityKnowledgeView<'a>, ports: PathSet, g: Seq<char>) -> bool {
    &&& knowledge.spec_caps(g) is Some
    &&& !ports.has_key(g)
    &&& spec_propagated(knowledge.spec_caps(g)->0) != spec_empty()
}

/// Every open caller of `g` holds what a call of `g` hands on.
pub open spec fn spec_handed_on<'a>(
    graph: FnGraph,
    knowledge: CapabilityKnowledgeView<'a>,
    ports: PathSet,
    g: Seq<char>,
    m: PathMap<CapabilitySet>,
) -> bool {
    forall|f: Seq<char>| #[trigger] spec_calls(graph, f, g) && spec_open_caller(graph, knowledge, ports, f)
        ==> m.has_key(f) && spec_includes(m.spec_get(f)->0, spec_call_edge_caps(knowledge.spec_caps(g)->0))
}

proof fn lemma_handed_on_grows<'a>(
    graph: FnGraph,
    knowledge: CapabilityKnowledgeView<'a>,
    ports: PathSet,
    g: Seq<char>,
    m1: PathMap<CapabilitySet>,
    m2: PathMap<CapabilitySet>,
)
    requires
        spec_handed_on(graph, knowledge, ports, g, m1),
        spec_grows(m1, m2),
    ensures
        spec_handed_on(graph, knowledge, ports, g, m2),
{
    assert forall|f: Seq<char>| #[trigger] spec_calls(graph, f, g) && spec_open_caller(graph, knowledge, ports, f)
        implies m2.has_key(f) && spec_includes(m2.spec_get(f)->0, spec_call_edge_caps(knowledge.spec_caps(g)->0)) by {
        assert(m1.has_key(f));
    }
}


/// Whether `k` is waiting in the work queue.
fn rvs_is_queued(queued: &PathMap<bool>, k: &DefPath) -> (r: bool)
    requires
        queued.wf(),
    ensures
        r == (queued.spec_get(k@) == Some(true)),
{
    match queued.rvs_get(k.rvs_chars()) {
        Some(b) => *b,
        None => false,
    }
}

/// `pending` keeps its items and appends only items satisfying `f`.
pub open spec fn spec_appended(old_pending: Seq<DefPath>, new_pending: Seq<DefPath>, f: spec_fn(Seq<char>) -> bool) -> bool {
    &&& new_pending.len() >= old_pending.len()
    &&& forall|i: int| 0 <= i < old_pending.len() ==> #[trigger] new_pending[i] == old_pending[i]
    &&& forall|i: int| old_pending.len() <= i < new_pending.len() ==> f(#[trigger] new_pending[i]@)
}

/// Hands the capabilities of a call edge to every open caller in `callers`,
/// queueing each caller whose capabilities grew and that is not queued yet.
#[allow(non_snake_case)]
fn rvs_push_callers_M<'a>(
    graph: &FnGraph,
    knowledge: CapabilityKnowledgeView<'a>,
    ports: &PathSet,
    callers: &Vec<DefPath>,
    call_edge: &CapabilitySet,
    inferred: &mut PathMap<CapabilitySet>,
    queued: &mut PathMap<bool>,
    pending: &mut Vec<DefPath>,
)
    requires
        graph.wf(),
        knowledge.wf(),
        ports.wf(),
        old(inferred).wf(),
        old(queued).wf(),
    ensures
        final(inferred).wf(),
        final(queued).wf(),
        spec_grows(*old(inferred), *final(inferred)),
        forall|k: Seq<char>| #[trigger] final(inferred).has_key(k) ==> old(inferred).has_key(k) || graph.nodes.has_key(k),
        forall|k: Seq<char>| knowledge.spec_caps(k) is Some ==> #[trigger] final(inferred).spec_get(k) == old(inferred).spec_get(k),
        spec_appended(old(pending)@, final(pending)@, |k: Seq<char>| graph.nodes.has_key(k)),
        forall|p: int| 0 <= p < callers@.len() && spec_open_caller(*graph, knowledge, *ports, #[trigger] callers@[p]@)
            ==> final(inferred).has_key(callers@[p]@) && spec_includes(final(inferred).spec_get(callers@[p]@)->0, *call_edge),
        forall|k: Seq<char>| #[trigger] final(inferred).spec_get(k) == old(inferred).spec_get(k)
            || (spec_list_has(callers@, k) && final(inferred).spec_get(k) == Some(spec_union(spec_entry_or_empty(*old(inferred), k), *call_edge))),
        forall|k: Seq<char>| #[trigger] final(queued).spec_get(k) == Some(true) ==> old(queued).spec_get(k) == Some(true)
            || exists|i: int| old(pending)@.len() <= i < final(pending)@.len() && #[trigger] final(pending)@[i]@ == k,
        forall|k: Seq<char>| old(inferred).has_key(k) && #[trigger] final(inferred).spec_get(k) != old(inferred).spec_get(k)
            ==> final(queued).spec_get(k) == Some(true),
{
    let ghost start = *inferred;
    let ghost start_queued = *queued;
    let ghost start_pending = pending@;
    let mut q: usize = 0;
    while q < callers.len()
        invariant
            graph.wf(),
            knowledge.wf(),
            ports.wf(),
            inferred.wf(),
            queued.wf(),
            q <= callers@.len(),
            spec_grows(start, *inferred),
            forall|k: Seq<char>| #[trigger] inferred.has_key(k) ==> start.has_key(k) || graph.nodes.has_key(k),
            forall|k: Seq<char>| knowledge.spec_caps(k) is Some ==> #[trigger] inferred.spec_get(k) == start.spec_get(k),
            spec_appended(start_pending, pending@, |k: Seq<char>| graph.nodes.has_key(k)),
            forall|p: int| 0 <= p < q && spec_open_caller(*graph, knowledge, *ports, #[trigger] callers@[p]@)
                ==> inferred.has_key(callers@[p]@) && spec_includes(inferred.spec_get(callers@[p]@)->0, *call_edge),
            forall|k: Seq<char>| #[trigger] inferred.spec_get(k) == start.spec_get(k)
                || (spec_list_has(callers@, k) && inferred.spec_get(k) == Some(spec_union(spec_entry_or_empty(start, k), *call_edge))),
            forall|k: Seq<char>| #[trigger] queued.spec_get(k) == Some(true) ==> start_queued.spec_get(k) == Some(true)
                || exists|i: int| start_pending.len() <= i < pending@.len() && #[trigger] pending@[i]@ == k,
            forall|k: Seq<char>| start.has_key(k) && #[trigger] inferred.spec_get(k) != start.spec_get(k)
                ==> queued.spec_get(k) == Some(true),
        decreases callers@.len() - q,
    {
        let caller = &callers[q];
        let ghost before = *inferred;
        let ghost before_queued = *queued;
        let ghost before_pending = pending@;
        match graph.rvs_get_path(caller) {
            None => {},
            Some(node) => {
                let port_operation = rvs_set_contains(ports, caller) && !node.is_trait_impl
                    && !caller.rvs_is_trait_impl_path();
                if knowledge.rvs_lookup_caps(caller).is_none() && !port_operation {
                    let changed = rvs_extend_entry_M(inferred, caller, call_edge);
                    proof {
                        let c = caller@;
                        assert(callers@[q as int]@ == c);
                        assert(spec_list_has(callers@, c));
                        if before.spec_get(c) != start.spec_get(c) {
                            lemma_union_again(spec_entry_or_empty(start, c), *call_edge);
                        }
                        assert forall|k: Seq<char>| #[trigger] inferred.spec_get(k) == start.spec_get(k)
                            || (spec_list_has(callers@, k) && inferred.spec_get(k) == Some(spec_union(spec_entry_or_empty(start, k), *call_edge))) by {
                            if k != c {
                                assert(inferred.spec_get(k) == before.spec_get(k));
                            }
                        }
                    }
                    let ghost mid = *inferred;
                    if changed && !rvs_is_queued(queued, caller) {
                        queued.rvs_insert_M(caller.rvs_copy(), true);
                        pending.push(caller.rvs_copy());
                        proof {
                            assert(pending@[pending@.len() - 1]@ == caller@);
                        }
                    }
                    proof {
                        lemma_grows_trans(start, before, *inferred);
                        let c = caller@;
                        assert forall|k: Seq<char>| #[trigger] queued.spec_get(k) == Some(true) implies start_queued.spec_get(k) == Some(true)
                            || exists|i: int| start_pending.len() <= i < pending@.len() && #[trigger] pending@[i]@ == k by {
                            if before_queued.spec_get(k) == Some(true) {
                                if !(start_queued.spec_get(k) == Some(true)) {
                                    let i = choose|i: int| start_pending.len() <= i < before_pending.len() && #[trigger] before_pending[i]@ == k;
                                    assert(pending@[i] == before_pending[i]);
                                }
                            } else {
                                assert(k == c);
                                assert(pending@[pending@.len() - 1]@ == k);
                            }
                        }
                        assert forall|k: Seq<char>| start.has_key(k) && #[trigger] inferred.spec_get(k) != start.spec_get(k)
                            implies queued.spec_get(k) == Some(true) by {
                            if k != c {
                                assert(inferred.spec_get(k) == before.spec_get(k));
                                assert(before_queued.spec_get(k) == Some(true));
                            } else if before.spec_get(k) != start.spec_get(k) {
                                assert(before_queued.spec_get(k) == Some(true));
                            } else {
                                assert(before.has_key(k));
                                assert(changed);
                            }
                        }
                    }
                }
            },
        }
        proof {
            assert forall|p: int| 0 <= p < q + 1 && spec_open_caller(*graph, knowledge, *ports, #[trigger] callers@[p]@)
                implies inferred.has_key(callers@[p]@) && spec_includes(inferred.spec_get(callers@[p]@)->0, *call_edge) by {
                if p < q {
                    assert(before.has_key(callers@[p]@));
                }
            }
            assert forall|i: int| start_pending.len() <= i < pending@.len() implies graph.nodes.has_key(#[trigger] pending@[i]@) by {
                if i < before_pending.len() {
                    assert(pending@[i] == before_pending[i]);
                }
            }
        }
        q = q + 1;
    }
}

/// One of the first `q` methods is `k`.
pub open spec fn spec_listed_before(methods: Seq<DefPath>, q: int, k: Seq<char>) -> bool {
    exists|j: int| 0 <= j < q && #[trigger] methods[j]@ == k
}

/// Queues every trait method in `methods` that is not queued yet: each is
/// marked queued, and those not queued before are appended to `pending`,
/// once each.
#[allow(non_snake_case)]
fn rvs_push_trait_methods_M(methods: &Vec<DefPath>, queued: &mut PathMap<bool>, pending: &mut Vec<DefPath>)
    requires
        old(queued).wf(),
    ensures
        final(queued).wf(),
        forall|k: Seq<char>| #[trigger] final(queued).spec_get(k) == if spec_list_has(methods@, k) {
            Some(true)
        } else {
            old(queued).spec_get(k)
        },
        spec_appended(old(pending)@, final(pending)@, |k: Seq<char>| true),
        forall|i: int| old(pending)@.len() <= i < final(pending)@.len()
            ==> spec_list_has(methods@, #[trigger] final(pending)@[i]@) && old(queued).spec_get(final(pending)@[i]@) != Some(true),
        forall|k: Seq<char>| spec_list_has(methods@, k) && #[trigger] old(queued).spec_get(k) != Some(true)
            ==> exists|i: int| old(pending)@.len() <= i < final(pending)@.len() && #[trigger] final(pending)@[i]@ == k,
        forall|i: int, j: int| old(pending)@.len() <= i < j < final(pending)@.len()
            ==> #[trigger] final(pending)@[i]@ != #[trigger] final(pending)@[j]@,
{
    let ghost start_pending = pending@;
    let ghost start_queued = *queued;
    let ghost n = start_pending.len() as int;
    let mut q: usize = 0;
    while q < methods.len()
        invariant
            queued.wf(),
            q <= methods@.len(),
            n == start_pending.len(),
            spec_appended(start_pending, pending@, |k: Seq<char>| true),
            forall|k: Seq<char>| #[trigger] queued.spec_get(k) == if spec_listed_before(methods@, q as int, k) {
                Some(true)
            } else {
                start_queued.spec_get(k)
            },
            forall|i: int| n <= i < pending@.len()
                ==> spec_listed_before(methods@, q as int, #[trigger] pending@[i]@) && start_queued.spec_get(pending@[i]@) != Some(true),
            forall|k: Seq<char>| spec_listed_before(methods@, q as int, k) && #[trigger] start_queued.spec_get(k) != Some(true)
                ==> exists|i: int| n <= i < pending@.len() && #[trigger] pending@[i]@ == k,
            forall|i: int, j: int| n <= i < j < pending@.len() ==> #[trigger] pending@[i]@ != #[trigger] pending@[j]@,
        decreases methods@.len() - q,
    {
        let ghost before_pending = pending@;
        let ghost before_queued = *queued;
        let ghost m = methods@[q as int]@;
        assert(spec_listed_before(methods@, q + 1, m));
        assert forall|k: Seq<char>| #[trigger] spec_listed_before(methods@, q + 1, k)
            == (spec_listed_before(methods@, q as int, k) || k == m) by {
            if spec_listed_before(methods@, q + 1, k) {
                let j = choose|j: int| 0 <= j < q + 1 && #[trigger] methods@[j]@ == k;
                if j < q {
                    assert(spec_listed_before(methods@, q as int, k));
                }
            }
            if spec_listed_before(methods@, q as int, k) {
                let j = choose|j: int| 0 <= j < q && #[trigger] methods@[j]@ == k;
                assert(0 <= j < q + 1);
            }
        }
        if !rvs_is_queued(queued, &methods[q]) {
            queued.rvs_insert_M(methods[q].rvs_copy(), true);
            pending.push(methods[q].rvs_copy());
            proof {
                assert(methods@[q as int]@ == pending@[pending@.len() - 1]@);
                assert(!spec_listed_before(methods@, q as int, m));
                assert forall|i: int, j: int| n <= i < j < pending@.len() implies #[trigger] pending@[i]@ != #[trigger] pending@[j]@ by {
                    if j == pending@.len() - 1 {
                        assert(pending@[i] == before_pending[i]);
                        assert(spec_listed_before(methods@, q as int, before_pending[i]@));
                    } else {
                        assert(pending@[i] == before_pending[i]);
                        assert(pending@[j] == before_pending[j]);
                    }
                }
            }
        }
        proof {
            assert forall|i: int| n <= i < pending@.len()
                implies spec_listed_before(methods@, q + 1, #[trigger] pending@[i]@) && start_queued.spec_get(pending@[i]@) != Some(true) by {
                if i < before_pending.len() {
                    assert(pending@[i] == before_pending[i]);
                    assert(spec_listed_before(methods@, q as int, before_pending[i]@));
                } else {
                    assert(pending@[i]@ == m);
                }
            }
            assert forall|k: Seq<char>| spec_listed_before(methods@, q + 1, k) && #[trigger] start_queued.spec_get(k) != Some(true)
                implies exists|i: int| n <= i < pending@.len() && #[trigger] pending@[i]@ == k by {
                if spec_listed_before(methods@, q as int, k) {
                    let i = choose|i: int| n <= i < before_pending.len() && #[trigger] before_pending[i]@ == k;
                    assert(pending@[i] == before_pending[i]);
                } else {
                    assert(k == m);
                    assert(pending@[pending@.len() - 1]@ == k);
                }
            }
        }
        q = q + 1;
    }
    proof {
        assert forall|k: Seq<char>| #[trigger] spec_listed_before(methods@, methods@.len() as int, k) == spec_list_has(methods@, k) by {
            if spec_list_has(methods@, k) {
                let j = choose|j: int| 0 <= j < methods@.len() && #[trigger] methods@[j]@ == k;
                assert(spec_listed_before(methods@, methods@.len() as int, k));
            }
        }
    }
}


/// What the propagation step of one function may raise in its callers: the
/// recorded capabilities of a port implementation, else what the resolver
/// gives for it, else the vote of its implementations.
fn rvs_effective_caps<'a>(
    graph: &FnGraph,
    knowledge: CapabilityKnowledgeView<'a>,
    impl_index: &ImplIndex,
    ports: &PathSet,
    inferred: &PathMap<CapabilitySet>,
    func: &DefPath,
    voted_caps: Option<CapabilitySet>,
) -> (r: Option<CapabilitySet>)
    requires
        graph.wf(),
        knowledge.wf(),
        impl_index.wf(),
        ports.wf(),
        inferred.wf(),
    ensures
        spec_recorded_source(knowledge, *ports, func@) ==> r == knowledge.spec_caps(func@),
        spec_is_port_operation(*graph, *ports, func@) ==> r is Some && r->0.has(Capability::P),
        knowledge.spec_caps(func@) is Some && !ports.has_key(func@) ==> r == knowledge.spec_caps(func@),
        spec_plain_body(*graph, *ports, func@) && inferred.has_key(func@) && voted_caps is None
            ==> r == match knowledge.spec_caps(func@) {
                Some(c) => Some(c),
                None => inferred.spec_get(func@),
            },
{
    let is_port_impl = rvs_set_contains(ports, func) && match graph.rvs_get_path(func) {
        Some(node) => node.is_trait_impl || func.rvs_is_trait_impl_path(),
        None => false,
    };
    if is_port_impl {
        match inferred.rvs_get(func.rvs_chars()) {
            Some(c) => {
                return Some(*c);
            },
            None => {},
        }
    }
    let resolver = CalleeCapsResolver::rvs_new_with_knowledge(graph, knowledge, inferred, impl_index, ports);
    let found = resolver.rvs_for_propagation_target(func);
    proof {
        if spec_plain_body(*graph, *ports, func@) && inferred.has_key(func@) && knowledge.spec_caps(func@) is None {
            let p = spec_target_precedence();
            let f = func@;
            assert(p[0] == CalleeCapsSource::PortMethod);
            assert(p[1] == CalleeCapsSource::ExactCapsMap);
            assert(p[2] == CalleeCapsSource::BodylessImplWithSignature);
            assert(p[3] == CalleeCapsSource::BodylessDeclaredCaps);
            assert(p[4] == CalleeCapsSource::Inferred);
            assert(resolver.spec_inferred_usable(f));
            assert(!resolver.spec_source_ok(f, p[4], None));
            assert(resolver.spec_source_ok(f, p[4], inferred.spec_get(f)));
            if found is Some {
                let i = choose|i: int| 0 <= i < p.len() && #[trigger] resolver.spec_source_ok(f, p[i], found)
                    && forall|j: int| 0 <= j < i ==> #[trigger] resolver.spec_source_ok(f, p[j], None);
                assert(i != 0 && i != 1 && i != 2 && i != 3);
                if i > 4 {
                    assert(resolver.spec_source_ok(f, p[4], None));
                }
            } else {
                assert(resolver.spec_source_ok(f, p[4], None));
            }
        }
    }
    match found {
        Some(c) => Some(c),
        None => voted_caps,
    }
}

/// A graph function with a body that is no port method.
pub open spec fn spec_plain_body(graph: FnGraph, ports: PathSet, k: Seq<char>) -> bool {
    graph.nodes.has_key(k) && graph.nodes.spec_get(k)->0.has_body && !ports.has_key(k)
}

/// Every recorded source among the initial keys still waits in the queue
/// (at or after `head`), or has handed its capabilities on.
pub open spec fn spec_pending_law<'a>(
    graph: FnGraph,
    knowledge: CapabilityKnowledgeView<'a>,
    ports: PathSet,
    init: PathMap<CapabilitySet>,
    pending: Seq<DefPath>,
    head: int,
    m: PathMap<CapabilitySet>,
) -> bool {
    forall|g: Seq<char>| spec_recorded_source(knowledge, ports, g) && #[trigger] init.has_key(g)
        ==> (exists|p: int| head <= p < pending.len() && #[trigger] pending[p]@ == g)
            || spec_handed_on(graph, knowledge, ports, g, m)
}

/// Every recorded source that has published has handed its capabilities on.
pub open spec fn spec_published_law<'a>(
    graph: FnGraph,
    knowledge: CapabilityKnowledgeView<'a>,
    ports: PathSet,
    published: PathMap<CapabilitySet>,
    m: PathMap<CapabilitySet>,
) -> bool {
    forall|g: Seq<char>| spec_recorded_source(knowledge, ports, g) && #[trigger] published.has_key(g)
        ==> spec_handed_on(graph, knowledge, ports, g, m)
}

proof fn lemma_pending_law_step<'a>(
    graph: FnGraph,
    knowledge: CapabilityKnowledgeView<'a>,
    ports: PathSet,
    init: PathMap<CapabilitySet>,
    pa: Seq<DefPath>,
    ha: int,
    pn: Seq<DefPath>,
    m_old: PathMap<CapabilitySet>,
    m_new: PathMap<CapabilitySet>,
    func: Seq<char>,
)
    requires
        spec_pending_law(graph, knowledge, ports, init, pa, ha, m_old),
        0 <= ha < pa.len(),
        pa[ha]@ == func,
        spec_grows(m_old, m_new),
        pn.len() >= pa.len(),
        forall|i: int| 0 <= i < pa.len() ==> #[trigger] pn[i] == pa[i],
        spec_recorded_source(knowledge, ports, func) && init.has_key(func) ==> spec_handed_on(graph, knowledge, ports, func, m_new),
    ensures
        spec_pending_law(graph, knowledge, ports, init, pn, ha + 1, m_new),
{
    assert forall|g: Seq<char>| spec_recorded_source(knowledge, ports, g) && #[trigger] init.has_key(g)
        implies (exists|p: int| ha + 1 <= p < pn.len() && #[trigger] pn[p]@ == g)
            || spec_handed_on(graph, knowledge, ports, g, m_new) by {
        if g != func {
            if exists|p: int| ha <= p < pa.len() && #[trigger] pa[p]@ == g {
                let p = choose|p: int| ha <= p < pa.len() && #[trigger] pa[p]@ == g;
                assert(pn[p] == pa[p]);
            } else {
                lemma_handed_on_grows(graph, knowledge, ports, g, m_old, m_new);
            }
        }
    }
}

proof fn lemma_published_law_step<'a>(
    graph: FnGraph,
    knowledge: CapabilityKnowledgeView<'a>,
    ports: PathSet,
    pub_old: PathMap<CapabilitySet>,
    pub_new: PathMap<CapabilitySet>,
    m_old: PathMap<CapabilitySet>,
    m_new: PathMap<CapabilitySet>,
    func: Seq<char>,
)
    requires
        spec_published_law(graph, knowledge, ports, pub_old, m_old),
        spec_grows(m_old, m_new),
        forall|k: Seq<char>| #[trigger] pub_new.has_key(k) ==> pub_old.has_key(k) || k == func,
        spec_recorded_source(knowledge, ports, func) && pub_new.has_key(func) ==> spec_handed_on(graph, knowledge, ports, func, m_new),
    ensures
        spec_published_law(graph, knowledge, ports, pub_new, m_new),
{
    assert forall|g: Seq<char>| spec_recorded_source(knowledge, ports, g) && #[trigger] pub_new.has_key(g)
        implies spec_handed_on(graph, knowledge, ports, g, m_new) by {
        if g != func {
            assert(pub_old.has_key(g));
            lemma_handed_on_grows(graph, knowledge, ports, g, m_old, m_new);
        }
    }
}

/// A graph function without a body and without a record.
pub open spec fn spec_bodyless_target<'a>(graph: FnGraph, knowledge: CapabilityKnowledgeView<'a>, k: Seq<char>) -> bool {
    graph.nodes.has_key(k) && !graph.nodes.spec_get(k)->0.has_body && knowledge.spec_caps(k) is None
}

/// The resolver over an inferred map, with the run's port methods.
pub open spec fn spec_resolver_over<'a>(
    graph: &'a FnGraph,
    knowledge: CapabilityKnowledgeView<'a>,
    m: &'a PathMap<CapabilitySet>,
    impl_index: &'a ImplIndex,
    ports: &'a PathSet,
) -> CalleeCapsResolver<'a> {
    CalleeCapsResolver { graph, knowledge, inferred: m, impl_index, scoped_port_methods: Some(ports) }
}

/// The precedence of sources when the capabilities of a propagation target
/// are resolved.
pub open spec fn spec_target_precedence() -> Seq<CalleeCapsSource> {
    seq![CalleeCapsSource::PortMethod, CalleeCapsSource::ExactCapsMap,
        CalleeCapsSource::BodylessImplWithSignature, CalleeCapsSource::BodylessDeclaredCaps,
        CalleeCapsSource::Inferred, CalleeCapsSource::DeclaredCaps, CalleeCapsSource::ImplMajority]
}

/// `now` is what the target `k` holds after its turn: what the resolver
/// gives for it over the inferred map of that turn (which agrees with
/// `start` on every key but other targets), or what it held, when the
/// resolver gives nothing.
pub open spec fn spec_assigned_at_turn<'a>(
    graph: &'a FnGraph,
    knowledge: CapabilityKnowledgeView<'a>,
    impl_index: &'a ImplIndex,
    ports: &'a PathSet,
    start: PathMap<CapabilitySet>,
    k: Seq<char>,
    now: Option<CapabilitySet>,
) -> bool {
    exists|m: PathMap<CapabilitySet>, r: Option<CapabilitySet>|
        #![trigger spec_resolver_over(graph, knowledge, &m, impl_index, ports).spec_resolved(k, spec_target_precedence(), r)]
        m.wf()
        && (forall|j: Seq<char>| (!spec_bodyless_target(*graph, knowledge, j) || j == k) ==> #[trigger] m.spec_get(j) == start.spec_get(j))
        && spec_resolver_over(graph, knowledge, &m, impl_index, ports).spec_resolved(k, spec_target_precedence(), r)
        && now == match r {
            Some(c) => Some(c),
            None => start.spec_get(k),
        }
}

/// One of the first `i` graph functions is `k`.
pub open spec fn spec_turn_done(graph: FnGraph, i: int, k: Seq<char>) -> bool {
    exists|j: int| 0 <= j < i && #[trigger] graph.nodes.key(j) == k
}

/// Gives every bodyless graph function without a record what the resolver
/// gives for it, one after the other in path order.
#[allow(non_snake_case)]
fn rvs_assign_bodyless_M<'a>(
    graph: &FnGraph,
    knowledge: CapabilityKnowledgeView<'a>,
    impl_index: &ImplIndex,
    ports: &PathSet,
    inferred: &mut PathMap<CapabilitySet>,
)
    requires
        graph.wf(),
        knowledge.wf(),
        impl_index.wf(),
        ports.wf(),
        old(inferred).wf(),
    ensures
        final(inferred).wf(),
        forall|k: Seq<char>| old(inferred).has_key(k) ==> #[trigger] final(inferred).has_key(k),
        forall|k: Seq<char>| !(graph.nodes.has_key(k) && !graph.nodes.spec_get(k)->0.has_body && knowledge.spec_caps(k) is None)
            ==> #[trigger] final(inferred).spec_get(k) == old(inferred).spec_get(k),
        forall|k: Seq<char>| #[trigger] spec_bodyless_target(*graph, knowledge, k)
            ==> spec_assigned_at_turn(graph, knowledge, impl_index, ports, *old(inferred), k, final(inferred).spec_get(k)),
{
    let ghost start = *inferred;
    let mut i: usize = 0;
    while i < graph.rvs_len()
        invariant
            graph.wf(),
            knowledge.wf(),
            impl_index.wf(),
            ports.wf(),
            inferred.wf(),
            i <= graph.nodes.len_spec(),
            forall|k: Seq<char>| start.has_key(k) ==> #[trigger] inferred.has_key(k),
            forall|k: Seq<char>| !(graph.nodes.has_key(k) && !graph.nodes.spec_get(k)->0.has_body && knowledge.spec_caps(k) is None)
                ==> #[trigger] inferred.spec_get(k) == start.spec_get(k),
            forall|k: Seq<char>| #[trigger] spec_bodyless_target(*graph, knowledge, k) && !spec_turn_done(*graph, i as int, k)
                ==> inferred.spec_get(k) == start.spec_get(k),
            forall|k: Seq<char>| #[trigger] spec_bodyless_target(*graph, knowledge, k) && spec_turn_done(*graph, i as int, k)
                ==> spec_assigned_at_turn(graph, knowledge, impl_index, ports, start, k, inferred.spec_get(k)),
        decreases graph.nodes.len_spec() - i,
    {
        let func = graph.rvs_path_at(i);
        let node = graph.rvs_node_at(i);
        let ghost f = func@;
        let ghost before = *inferred;
        proof {
            graph.nodes.lemma_index_unique(i as int);
            assert(spec_turn_done(*graph, i + 1, f));
            assert forall|k: Seq<char>| #[trigger] spec_turn_done(*graph, i + 1, k) == (spec_turn_done(*graph, i as int, k) || k == f) by {
                if spec_turn_done(*graph, i + 1, k) {
                    let j = choose|j: int| 0 <= j < i + 1 && #[trigger] graph.nodes.key(j) == k;
                    if j < i {
                        assert(spec_turn_done(*graph, i as int, k));
                    }
                }
                if spec_turn_done(*graph, i as int, k) {
                    let j = choose|j: int| 0 <= j < i && #[trigger] graph.nodes.key(j) == k;
                    assert(0 <= j < i + 1);
                }
            }
            assert(!spec_turn_done(*graph, i as int, f)) by {
                if spec_turn_done(*graph, i as int, f) {
                    let j = choose|j: int| 0 <= j < i && #[trigger] graph.nodes.key(j) == f;
                    graph.nodes.lemma_index_unique(j);
                }
            }
        }
        if !node.has_body && knowledge.rvs_lookup_caps(func).is_none() {
            let ghost m = *inferred;
            let found = {
                let resolver = CalleeCapsResolver::rvs_new_with_knowledge(graph, knowledge, &*inferred, impl_index, ports);
                let found = resolver.rvs_for_propagation_target(func);
                proof {
                    assert(resolver == spec_resolver_over(graph, knowledge, &m, impl_index, ports));
                    assert(spec_bodyless_target(*graph, knowledge, f));
                    assert forall|j: Seq<char>| (!spec_bodyless_target(*graph, knowledge, j) || j == f)
                        implies #[trigger] m.spec_get(j) == start.spec_get(j) by {}
                    assert(spec_target_precedence() =~= seq![CalleeCapsSource::PortMethod, CalleeCapsSource::ExactCapsMap,
                        CalleeCapsSource::BodylessImplWithSignature, CalleeCapsSource::BodylessDeclaredCaps,
                        CalleeCapsSource::Inferred, CalleeCapsSource::DeclaredCaps, CalleeCapsSource::ImplMajority]);
                    assert(spec_resolver_over(graph, knowledge, &m, impl_index, ports).spec_resolved(f, spec_target_precedence(), found));
                    assert(spec_assigned_at_turn(graph, knowledge, impl_index, ports, start, f, match found {
                        Some(c) => Some(c),
                        None => start.spec_get(f),
                    }));
                }
                found
            };
            match found {
                Some(caps) => {
                    inferred.rvs_insert_M(func.rvs_copy(), caps);
                },
                None => {},
            }
        }
        i = i + 1;
    }
    proof {
        assert forall|k: Seq<char>| #[trigger] spec_bodyless_target(*graph, knowledge, k)
            implies spec_turn_done(*graph, graph.nodes.len_spec() as int, k) by {
            let j = graph.nodes.index_of(k);
            graph.nodes.lemma_index_unique(j);
        }
    }
}

/// A function that no implementation vote reaches: no trait method, or one
/// without indexed implementations.
pub open spec fn spec_unlisted(k: Seq<char>, impl_index: ImplIndex) -> bool {
    match spec_trait_method_key(k) {
        Some(key) => forall|x: Seq<char>| !#[trigger] spec_lists_have(impl_index, key, x),
        None => true,
    }
}

proof fn lemma_unlisted_no_voters(k: Seq<char>, impl_index: ImplIndex, m: PathMap<CapabilitySet>)
    requires
        spec_unlisted(k, impl_index),
    ensures
        spec_no_voters(k, impl_index, m),
{
    match spec_trait_method_key(k) {
        Some(key) => {
            if impl_index.has_key(key) {
                let v = impl_index.spec_get(key)->0;
                assert forall|j: int| 0 <= j < v@.len() implies !m.has_key(#[trigger] v@[j]@) by {
                    assert(spec_list_has(v@, v@[j]@));
                    assert(spec_lists_have(impl_index, key, v@[j]@));
                }
            }
        },
        None => {},
    }
}

/// Propagation raises no member of a bounded set beyond its bound: the
/// inferred capabilities are the least that the propagation rules force.
pub open spec fn spec_bound_law<'a>(
    graph: FnGraph,
    knowledge: CapabilityKnowledgeView<'a>,
    ports: PathSet,
    impl_index: ImplIndex,
    r: PathMap<CapabilitySet>,
) -> bool {
    forall|q: Set<Seq<char>>, x: spec_fn(Seq<char>) -> CapabilitySet, k: Seq<char>|
        #[trigger] spec_bounded(graph, knowledge, ports, impl_index, q, x) && #[trigger] q.contains(k)
        ==> r.has_key(k) && spec_includes(x(k), r.spec_get(k)->0)
}

/// Propagation reaches every caller: an open caller with a body holds what
/// each call of a plain, unrecorded callee hands on from that callee's
/// entry, and the port marker of each port operation it calls; and every
/// port operation holds the port marker.
pub open spec fn spec_propagation_law<'a>(
    graph: FnGraph,
    knowledge: CapabilityKnowledgeView<'a>,
    ports: PathSet,
    impl_index: ImplIndex,
    r: PathMap<CapabilitySet>,
) -> bool {
    &&& forall|f: Seq<char>, g: Seq<char>| #[trigger] spec_calls(graph, f, g) && spec_open_caller(graph, knowledge, ports, f)
        && graph.nodes.spec_get(f)->0.has_body && spec_plain_source(graph, knowledge, ports, impl_index, g)
        ==> r.has_key(f) && spec_includes(r.spec_get(f)->0, spec_call_edge_caps(r.spec_get(g)->0))
    &&& forall|f: Seq<char>, g: Seq<char>| #[trigger] spec_calls(graph, f, g) && spec_open_caller(graph, knowledge, ports, f)
        && graph.nodes.spec_get(f)->0.has_body && spec_is_port_operation(graph, ports, g)
        ==> r.has_key(f) && r.spec_get(f)->0.p
    &&& forall|g: Seq<char>| #[trigger] spec_is_port_operation(graph, ports, g) ==> r.has_key(g) && r.spec_get(g)->0.p
}

/// The inferred map is closed under propagation and is the least such map
/// on every bounded set.
pub open spec fn spec_fixpoint_law<'a>(
    graph: FnGraph,
    knowledge: CapabilityKnowledgeView<'a>,
    ports: PathSet,
    impl_index: ImplIndex,
    r: PathMap<CapabilitySet>,
) -> bool {
    spec_bound_law(graph, knowledge, ports, impl_index, r) && spec_propagation_law(graph, knowledge, ports, impl_index, r)
}

/// Thread-local state travels to callers: an open caller with a body of a
/// callee that holds `T` without the port marker (a plain unrecorded
/// callee, or a recorded one that is no port method) is inferred with `T`.
pub proof fn lemma_callers_inherit_thread_local<'a>(
    graph: FnGraph,
    knowledge: CapabilityKnowledgeView<'a>,
    ports: PathSet,
    impl_index: ImplIndex,
    r: PathMap<CapabilitySet>,
    f: Seq<char>,
    g: Seq<char>,
)
    requires
        spec_inference_ok(graph, knowledge, ports, r),
        spec_fixpoint_law(graph, knowledge, ports, impl_index, r),
        spec_calls(graph, f, g),
        spec_open_caller(graph, knowledge, ports, f),
        graph.nodes.spec_get(f)->0.has_body,
        spec_plain_source(graph, knowledge, ports, impl_index, g) && r.has_key(g)
            && r.spec_get(g)->0.has(Capability::T) && !r.spec_get(g)->0.p
        || knowledge.spec_caps(g) is Some && !ports.has_key(g)
            && knowledge.spec_caps(g)->0.has(Capability::T) && !knowledge.spec_caps(g)->0.p,
    ensures
        r.has_key(f),
        r.spec_get(f)->0.has(Capability::T),
{
    if spec_plain_source(graph, knowledge, ports, impl_index, g) && r.has_key(g)
        && r.spec_get(g)->0.has(Capability::T) && !r.spec_get(g)->0.p {
        crate::capability::lemma_propagated_parts(r.spec_get(g)->0);
        assert(spec_includes(r.spec_get(f)->0, spec_call_edge_caps(r.spec_get(g)->0)));
    } else {
        crate::capability::lemma_propagated_parts(knowledge.spec_caps(g)->0);
        assert(spec_includes(r.spec_get(f)->0, spec_call_edge_caps(knowledge.spec_caps(g)->0)));
    }
}

/// A port operation that is a bodyless target is assigned the port marker.
proof fn lemma_port_target_assigned<'a>(
    graph: &'a FnGraph,
    knowledge: CapabilityKnowledgeView<'a>,
    impl_index: &'a ImplIndex,
    ports: &'a PathSet,
    start: PathMap<CapabilitySet>,
    k: Seq<char>,
    now: Option<CapabilitySet>,
)
    requires
        spec_assigned_at_turn(graph, knowledge, impl_index, ports, start, k, now),
        spec_is_port_operation(*graph, *ports, k),
    ensures
        now is Some && now->0.p,
{
    let (m, r) = choose|m: PathMap<CapabilitySet>, r: Option<CapabilitySet>|
        #![trigger spec_resolver_over(graph, knowledge, &m, impl_index, ports).spec_resolved(k, spec_target_precedence(), r)]
        m.wf()
        && (forall|j: Seq<char>| (!spec_bodyless_target(*graph, knowledge, j) || j == k) ==> #[trigger] m.spec_get(j) == start.spec_get(j))
        && spec_resolver_over(graph, knowledge, &m, impl_index, ports).spec_resolved(k, spec_target_precedence(), r)
        && now == match r {
            Some(c) => Some(c),
            None => start.spec_get(k),
        };
    let res = spec_resolver_over(graph, knowledge, &m, impl_index, ports);
    let p = spec_target_precedence();
    assert(p[0] == CalleeCapsSource::PortMethod);
    assert(!res.spec_source_ok(k, p[0], None));
    if r is Some {
        let i = choose|i: int| 0 <= i < p.len() && #[trigger] res.spec_source_ok(k, p[i], r)
            && forall|j: int| 0 <= j < i ==> #[trigger] res.spec_source_ok(k, p[j], None);
        if i > 0 {
            assert(res.spec_source_ok(k, p[0], None));
        }
        assert(res.spec_port_ok(k, r));
    } else {
        assert(res.spec_source_ok(k, p[0], None));
    }
}

/// What a call of `g` can hand on when every function holds at most what `x`
/// gives it: a port operation hands on the port marker alone, a recorded
/// callee what its record hands on, any other at most its propagated
/// capabilities.
pub open spec fn spec_handed_within<'a>(
    graph: FnGraph,
    knowledge: CapabilityKnowledgeView<'a>,
    ports: PathSet,
    g: Seq<char>,
    x: spec_fn(Seq<char>) -> CapabilitySet,
) -> CapabilitySet {
    if spec_is_port_operation(graph, ports, g) {
        spec_single(Capability::P)
    } else {
        match knowledge.spec_caps(g) {
            Some(c) => spec_call_edge_caps(c),
            None => spec_propagated(x(g)),
        }
    }
}

/// `x` bounds the set `q` of graph functions: each member has a body, is no
/// port method and no implementation vote reaches it; `x` holds its initial
/// capabilities; and each of its callees is a member, a port operation or a
/// recorded callee that is no port method, whose call hands on nothing
/// beyond what `x` gives the caller.
pub open spec fn spec_bounded<'a>(
    graph: FnGraph,
    knowledge: CapabilityKnowledgeView<'a>,
    ports: PathSet,
    impl_index: ImplIndex,
    q: Set<Seq<char>>,
    x: spec_fn(Seq<char>) -> CapabilitySet,
) -> bool {
    forall|k: Seq<char>| #[trigger] q.contains(k) ==> spec_plain_body(graph, ports, k) && spec_unlisted(k, impl_index)
        && spec_includes(x(k), spec_initial_caps(ports, knowledge, k, graph.nodes.spec_get(k)->0))
        && forall|g: Seq<char>| #[trigger] spec_calls(graph, k, g)
            ==> (q.contains(g) || spec_is_port_operation(graph, ports, g) || (knowledge.spec_caps(g) is Some && !ports.has_key(g)))
            && spec_includes(x(k), spec_handed_within(graph, knowledge, ports, g, x))
}

/// What the inferred map promises: every graph function has an entry; a
/// function with a body keeps at least its initial capabilities; every
/// callee with recorded or declared capabilities has an entry, at least
/// those capabilities when it is no graph function; a recorded entry is kept
/// exactly (port functions of the graph excepted); and an open caller with a
/// body holds what each call of a recorded, non-port callee hands on.
pub open spec fn spec_inference_ok<'a>(
    graph: FnGraph,
    knowledge: CapabilityKnowledgeView<'a>,
    ports: PathSet,
    r: PathMap<CapabilitySet>,
) -> bool {
    &&& r.wf()
    &&& forall|k: Seq<char>| graph.nodes.has_key(k) ==> #[trigger] r.has_key(k)
    &&& forall|k: Seq<char>| graph.nodes.has_key(k) && graph.nodes.spec_get(k)->0.has_body
        ==> spec_includes(#[trigger] r.spec_get(k)->0, spec_initial_caps(ports, knowledge, k, graph.nodes.spec_get(k)->0))
    &&& forall|k: Seq<char>| spec_seeded_callee(graph, knowledge, k) ==> #[trigger] r.has_key(k)
    &&& forall|k: Seq<char>| spec_seeded_callee(graph, knowledge, k) && !graph.nodes.has_key(k)
        ==> spec_includes(#[trigger] r.spec_get(k)->0, spec_callee_seed(knowledge, k))
    &&& forall|k: Seq<char>| r.has_key(k) && knowledge.spec_caps(k) is Some && !(ports.has_key(k) && graph.nodes.has_key(k))
        ==> #[trigger] r.spec_get(k) == knowledge.spec_caps(k)
    &&& forall|f: Seq<char>, g: Seq<char>| #[trigger] spec_calls(graph, f, g) && spec_open_caller(graph, knowledge, ports, f)
        && graph.nodes.spec_get(f)->0.has_body && knowledge.spec_caps(g) is Some && !ports.has_key(g)
        ==> r.has_key(f) && spec_includes(r.spec_get(f)->0, spec_call_edge_caps(knowledge.spec_caps(g)->0))
}

/// Infers the capabilities of every function from the graph, recorded
/// knowledge, the trait implementation index, the port methods and the
/// reverse edges.
///
/// Every function starts with its initial capabilities (see
/// `spec_initial_caps`), and every callee outside the graph with recorded or
/// declared capabilities starts with those.  Then each function whose
/// propagated capabilities grew hands them to its callers (a port call hands
/// on only the port marker), until nothing changes; callers with recorded
/// capabilities and port operations are never raised.  Last, every bodyless
/// function without a record takes what the resolver gives for it.
///
/// The result is closed under these rules: an open caller holds what each
/// call of a plain callee hands on from the callee's final entry, so a
/// recorded capability climbs a chain of calls to its top; a caller of a
/// port operation holds the port marker, and so does the port operation.
/// And nothing is raised beyond what the rules force: for any set of plain
/// functions closed under calls and any bound that holds their initial
/// capabilities and what their calls hand on, every member ends within its
/// bound (see `spec_fixpoint_law`).  So a signature-only marker never
/// reaches a caller, a call of a port operation hands on the port marker
/// and nothing of its implementations, and a cycle that starts empty stays
/// empty.
#[verifier::rlimit(100)]
#[verifier::spinoff_prover]
pub fn rvs_infer_caps_with_knowledge_and_ports<'a>(
    graph: &FnGraph,
    knowledge: CapabilityKnowledgeView<'a>,
    impl_index: &ImplIndex,
    ports: &PathSet,
    dependents: &InferenceDependents,
) -> (r: PathMap<CapabilitySet>)
    requires
        graph.wf(),
        knowledge.wf(),
        impl_index.wf(),
        ports.wf(),
        dependents.wf(),
        forall|callee: Seq<char>, caller: Seq<char>| #[trigger] spec_lists_have(dependents.callers, callee, caller)
            == spec_calls(*graph, caller, callee),
    ensures
        r.wf(),
        forall|k: Seq<char>| graph.nodes.has_key(k) ==> #[trigger] r.has_key(k),
        forall|k: Seq<char>| graph.nodes.has_key(k) && graph.nodes.spec_get(k)->0.has_body
            ==> spec_includes(#[trigger] r.spec_get(k)->0, spec_initial_caps(*ports, knowledge, k, graph.nodes.spec_get(k)->0)),
        forall|k: Seq<char>| spec_seeded_callee(*graph, knowledge, k) ==> #[trigger] r.has_key(k),
        forall|k: Seq<char>| spec_seeded_callee(*graph, knowledge, k) && !graph.nodes.has_key(k)
            ==> spec_includes(#[trigger] r.spec_get(k)->0, spec_callee_seed(knowledge, k)),
        forall|k: Seq<char>| r.has_key(k) && knowledge.spec_caps(k) is Some && !(ports.has_key(k) && graph.nodes.has_key(k))
            ==> #[trigger] r.spec_get(k) == knowledge.spec_caps(k),
        forall|f: Seq<char>, g: Seq<char>| #[trigger] spec_calls(*graph, f, g) && spec_open_caller(*graph, knowledge, *ports, f)
            && graph.nodes.spec_get(f)->0.has_body && knowledge.spec_caps(g) is Some && !ports.has_key(g)
            ==> r.has_key(f) && spec_includes(r.spec_get(f)->0, spec_call_edge_caps(knowledge.spec_caps(g)->0)),
        spec_inference_ok(*graph, knowledge, *ports, r),
        spec_fixpoint_law(*graph, knowledge, *ports, *impl_index, r),
{
    let mut inferred = rvs_initial_caps_with_knowledge(graph, knowledge, ports);
    let ghost initial = inferred;
    rvs_seed_callees_M(graph, knowledge, &mut inferred);
    let ghost init = inferred;
    let ghost universe = spec_key_seq(init) + spec_flat_values(dependents.trait_methods.entries@);
    let mut pending: Vec<DefPath> = Vec::new();
    let mut queued: PathMap<bool> = PathMap::rvs_new();
    let mut i: usize = 0;
    while i < inferred.rvs_len()
        invariant
            inferred == init,
            init.wf(),
            queued.wf(),
            i <= init.len_spec(),
            forall|j: int| 0 <= j < i && spec_propagated(init.val(j)) != spec_empty()
                ==> exists|p: int| 0 <= p < pending@.len() && #[trigger] pending@[p]@ == init.key(j),
            forall|p: int| 0 <= p < pending@.len() ==> init.has_key(#[trigger] pending@[p]@),
            forall|k: Seq<char>| #[trigger] queued.spec_get(k) == Some(true) ==> exists|p: int| 0 <= p < pending@.len() && #[trigger] pending@[p]@ == k,
        decreases init.len_spec() - i,
    {
        let caps = inferred.rvs_value_at(i);
        let ghost before = pending@;
        let ghost before_queued = queued;
        if !caps.rvs_propagated().rvs_is_empty() {
            let key = inferred.rvs_key_at(i);
            pending.push(key.rvs_copy());
            queued.rvs_insert_M(key.rvs_copy(), true);
            proof {
                assert(pending@[pending@.len() - 1]@ == init.key(i as int));
            }
        }
        proof {
            assert forall|j: int| 0 <= j < i + 1 && spec_propagated(init.val(j)) != spec_empty()
                implies exists|p: int| 0 <= p < pending@.len() && #[trigger] pending@[p]@ == init.key(j) by {
                if j == i {
                    assert(pending@[pending@.len() - 1]@ == init.key(j));
                } else {
                    let p = choose|p: int| 0 <= p < before.len() && #[trigger] before[p]@ == init.key(j);
                    assert(pending@[p] == before[p]);
                }
            }
            assert forall|p: int| 0 <= p < pending@.len() implies init.has_key(#[trigger] pending@[p]@) by {
                if p < before.len() {
                    assert(pending@[p] == before[p]);
                } else {
                    init.lemma_index_unique(i as int);
                }
            }
            assert forall|k: Seq<char>| #[trigger] queued.spec_get(k) == Some(true)
                implies exists|p: int| 0 <= p < pending@.len() && #[trigger] pending@[p]@ == k by {
                if before_queued.spec_get(k) == Some(true) {
                    let p = choose|p: int| 0 <= p < before.len() && #[trigger] before[p]@ == k;
                    assert(pending@[p] == before[p]);
                } else {
                    assert(pending@[pending@.len() - 1]@ == k);
                }
            }
        }
        i = i + 1;
    }
    let mut published: PathMap<CapabilitySet> = PathMap::rvs_new();
    let mut head: usize = 0;
    proof {
        assert forall|g: Seq<char>| spec_recorded_source(knowledge, *ports, g) && #[trigger] init.has_key(g)
            implies (exists|p: int| 0 <= p < pending@.len() && #[trigger] pending@[p]@ == g)
                || spec_handed_on(*graph, knowledge, *ports, g, inferred) by {
            let j = init.index_of(g);
            init.lemma_index_unique(j);
            if graph.nodes.has_key(g) {
                assert(initial.has_key(g));
            }
            assert(init.key(j) == g);
        }
        assert forall|k: Seq<char>| #[trigger] inferred.has_key(k) implies universe.contains(k) by {
            lemma_key_seq_contains(init, k);
            let j = choose|j: int| 0 <= j < spec_key_seq(init).len() && spec_key_seq(init)[j] == k;
            assert(universe[j] == k);
        }
        assert forall|p: int| 0 <= p < pending@.len() implies universe.contains(#[trigger] pending@[p]@) by {
            lemma_key_seq_contains(init, pending@[p]@);
            let j = choose|j: int| 0 <= j < spec_key_seq(init).len() && spec_key_seq(init)[j] == pending@[p]@;
            assert(universe[j] == pending@[p]@);
        }
        assert forall|k: Seq<char>| knowledge.spec_caps(k) is Some && !(ports.has_key(k) && graph.nodes.has_key(k)) && inferred.has_key(k)
            implies #[trigger] inferred.spec_get(k) == knowledge.spec_caps(k) by {
            if graph.nodes.has_key(k) {
                assert(initial.has_key(k));
            }
        }
        assert forall|k: Seq<char>| graph.nodes.has_key(k) implies #[trigger] init.has_key(k) by {
            assert(initial.has_key(k));
        }
        assert forall|k: Seq<char>| graph.nodes.has_key(k) implies #[trigger] init.spec_get(k)
            == Some(spec_initial_caps(*ports, knowledge, k, graph.nodes.spec_get(k)->0)) by {
            assert(initial.has_key(k));
        }
        lemma_grows_refl(init);
        assert forall|g: Seq<char>| #[trigger] spec_tracked(*graph, knowledge, *ports, *impl_index, g)
            implies inferred.has_key(g) && (spec_waiting(pending@, 0, g) || spec_settled_entry(*graph, *ports, published, inferred, g)) by {
            assert(graph.nodes.has_key(g));
            assert(initial.has_key(g));
            assert(init.has_key(g));
            let j = init.index_of(g);
            assert(0 <= j < init.len_spec() && init.key(j) == g);
            init.lemma_index_unique(j);
            if spec_propagated(init.val(j)) != spec_empty() {
                let p = choose|p: int| 0 <= p < pending@.len() && #[trigger] pending@[p]@ == init.key(j);
                assert(pending@[p]@ == g);
                assert(spec_waiting(pending@, 0, g));
            } else {
                assert(!spec_is_port_operation(*graph, *ports, g)) by {
                    if spec_is_port_operation(*graph, *ports, g) {
                        assert(spec_propagated(init.val(j)).p);
                    }
                }
                assert(spec_entry_or_empty(published, g) == spec_empty());
            }
        }
        assert forall|k: Seq<char>| #[trigger] queued.spec_get(k) == Some(true) implies spec_waiting(pending@, 0, k) by {
            let p = choose|p: int| 0 <= p < pending@.len() && #[trigger] pending@[p]@ == k;
        }
        lemma_flow_start(*graph, knowledge, *ports, *impl_index, pending@, queued, published, inferred);
    }
    while head < pending.len()
        invariant
            graph.wf(),
            knowledge.wf(),
            impl_index.wf(),
            ports.wf(),
            dependents.wf(),
            forall|callee: Seq<char>, caller: Seq<char>| #[trigger] spec_lists_have(dependents.callers, callee, caller)
                == spec_calls(*graph, caller, callee),
            universe == spec_key_seq(init) + spec_flat_values(dependents.trait_methods.entries@),
            forall|k: Seq<char>| graph.nodes.has_key(k) ==> #[trigger] init.has_key(k),
            inferred.wf(),
            queued.wf(),
            published.wf(),
            head <= pending@.len(),
            spec_grows(init, inferred),
            forall|k: Seq<char>| #[trigger] inferred.has_key(k) ==> universe.contains(k),
            forall|k: Seq<char>| #[trigger] published.has_key(k) ==> universe.contains(k),
            forall|p: int| 0 <= p < pending@.len() ==> universe.contains(#[trigger] pending@[p]@),
            forall|k: Seq<char>| knowledge.spec_caps(k) is Some && !(ports.has_key(k) && graph.nodes.has_key(k)) && inferred.has_key(k)
                ==> #[trigger] inferred.spec_get(k) == knowledge.spec_caps(k),
            spec_pending_law(*graph, knowledge, *ports, init, pending@, head as int, inferred),
            spec_published_law(*graph, knowledge, *ports, published, inferred),
            forall|k: Seq<char>| graph.nodes.has_key(k) ==> #[trigger] init.spec_get(k)
                == Some(spec_initial_caps(*ports, knowledge, k, graph.nodes.spec_get(k)->0)),
            forall|q: Set<Seq<char>>, x: spec_fn(Seq<char>) -> CapabilitySet, k: Seq<char>|
                #[trigger] spec_bounded(*graph, knowledge, *ports, *impl_index, q, x) && #[trigger] q.contains(k)
                ==> inferred.has_key(k) && spec_includes(x(k), inferred.spec_get(k)->0),
            spec_flow_law(*graph, knowledge, *ports, *impl_index, pending@, head as int, queued, published, inferred, None),
        decreases spec_total_room(universe, published), spec_total_room(universe, inferred), pending@.len() - head,
    {
        let func = pending[head].rvs_copy();
        let ghost head_at = head as int;
        let ghost pending_at = pending@;
        let ghost inferred_at = inferred;
        let ghost published_at = published;
        let ghost queued_at = queued;
        head = head + 1;
        queued.rvs_insert_M(func.rvs_copy(), false);
        proof {
            lemma_flow_pop(*graph, knowledge, *ports, *impl_index, pending_at, head_at, queued_at, queued, published, inferred, func@);
        }
        let recorded = knowledge.rvs_lookup_caps(&func);
        let voted_caps = if recorded.is_none() {
            rvs_resolve_impl_majority_caps_with_ports(&func, impl_index, &inferred, graph, Some(ports))
        } else {
            None
        };
        let resolved = rvs_effective_caps(graph, knowledge, impl_index, ports, &inferred, &func, voted_caps);
        proof {
            assert(universe.contains(pending_at[head_at]@));
            lemma_flow_facts(*graph, knowledge, *ports, *impl_index, pending@, head as int, queued, published, inferred, Some(func@), func@);
            if spec_plain_source(*graph, knowledge, *ports, *impl_index, func@) {
                lemma_unlisted_no_voters(func@, *impl_index, inferred_at);
                assert(voted_caps is None);
                assert(spec_tracked(*graph, knowledge, *ports, *impl_index, func@));
                assert(inferred.has_key(func@));
                assert(resolved == inferred.spec_get(func@));
            }
        }
        let mut effective = match resolved {
            Some(c) => c,
            None => {
                proof {
                    assert(!spec_tracked(*graph, knowledge, *ports, *impl_index, func@));
                    lemma_flow_release(*graph, knowledge, *ports, *impl_index, pending@, head as int, queued, published, inferred, func@);
                    lemma_grows_refl(inferred);
                    lemma_pending_law_step(*graph, knowledge, *ports, init, pending_at, head_at, pending@, inferred_at, inferred, func@);
                }
                continue;
            },
        };
        match voted_caps {
            Some(v) => {
                let _ = effective.rvs_union_M(&v);
                let _ = rvs_extend_entry_M(&mut inferred, &func, &effective);
            },
            None => {},
        }
        proof {
            assert forall|q: Set<Seq<char>>, x: spec_fn(Seq<char>) -> CapabilitySet, k: Seq<char>|
                #[trigger] spec_bounded(*graph, knowledge, *ports, *impl_index, q, x) && #[trigger] q.contains(k)
                implies inferred.has_key(k) && spec_includes(x(k), inferred.spec_get(k)->0) by {
                if k == func@ && voted_caps is Some {
                    lemma_unlisted_no_voters(k, *impl_index, inferred_at);
                }
                assert(inferred.spec_get(k) == inferred_at.spec_get(k));
            }
            if voted_caps is None {
                lemma_grows_refl(inferred);
            }
            assert forall|k: Seq<char>| #[trigger] spec_plain_source(*graph, knowledge, *ports, *impl_index, k) && inferred.spec_get(k) != inferred_at.spec_get(k)
                implies queued.spec_get(k) == Some(true) by {
                if k == func@ {
                    lemma_unlisted_no_voters(k, *impl_index, inferred_at);
                }
            }
            lemma_flow_grow(*graph, knowledge, *ports, *impl_index, pending@, pending@, head as int, queued, queued, published, inferred_at, inferred, Some(func@));
            lemma_flow_facts(*graph, knowledge, *ports, *impl_index, pending@, head as int, queued, published, inferred, Some(func@), func@);
            if spec_plain_source(*graph, knowledge, *ports, *impl_index, func@) {
                assert(effective == inferred.spec_get(func@)->0);
                assert(spec_tracked(*graph, knowledge, *ports, *impl_index, func@));
                assert(published.has_key(func@) ==> spec_includes(spec_propagated(effective), published.spec_get(func@)->0));
            }
            if spec_is_port_operation(*graph, *ports, func@) {
                crate::capability::lemma_union_includes(resolved->0, effective);
                assert(effective.p);
            }
        }
        proof {
            lemma_grows_trans(init, inferred_at, inferred);
            lemma_total_room_mono(universe, inferred_at, inferred);
            lemma_published_law_step(*graph, knowledge, *ports, published_at, published, inferred_at, inferred, func@);
        }
        let propagated = effective.rvs_propagated();
        if propagated.rvs_is_empty() {
            proof {
                lemma_pending_law_step(*graph, knowledge, *ports, init, pending_at, head_at, pending@, inferred_at, inferred, func@);
                lemma_flow_empty(*graph, knowledge, *ports, *impl_index, pending@, head as int, queued, published, inferred, func@, effective);
            }
            continue;
        }
        let ghost inferred_mid = inferred;
        let changed = rvs_extend_entry_M(&mut published, &func, &propagated);
        proof {
            lemma_total_room_mono(universe, published_at, published);
            if spec_recorded_source(knowledge, *ports, func@) && !changed {
                assert(published_at.has_key(func@));
            }
        }
        if !changed {
            proof {
                lemma_pending_law_step(*graph, knowledge, *ports, init, pending_at, head_at, pending@, inferred_at, inferred, func@);
                lemma_published_law_step(*graph, knowledge, *ports, published_at, published, inferred_at, inferred, func@);
                lemma_flow_keep(*graph, knowledge, *ports, *impl_index, pending@, head as int, queued, published_at, published, inferred, func@, effective);
            }
            continue;
        }
        proof {
            lemma_total_room_strict(universe, published_at, published, func@);
        }
        let ghost pending_mid = pending@;
        let ghost queued_mid = queued;
        match dependents.callers.rvs_get(func.rvs_chars()) {
            Some(callers) => {
                let edge = rvs_call_edge_caps(&effective);
                rvs_push_callers_M(graph, knowledge, ports, callers, &edge, &mut inferred, &mut queued, &mut pending);
                proof {
                    assert forall|q: Set<Seq<char>>, x: spec_fn(Seq<char>) -> CapabilitySet, k: Seq<char>|
                        #[trigger] spec_bounded(*graph, knowledge, *ports, *impl_index, q, x) && #[trigger] q.contains(k)
                        implies inferred.has_key(k) && spec_includes(x(k), inferred.spec_get(k)->0) by {
                        assert(inferred_mid.has_key(k) && spec_includes(x(k), inferred_mid.spec_get(k)->0));
                        if inferred.spec_get(k) != inferred_mid.spec_get(k) {
                            let f = func@;
                            let p = choose|p: int| 0 <= p < callers@.len() && #[trigger] callers@[p]@ == k;
                            assert(spec_lists_have(dependents.callers, f, k));
                            assert(spec_calls(*graph, k, f));
                            assert(spec_includes(x(k), spec_handed_within(*graph, knowledge, *ports, f, x)));
                            if spec_is_port_operation(*graph, *ports, f) {
                                assert(effective.has(Capability::P));
                                assert(edge == spec_single(Capability::P));
                            } else if knowledge.spec_caps(f) is Some && !ports.has_key(f) {
                                assert(voted_caps is None);
                                assert(resolved == knowledge.spec_caps(f));
                            } else {
                                assert(q.contains(f));
                                lemma_unlisted_no_voters(f, *impl_index, inferred_at);
                                assert(voted_caps is None);
                                assert(init.has_key(f));
                                assert(inferred_at.has_key(f));
                                if knowledge.spec_caps(f) is None {
                                    assert(resolved == inferred_at.spec_get(f));
                                    lemma_edge_within_propagated(effective, x(f));
                                }
                            }
                            assert(spec_includes(x(k), edge));
                            lemma_union_within(x(k), inferred_mid.spec_get(k)->0, edge);
                        }
                    }
                }
                proof {
                    if spec_recorded_source(knowledge, *ports, func@) {
                        assert forall|f: Seq<char>| #[trigger] spec_calls(*graph, f, func@) && spec_open_caller(*graph, knowledge, *ports, f)
                            implies inferred.has_key(f) && spec_includes(inferred.spec_get(f)->0, spec_call_edge_caps(knowledge.spec_caps(func@)->0)) by {
                            assert(spec_lists_have(dependents.callers, func@, f));
                            let q = choose|q: int| 0 <= q < callers@.len() && #[trigger] callers@[q]@ == f;
                            assert(spec_open_caller(*graph, knowledge, *ports, callers@[q]@));
                        }
                    }
                }
            },
            None => {
                proof {
                    if spec_recorded_source(knowledge, *ports, func@) {
                        assert forall|f: Seq<char>| #[trigger] spec_calls(*graph, f, func@) && spec_open_caller(*graph, knowledge, *ports, f)
                            implies inferred.has_key(f) && spec_includes(inferred.spec_get(f)->0, spec_call_edge_caps(knowledge.spec_caps(func@)->0)) by {
                            assert(spec_lists_have(dependents.callers, func@, f));
                        }
                    }
                }
            },
        }
        proof {
            if !(spec_grows(inferred_mid, inferred)) {
                lemma_grows_refl(inferred);
            }
            assert forall|k: Seq<char>| #[trigger] queued.spec_get(k) == Some(true)
                implies queued_mid.spec_get(k) == Some(true)
                    || exists|i: int| pending_mid.len() <= i < pending@.len() && #[trigger] pending@[i]@ == k by {
            }
            assert forall|k: Seq<char>| #[trigger] spec_plain_source(*graph, knowledge, *ports, *impl_index, k) && inferred.spec_get(k) != inferred_mid.spec_get(k)
                implies queued.spec_get(k) == Some(true) by {
                assert(spec_tracked(*graph, knowledge, *ports, *impl_index, k));
                lemma_flow_facts(*graph, knowledge, *ports, *impl_index, pending_mid, head as int, queued_mid, published_at, inferred_mid, Some(func@), k);
                assert(inferred_mid.has_key(k));
            }
            lemma_flow_grow(*graph, knowledge, *ports, *impl_index, pending_mid, pending@, head as int, queued_mid, queued, published_at, inferred_mid, inferred, Some(func@));
            assert forall|f: Seq<char>| #[trigger] spec_calls(*graph, f, func@) && spec_open_caller(*graph, knowledge, *ports, f)
                implies inferred.has_key(f) && spec_includes(inferred.spec_get(f)->0, spec_call_edge_caps(effective)) by {
                assert(spec_lists_have(dependents.callers, func@, f));
            }
            assert(spec_handed_value(*graph, knowledge, *ports, func@, effective, inferred));
        }
        let ghost pending_callers = pending@;
        let ghost queued_callers = queued;
        let ghost inferred_callers = inferred;
        proof {
            lemma_grows_trans(init, inferred_mid, inferred);
            assert forall|k: Seq<char>| #[trigger] inferred.has_key(k) implies universe.contains(k) by {
                if !inferred_mid.has_key(k) {
                    lemma_key_seq_contains(init, k);
                    let j = choose|j: int| 0 <= j < spec_key_seq(init).len() && spec_key_seq(init)[j] == k;
                    assert(universe[j] == k);
                }
            }
            assert forall|p: int| 0 <= p < pending@.len() implies universe.contains(#[trigger] pending@[p]@) by {
                if p >= pending_mid.len() {
                    lemma_key_seq_contains(init, pending@[p]@);
                    let j = choose|j: int| 0 <= j < spec_key_seq(init).len() && spec_key_seq(init)[j] == pending@[p]@;
                    assert(universe[j] == pending@[p]@);
                } else {
                    assert(pending@[p] == pending_mid[p]);
                }
            }
        }
        match dependents.trait_methods.rvs_get(func.rvs_chars()) {
            Some(methods) => {
                rvs_push_trait_methods_M(methods, &mut queued, &mut pending);
                proof {
                    assert forall|p: int| 0 <= p < pending@.len() implies universe.contains(#[trigger] pending@[p]@) by {
                        if p >= pending_callers.len() {
                            assert(spec_list_has(methods@, pending@[p]@));
                            assert(spec_lists_have(dependents.trait_methods, func@, pending@[p]@));
                            lemma_lists_have_in_flat(dependents.trait_methods, func@, pending@[p]@);
                            let fl = spec_flat_values(dependents.trait_methods.entries@);
                            let j = choose|j: int| 0 <= j < fl.len() && fl[j] == pending@[p]@;
                            assert(universe[spec_key_seq(init).len() + j] == pending@[p]@);
                        } else {
                            assert(pending@[p] == pending_callers[p]);
                        }
                    }
                }
            },
            None => {},
        }
        proof {
            lemma_pending_law_step(*graph, knowledge, *ports, init, pending_at, head_at, pending@, inferred_at, inferred, func@);
            lemma_published_law_step(*graph, knowledge, *ports, published_at, published, inferred_at, inferred, func@);
            lemma_grows_refl(inferred);
            assert forall|k: Seq<char>| #[trigger] queued.spec_get(k) == Some(true)
                implies queued_callers.spec_get(k) == Some(true)
                    || exists|i: int| pending_callers.len() <= i < pending@.len() && #[trigger] pending@[i]@ == k by {
            }
            lemma_flow_grow(*graph, knowledge, *ports, *impl_index, pending_callers, pending@, head as int, queued_callers, queued, published_at, inferred, inferred, Some(func@));
            if spec_plain_source(*graph, knowledge, *ports, *impl_index, func@) {
                assert(inferred_mid.has_key(func@));
                assert(spec_includes(inferred.spec_get(func@)->0, effective));
                if spec_propagated(inferred.spec_get(func@)->0) != spec_propagated(effective) {
                    assert(inferred.spec_get(func@) != inferred_mid.spec_get(func@));
                    assert(queued_callers.spec_get(func@) == Some(true));
                }
            }
            lemma_flow_finish(*graph, knowledge, *ports, *impl_index, pending@, head as int, queued, published_at, published, inferred, func@, effective);
        }
    }
    proof {
        assert forall|f: Seq<char>, g: Seq<char>| #[trigger] spec_calls(*graph, f, g) && spec_open_caller(*graph, knowledge, *ports, f)
            && knowledge.spec_caps(g) is Some && !ports.has_key(g)
            implies inferred.has_key(f) && spec_includes(inferred.spec_get(f)->0, spec_call_edge_caps(knowledge.spec_caps(g)->0)) by {
            assert(init.has_key(f));
            if spec_propagated(knowledge.spec_caps(g)->0) != spec_empty() {
                assert(init.has_key(g)) by {
                    assert(spec_seeded_callee(*graph, knowledge, g) || graph.nodes.has_key(g));
                }
                assert(spec_handed_on(*graph, knowledge, *ports, g, inferred));
            } else {
                assert(!knowledge.spec_caps(g)->0.p);
                assert(spec_call_edge_caps(knowledge.spec_caps(g)->0) == spec_empty());
            }
        }
    }
    let ghost before_bodyless = inferred;
    rvs_assign_bodyless_M(graph, knowledge, impl_index, ports, &mut inferred);
    proof {
        assert forall|q: Set<Seq<char>>, x: spec_fn(Seq<char>) -> CapabilitySet, k: Seq<char>|
            #[trigger] spec_bounded(*graph, knowledge, *ports, *impl_index, q, x) && #[trigger] q.contains(k)
            implies inferred.has_key(k) && spec_includes(x(k), inferred.spec_get(k)->0) by {
            assert(before_bodyless.spec_get(k) == inferred.spec_get(k));
        }
        assert forall|k: Seq<char>| graph.nodes.has_key(k) implies #[trigger] inferred.has_key(k) by {
            assert(init.has_key(k));
            assert(before_bodyless.has_key(k));
        }
        assert forall|k: Seq<char>| spec_seeded_callee(*graph, knowledge, k) implies #[trigger] inferred.has_key(k) by {
            assert(init.has_key(k));
            assert(before_bodyless.has_key(k));
        }
        assert forall|k: Seq<char>| graph.nodes.has_key(k) && graph.nodes.spec_get(k)->0.has_body
            implies spec_includes(#[trigger] inferred.spec_get(k)->0, spec_initial_caps(*ports, knowledge, k, graph.nodes.spec_get(k)->0)) by {
            assert(initial.has_key(k));
            assert(init.has_key(k));
        }
        assert forall|k: Seq<char>| spec_seeded_callee(*graph, knowledge, k) && !graph.nodes.has_key(k)
            implies spec_includes(#[trigger] inferred.spec_get(k)->0, spec_callee_seed(knowledge, k)) by {
            assert(init.has_key(k));
        }
        assert forall|k: Seq<char>| inferred.has_key(k) && knowledge.spec_caps(k) is Some && !(ports.has_key(k) && graph.nodes.has_key(k))
            implies #[trigger] inferred.spec_get(k) == knowledge.spec_caps(k) by {
            assert(before_bodyless.spec_get(k) == inferred.spec_get(k));
        }
        assert forall|f: Seq<char>, g: Seq<char>| #[trigger] spec_calls(*graph, f, g) && spec_open_caller(*graph, knowledge, *ports, f)
            && graph.nodes.spec_get(f)->0.has_body && knowledge.spec_caps(g) is Some && !ports.has_key(g)
            implies inferred.has_key(f) && spec_includes(inferred.spec_get(f)->0, spec_call_edge_caps(knowledge.spec_caps(g)->0)) by {
            assert(before_bodyless.spec_get(f) == inferred.spec_get(f));
        }
        assert(head as int == pending@.len());
        assert forall|f: Seq<char>, g: Seq<char>| #[trigger] spec_calls(*graph, f, g) && spec_open_caller(*graph, knowledge, *ports, f)
            && graph.nodes.spec_get(f)->0.has_body && spec_plain_source(*graph, knowledge, *ports, *impl_index, g)
            implies inferred.has_key(f) && spec_includes(inferred.spec_get(f)->0, spec_call_edge_caps(inferred.spec_get(g)->0)) by {
            lemma_flow_facts(*graph, knowledge, *ports, *impl_index, pending@, head as int, queued, published, before_bodyless, None, g);
            assert(spec_tracked(*graph, knowledge, *ports, *impl_index, g));
            assert(!spec_waiting(pending@, head as int, g));
            let v = before_bodyless.spec_get(g)->0;
            lemma_edge_of_propagated(v);
            assert(before_bodyless.spec_get(f) == inferred.spec_get(f));
            assert(before_bodyless.spec_get(g) == inferred.spec_get(g));
            assert(init.has_key(f));
            if published.has_key(g) {
                assert(spec_handed_value(*graph, knowledge, *ports, g, published.spec_get(g)->0, before_bodyless));
                assert(published.spec_get(g)->0 == spec_propagated(v));
            } else {
                assert(spec_propagated(v) == spec_empty());
            }
        }
        assert forall|f: Seq<char>, g: Seq<char>| #[trigger] spec_calls(*graph, f, g) && spec_open_caller(*graph, knowledge, *ports, f)
            && graph.nodes.spec_get(f)->0.has_body && spec_is_port_operation(*graph, *ports, g)
            implies inferred.has_key(f) && inferred.spec_get(f)->0.p by {
            lemma_flow_facts(*graph, knowledge, *ports, *impl_index, pending@, head as int, queued, published, before_bodyless, None, g);
            assert(spec_tracked(*graph, knowledge, *ports, *impl_index, g));
            assert(!spec_waiting(pending@, head as int, g));
            assert(before_bodyless.spec_get(f) == inferred.spec_get(f));
            assert(spec_handed_value(*graph, knowledge, *ports, g, published.spec_get(g)->0, before_bodyless));
            assert(spec_call_edge_caps(published.spec_get(g)->0) == spec_single(Capability::P));
            assert(spec_single(Capability::P).has(Capability::P));
        }
        assert forall|g: Seq<char>| #[trigger] spec_is_port_operation(*graph, *ports, g) implies inferred.has_key(g) && inferred.spec_get(g)->0.p by {
            assert(initial.has_key(g));
            assert(init.has_key(g));
            if spec_bodyless_target(*graph, knowledge, g) {
                lemma_port_target_assigned(graph, knowledge, impl_index, ports, before_bodyless, g, inferred.spec_get(g));
            } else {
                assert(before_bodyless.spec_get(g) == inferred.spec_get(g));
                assert(spec_includes(before_bodyless.spec_get(g)->0, init.spec_get(g)->0));
                assert(init.spec_get(g)->0.has(Capability::P));
            }
        }
    }
    inferred
}

} // verus!
