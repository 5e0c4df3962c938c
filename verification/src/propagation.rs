//! The state of the propagation work queue: every function whose handed-on
//! capabilities are fixed by its own entry (a plain function or a port
//! operation) either waits in the queue or has handed what it holds to all
//! of its open callers.
use vstd::prelude::*;

use crate::capability::{
    lemma_edge_of_propagated, lemma_includes_antisym, lemma_includes_trans, lemma_propagated_mono,
    CapabilitySet, spec_call_edge_caps, spec_empty, spec_includes, spec_propagated, spec_union,
};
use crate::artifacts::FnGraph;
use crate::collections::PathSet;
use crate::graph_index::{ImplIndex, spec_calls};
use crate::growth::{spec_entry_or_empty, spec_grows};
use crate::inference::{spec_is_port_operation, spec_open_caller, spec_plain_body, spec_unlisted};
use crate::pathmap::PathMap;
use crate::resolver::CapabilityKnowledgeView;
use crate::symbols::DefPath;

verus! {

/// A plain function without a record: what it hands on is its own entry.
pub open spec fn spec_plain_source<'a>(
    graph: FnGraph,
    knowledge: CapabilityKnowledgeView<'a>,
    ports: PathSet,
    impl_index: ImplIndex,
    g: Seq<char>,
) -> bool {
    spec_plain_body(graph, ports, g) && spec_unlisted(g, impl_index) && knowledge.spec_caps(g) is None
}

/// A plain function without a record, or a port operation.
pub open spec fn spec_tracked<'a>(
    graph: FnGraph,
    knowledge: CapabilityKnowledgeView<'a>,
    ports: PathSet,
    impl_index: ImplIndex,
    g: Seq<char>,
) -> bool {
    spec_plain_source(graph, knowledge, ports, impl_index, g) || spec_is_port_operation(graph, ports, g)
}

/// `g` waits in the queue at or after `head`.
pub open spec fn spec_waiting(pending: Seq<DefPath>, head: int, g: Seq<char>) -> bool {
    exists|p: int| head <= p < pending.len() && #[trigger] pending[p]@ == g
}

/// Every open caller of `g` holds what a call hands on from `v`.
pub open spec fn spec_handed_value<'a>(
    graph: FnGraph,
    knowledge: CapabilityKnowledgeView<'a>,
    ports: PathSet,
    g: Seq<char>,
    v: CapabilitySet,
    m: PathMap<CapabilitySet>,
) -> bool {
    forall|f: Seq<char>| #[trigger] spec_calls(graph, f, g) && spec_open_caller(graph, knowledge, ports, f)
        ==> m.has_key(f) && spec_includes(m.spec_get(f)->0, spec_call_edge_caps(v))
}

/// What `g` has published matches its entry: the port marker for a port
/// operation, the propagated part of its entry for a plain function.
pub open spec fn spec_settled_entry(
    graph: FnGraph,
    ports: PathSet,
    published: PathMap<CapabilitySet>,
    m: PathMap<CapabilitySet>,
    g: Seq<char>,
) -> bool {
    if spec_is_port_operation(graph, ports, g) {
        published.has_key(g) && published.spec_get(g)->0.p
    } else {
        spec_propagated(m.spec_get(g)->0) == spec_entry_or_empty(published, g)
    }
}

/// The queue state: a queued function waits; every tracked function has an
/// entry and (unless it is the one being processed) waits or is settled; a
/// plain function has published no more than the propagated part of its
/// entry; and what a tracked function published has reached its open
/// callers.
pub closed spec fn spec_flow_law<'a>(
    graph: FnGraph,
    knowledge: CapabilityKnowledgeView<'a>,
    ports: PathSet,
    impl_index: ImplIndex,
    pending: Seq<DefPath>,
    head: int,
    queued: PathMap<bool>,
    published: PathMap<CapabilitySet>,
    m: PathMap<CapabilitySet>,
    busy: Option<Seq<char>>,
) -> bool {
    &&& forall|k: Seq<char>| #[trigger] queued.spec_get(k) == Some(true) ==> spec_waiting(pending, head, k)
    &&& forall|g: Seq<char>| #[trigger] spec_tracked(graph, knowledge, ports, impl_index, g) ==> m.has_key(g)
    &&& forall|g: Seq<char>| #[trigger] spec_tracked(graph, knowledge, ports, impl_index, g) && busy != Some(g)
        ==> spec_waiting(pending, head, g) || spec_settled_entry(graph, ports, published, m, g)
    &&& forall|g: Seq<char>| #[trigger] spec_plain_source(graph, knowledge, ports, impl_index, g) && published.has_key(g)
        ==> spec_includes(spec_propagated(m.spec_get(g)->0), published.spec_get(g)->0)
    &&& forall|g: Seq<char>| #[trigger] spec_tracked(graph, knowledge, ports, impl_index, g) && published.has_key(g)
        ==> spec_handed_value(graph, knowledge, ports, g, published.spec_get(g)->0, m)
}

/// What the queue state gives for one function.
pub proof fn lemma_flow_facts<'a>(
    graph: FnGraph,
    knowledge: CapabilityKnowledgeView<'a>,
    ports: PathSet,
    impl_index: ImplIndex,
    pending: Seq<DefPath>,
    head: int,
    queued: PathMap<bool>,
    published: PathMap<CapabilitySet>,
    m: PathMap<CapabilitySet>,
    busy: Option<Seq<char>>,
    g: Seq<char>,
)
    requires
        spec_flow_law(graph, knowledge, ports, impl_index, pending, head, queued, published, m, busy),
    ensures
        queued.spec_get(g) == Some(true) ==> spec_waiting(pending, head, g),
        spec_tracked(graph, knowledge, ports, impl_index, g) ==> m.has_key(g),
        spec_tracked(graph, knowledge, ports, impl_index, g) && busy != Some(g)
            ==> spec_waiting(pending, head, g) || spec_settled_entry(graph, ports, published, m, g),
        spec_plain_source(graph, knowledge, ports, impl_index, g) && published.has_key(g)
            ==> spec_includes(spec_propagated(m.spec_get(g)->0), published.spec_get(g)->0),
        spec_tracked(graph, knowledge, ports, impl_index, g) && published.has_key(g)
            ==> spec_handed_value(graph, knowledge, ports, g, published.spec_get(g)->0, m),
{
}

/// The queue state at the start: every queued function waits, every
/// tracked function has an entry and waits or is settled, and nothing is
/// published.
pub proof fn lemma_flow_start<'a>(
    graph: FnGraph,
    knowledge: CapabilityKnowledgeView<'a>,
    ports: PathSet,
    impl_index: ImplIndex,
    pending: Seq<DefPath>,
    queued: PathMap<bool>,
    published: PathMap<CapabilitySet>,
    m: PathMap<CapabilitySet>,
)
    requires
        forall|k: Seq<char>| #[trigger] queued.spec_get(k) == Some(true) ==> spec_waiting(pending, 0, k),
        forall|g: Seq<char>| #[trigger] spec_tracked(graph, knowledge, ports, impl_index, g) ==> m.has_key(g)
            && (spec_waiting(pending, 0, g) || spec_settled_entry(graph, ports, published, m, g)),
        forall|g: Seq<char>| !#[trigger] published.has_key(g),
    ensures
        spec_flow_law(graph, knowledge, ports, impl_index, pending, 0, queued, published, m, None),
{
}

/// The entries grow, the queue only appends, and every plain function whose
/// entry changed is queued: the law still holds.
pub proof fn lemma_flow_grow<'a>(
    graph: FnGraph,
    knowledge: CapabilityKnowledgeView<'a>,
    ports: PathSet,
    impl_index: ImplIndex,
    pend1: Seq<DefPath>,
    pend2: Seq<DefPath>,
    head: int,
    q1: PathMap<bool>,
    q2: PathMap<bool>,
    published: PathMap<CapabilitySet>,
    m1: PathMap<CapabilitySet>,
    m2: PathMap<CapabilitySet>,
    busy: Option<Seq<char>>,
)
    requires
        spec_flow_law(graph, knowledge, ports, impl_index, pend1, head, q1, published, m1, busy),
        0 <= head <= pend1.len(),
        pend2.len() >= pend1.len(),
        forall|i: int| 0 <= i < pend1.len() ==> #[trigger] pend2[i] == pend1[i],
        spec_grows(m1, m2),
        forall|k: Seq<char>| #[trigger] q2.spec_get(k) == Some(true)
            ==> q1.spec_get(k) == Some(true) || exists|i: int| pend1.len() <= i < pend2.len() && #[trigger] pend2[i]@ == k,
        forall|k: Seq<char>| #[trigger] spec_plain_source(graph, knowledge, ports, impl_index, k) && m2.spec_get(k) != m1.spec_get(k)
            ==> q2.spec_get(k) == Some(true),
    ensures
        spec_flow_law(graph, knowledge, ports, impl_index, pend2, head, q2, published, m2, busy),
{
    assert forall|k: Seq<char>| spec_waiting(pend1, head, k) implies spec_waiting(pend2, head, k) by {
        let p = choose|p: int| head <= p < pend1.len() && #[trigger] pend1[p]@ == k;
        assert(pend2[p] == pend1[p]);
    }
    assert forall|k: Seq<char>| #[trigger] q2.spec_get(k) == Some(true) implies spec_waiting(pend2, head, k) by {
        if q1.spec_get(k) == Some(true) {
            assert(spec_waiting(pend1, head, k));
        } else {
            let i = choose|i: int| pend1.len() <= i < pend2.len() && #[trigger] pend2[i]@ == k;
            assert(head <= i);
        }
    }
    assert forall|g: Seq<char>| #[trigger] spec_tracked(graph, knowledge, ports, impl_index, g) && busy != Some(g)
        implies spec_waiting(pend2, head, g) || spec_settled_entry(graph, ports, published, m2, g) by {
        assert(m1.has_key(g));
        if spec_waiting(pend1, head, g) {
        } else if spec_plain_source(graph, knowledge, ports, impl_index, g) && m2.spec_get(g) != m1.spec_get(g) {
            assert(q2.spec_get(g) == Some(true));
        }
    }
    assert forall|g: Seq<char>| #[trigger] spec_plain_source(graph, knowledge, ports, impl_index, g) && published.has_key(g)
        implies spec_includes(spec_propagated(m2.spec_get(g)->0), published.spec_get(g)->0) by {
        assert(spec_tracked(graph, knowledge, ports, impl_index, g));
        assert(m1.has_key(g));
        lemma_propagated_mono(m2.spec_get(g)->0, m1.spec_get(g)->0);
        lemma_includes_trans(spec_propagated(m2.spec_get(g)->0), spec_propagated(m1.spec_get(g)->0), published.spec_get(g)->0);
    }
    assert forall|g: Seq<char>| #[trigger] spec_tracked(graph, knowledge, ports, impl_index, g) && published.has_key(g)
        implies spec_handed_value(graph, knowledge, ports, g, published.spec_get(g)->0, m2) by {
        assert forall|f: Seq<char>| #[trigger] spec_calls(graph, f, g) && spec_open_caller(graph, knowledge, ports, f)
            implies m2.has_key(f) && spec_includes(m2.spec_get(f)->0, spec_call_edge_caps(published.spec_get(g)->0)) by {
            assert(spec_handed_value(graph, knowledge, ports, g, published.spec_get(g)->0, m1));
            assert(m1.has_key(f));
            lemma_includes_trans(m2.spec_get(f)->0, m1.spec_get(f)->0, spec_call_edge_caps(published.spec_get(g)->0));
        }
    }
}

/// Taking the head of the queue: the law holds past it, with the taken
/// function as the one being processed.
pub proof fn lemma_flow_pop<'a>(
    graph: FnGraph,
    knowledge: CapabilityKnowledgeView<'a>,
    ports: PathSet,
    impl_index: ImplIndex,
    pending: Seq<DefPath>,
    head: int,
    q1: PathMap<bool>,
    q2: PathMap<bool>,
    published: PathMap<CapabilitySet>,
    m: PathMap<CapabilitySet>,
    func: Seq<char>,
)
    requires
        spec_flow_law(graph, knowledge, ports, impl_index, pending, head, q1, published, m, None),
        0 <= head < pending.len(),
        pending[head]@ == func,
        forall|k: Seq<char>| #[trigger] q2.spec_get(k) == if k == func { Some(false) } else { q1.spec_get(k) },
    ensures
        spec_flow_law(graph, knowledge, ports, impl_index, pending, head + 1, q2, published, m, Some(func)),
{
    assert forall|k: Seq<char>| spec_waiting(pending, head, k) && k != func implies spec_waiting(pending, head + 1, k) by {
        let p = choose|p: int| head <= p < pending.len() && #[trigger] pending[p]@ == k;
        assert(p != head);
    }
    assert forall|k: Seq<char>| #[trigger] q2.spec_get(k) == Some(true) implies spec_waiting(pending, head + 1, k) by {
        assert(q1.spec_get(k) == Some(true));
    }
    assert forall|g: Seq<char>| #[trigger] spec_tracked(graph, knowledge, ports, impl_index, g) && Some(func) != Some(g)
        implies spec_waiting(pending, head + 1, g) || spec_settled_entry(graph, ports, published, m, g) by {
        assert(None::<Seq<char>> != Some(g));
    }
}

/// Publishing the propagated part of `eff` for the function being
/// processed, once its open callers hold what a call hands on from `eff`.
pub proof fn lemma_flow_publish<'a>(
    graph: FnGraph,
    knowledge: CapabilityKnowledgeView<'a>,
    ports: PathSet,
    impl_index: ImplIndex,
    pending: Seq<DefPath>,
    head: int,
    queued: PathMap<bool>,
    pub1: PathMap<CapabilitySet>,
    pub2: PathMap<CapabilitySet>,
    m: PathMap<CapabilitySet>,
    func: Seq<char>,
    eff: CapabilitySet,
)
    requires
        spec_flow_law(graph, knowledge, ports, impl_index, pending, head, queued, pub1, m, Some(func)),
        forall|k: Seq<char>| k != func ==> #[trigger] pub2.spec_get(k) == pub1.spec_get(k),
        pub2.spec_get(func) == Some(spec_union(spec_entry_or_empty(pub1, func), spec_propagated(eff))),
        spec_tracked(graph, knowledge, ports, impl_index, func) ==> spec_handed_value(graph, knowledge, ports, func, eff, m),
        spec_plain_source(graph, knowledge, ports, impl_index, func) ==> spec_includes(m.spec_get(func)->0, eff)
            && spec_includes(spec_propagated(eff), spec_entry_or_empty(pub1, func)),
        spec_is_port_operation(graph, ports, func) ==> eff.p,
    ensures
        spec_flow_law(graph, knowledge, ports, impl_index, pending, head, queued, pub2, m, Some(func)),
        spec_plain_source(graph, knowledge, ports, impl_index, func) ==> pub2.spec_get(func) == Some(spec_propagated(eff)),
        spec_is_port_operation(graph, ports, func) ==> pub2.spec_get(func)->0.p,
{
    let u = spec_union(spec_entry_or_empty(pub1, func), spec_propagated(eff));
    lemma_edge_of_propagated(eff);
    if spec_plain_source(graph, knowledge, ports, impl_index, func) {
        crate::capability::lemma_union_within(spec_propagated(eff), spec_entry_or_empty(pub1, func), spec_propagated(eff));
        assert(spec_includes(u, spec_propagated(eff)));
        lemma_includes_antisym(u, spec_propagated(eff));
    }
    if spec_is_port_operation(graph, ports, func) {
        assert(spec_propagated(eff).p);
        assert(u.p);
        assert(spec_call_edge_caps(u) == spec_call_edge_caps(eff));
    }
    assert forall|g: Seq<char>| spec_entry_or_empty(pub2, g) == spec_entry_or_empty(pub1, g) || g == func by {
        if g != func {
            assert(pub2.spec_get(g) == pub1.spec_get(g));
        }
    }
    assert forall|g: Seq<char>| #[trigger] spec_tracked(graph, knowledge, ports, impl_index, g) && Some(func) != Some(g)
        implies spec_waiting(pending, head, g) || spec_settled_entry(graph, ports, pub2, m, g) by {
        assert(pub2.spec_get(g) == pub1.spec_get(g));
        assert(spec_entry_or_empty(pub2, g) == spec_entry_or_empty(pub1, g));
    }
    assert forall|g: Seq<char>| #[trigger] spec_plain_source(graph, knowledge, ports, impl_index, g) && pub2.has_key(g)
        implies spec_includes(spec_propagated(m.spec_get(g)->0), pub2.spec_get(g)->0) by {
        if g == func {
            lemma_propagated_mono(m.spec_get(g)->0, eff);
        } else {
            assert(pub2.spec_get(g) == pub1.spec_get(g));
        }
    }
    assert forall|g: Seq<char>| #[trigger] spec_tracked(graph, knowledge, ports, impl_index, g) && pub2.has_key(g)
        implies spec_handed_value(graph, knowledge, ports, g, pub2.spec_get(g)->0, m) by {
        if g == func {
            assert(spec_call_edge_caps(pub2.spec_get(g)->0) == spec_call_edge_caps(eff));
        } else {
            assert(pub2.spec_get(g) == pub1.spec_get(g));
        }
    }
}

/// Once the processed function waits again or is settled, the law holds in
/// full.
pub proof fn lemma_flow_release<'a>(
    graph: FnGraph,
    knowledge: CapabilityKnowledgeView<'a>,
    ports: PathSet,
    impl_index: ImplIndex,
    pending: Seq<DefPath>,
    head: int,
    queued: PathMap<bool>,
    published: PathMap<CapabilitySet>,
    m: PathMap<CapabilitySet>,
    func: Seq<char>,
)
    requires
        spec_flow_law(graph, knowledge, ports, impl_index, pending, head, queued, published, m, Some(func)),
        spec_tracked(graph, knowledge, ports, impl_index, func)
            ==> spec_waiting(pending, head, func) || spec_settled_entry(graph, ports, published, m, func),
    ensures
        spec_flow_law(graph, knowledge, ports, impl_index, pending, head, queued, published, m, None),
{
    assert forall|g: Seq<char>| #[trigger] spec_tracked(graph, knowledge, ports, impl_index, g) && None::<Seq<char>> != Some(g)
        implies spec_waiting(pending, head, g) || spec_settled_entry(graph, ports, published, m, g) by {
        if g != func {
            assert(Some(func) != Some(g));
        }
    }
}

/// The processed function hands on nothing: it is settled.
pub proof fn lemma_flow_empty<'a>(
    graph: FnGraph,
    knowledge: CapabilityKnowledgeView<'a>,
    ports: PathSet,
    impl_index: ImplIndex,
    pending: Seq<DefPath>,
    head: int,
    queued: PathMap<bool>,
    published: PathMap<CapabilitySet>,
    m: PathMap<CapabilitySet>,
    func: Seq<char>,
    eff: CapabilitySet,
)
    requires
        spec_flow_law(graph, knowledge, ports, impl_index, pending, head, queued, published, m, Some(func)),
        spec_propagated(eff) == spec_empty(),
        spec_plain_source(graph, knowledge, ports, impl_index, func) ==> m.spec_get(func) == Some(eff),
        spec_is_port_operation(graph, ports, func) ==> eff.p,
    ensures
        spec_flow_law(graph, knowledge, ports, impl_index, pending, head, queued, published, m, None),
{
    if spec_is_port_operation(graph, ports, func) {
        assert(spec_propagated(eff).p);
    }
    if spec_plain_source(graph, knowledge, ports, impl_index, func) && published.has_key(func) {
        lemma_empty_settles(eff, published.spec_get(func)->0);
    }
    lemma_flow_release(graph, knowledge, ports, impl_index, pending, head, queued, published, m, func);
}

/// Publishing changes nothing for the processed function: it is settled.
pub proof fn lemma_flow_keep<'a>(
    graph: FnGraph,
    knowledge: CapabilityKnowledgeView<'a>,
    ports: PathSet,
    impl_index: ImplIndex,
    pending: Seq<DefPath>,
    head: int,
    queued: PathMap<bool>,
    pub1: PathMap<CapabilitySet>,
    pub2: PathMap<CapabilitySet>,
    m: PathMap<CapabilitySet>,
    func: Seq<char>,
    eff: CapabilitySet,
)
    requires
        spec_flow_law(graph, knowledge, ports, impl_index, pending, head, queued, pub1, m, Some(func)),
        forall|k: Seq<char>| k != func ==> #[trigger] pub2.spec_get(k) == pub1.spec_get(k),
        pub2.spec_get(func) == Some(spec_union(spec_entry_or_empty(pub1, func), spec_propagated(eff))),
        spec_union(spec_entry_or_empty(pub1, func), spec_propagated(eff)) == spec_entry_or_empty(pub1, func),
        spec_propagated(eff) != spec_empty(),
        spec_plain_source(graph, knowledge, ports, impl_index, func) ==> m.spec_get(func) == Some(eff),
        spec_is_port_operation(graph, ports, func) ==> eff.p,
    ensures
        spec_flow_law(graph, knowledge, ports, impl_index, pending, head, queued, pub2, m, None),
{
    let prop = spec_propagated(eff);
    lemma_edge_of_propagated(eff);
    crate::capability::lemma_union_includes(spec_entry_or_empty(pub1, func), prop);
    if spec_tracked(graph, knowledge, ports, impl_index, func) {
        assert(pub1.has_key(func)) by {
            if !pub1.has_key(func) {
                lemma_includes_antisym(prop, spec_empty());
            }
        }
        let old_pub = pub1.spec_get(func)->0;
        if spec_plain_source(graph, knowledge, ports, impl_index, func) {
            lemma_includes_antisym(old_pub, prop);
        } else {
            assert(prop.p);
            assert(old_pub.p);
        }
        assert(spec_call_edge_caps(old_pub) == spec_call_edge_caps(eff));
        assert(spec_handed_value(graph, knowledge, ports, func, old_pub, m));
        assert(spec_handed_value(graph, knowledge, ports, func, eff, m));
    }
    lemma_flow_publish(graph, knowledge, ports, impl_index, pending, head, queued, pub1, pub2, m, func, eff);
    lemma_flow_release(graph, knowledge, ports, impl_index, pending, head, queued, pub2, m, func);
}

/// The processed function published what it holds and handed it to its
/// open callers: the law holds in full.
pub proof fn lemma_flow_finish<'a>(
    graph: FnGraph,
    knowledge: CapabilityKnowledgeView<'a>,
    ports: PathSet,
    impl_index: ImplIndex,
    pending: Seq<DefPath>,
    head: int,
    queued: PathMap<bool>,
    pub1: PathMap<CapabilitySet>,
    pub2: PathMap<CapabilitySet>,
    m: PathMap<CapabilitySet>,
    func: Seq<char>,
    eff: CapabilitySet,
)
    requires
        spec_flow_law(graph, knowledge, ports, impl_index, pending, head, queued, pub1, m, Some(func)),
        forall|k: Seq<char>| k != func ==> #[trigger] pub2.spec_get(k) == pub1.spec_get(k),
        pub2.spec_get(func) == Some(spec_union(spec_entry_or_empty(pub1, func), spec_propagated(eff))),
        spec_tracked(graph, knowledge, ports, impl_index, func) ==> spec_handed_value(graph, knowledge, ports, func, eff, m),
        spec_plain_source(graph, knowledge, ports, impl_index, func) ==> spec_includes(m.spec_get(func)->0, eff)
            && spec_includes(spec_propagated(eff), spec_entry_or_empty(pub1, func))
            && (spec_propagated(m.spec_get(func)->0) != spec_propagated(eff) ==> queued.spec_get(func) == Some(true)),
        spec_is_port_operation(graph, ports, func) ==> eff.p,
    ensures
        spec_flow_law(graph, knowledge, ports, impl_index, pending, head, queued, pub2, m, None),
{
    lemma_flow_publish(graph, knowledge, ports, impl_index, pending, head, queued, pub1, pub2, m, func, eff);
    lemma_flow_facts(graph, knowledge, ports, impl_index, pending, head, queued, pub2, m, Some(func), func);
    lemma_flow_release(graph, knowledge, ports, impl_index, pending, head, queued, pub2, m, func);
}

/// A settled plain function whose published part is at most empty publishes
/// exactly the empty set.
pub proof fn lemma_empty_settles(x: CapabilitySet, y: CapabilitySet)
    requires
        spec_propagated(x) == spec_empty(),
        spec_includes(spec_propagated(x), y),
    ensures
        spec_propagated(x) == y,
{
    lemma_includes_antisym(spec_propagated(x), y);
}

} // verus!
