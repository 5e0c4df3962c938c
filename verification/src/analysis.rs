//! The prepared analysis of a call graph: inferred capabilities, incomplete
//! paths and trait votes, computed once and shared by the contract diffs,
//! the trait outliers and the records of external dependencies.
use vstd::prelude::*;

use crate::artifacts::FnGraph;
use crate::capability::{
    CapabilityBasis, CapabilityCompleteness, CapabilityCounts, CapabilityInfo, CapabilitySet,
    spec_difference, spec_empty,
};
use crate::capsmap::CapsMap;
use crate::collections::{PathSet, rvs_list_add_M, rvs_set_contains, rvs_set_insert_M, rvs_set_new, spec_lists_have};
use crate::contracts::{FnContractDiff, rvs_contract_diff_for_expected_caps, spec_naming_caps};
use crate::function_classification::{FunctionClassification, LocalScope, spec_contains_target, spec_identity_local, spec_prefixes_of};
use crate::graph_index::{
    ImplIndex, InferenceDependents, rvs_aggregate_port_methods, rvs_build_impl_index,
    rvs_build_inference_dependents, rvs_scoped_port_methods, spec_is_aggregate_ports,
};
use crate::incompleteness::{rvs_incomplete_inference_paths_with_knowledge, spec_spread, spec_taint_barrier};
use crate::inference::{
    rvs_infer_caps_with_knowledge_and_ports, rvs_initial_caps_with_knowledge, spec_fixpoint_law, spec_inference_ok, spec_initial_caps,
    spec_resolver_over, spec_target_precedence,
};
use crate::names::{spec_expected_contract_name, spec_parsed_caps};
use crate::order::{lemma_lt_props, spec_lt};
use crate::pathmap::PathMap;
use crate::resolver::{
    CalleeCapsResolver, CapabilityKnowledgeView, TraitCapabilityVote, TraitVoteImplementation,
    rvs_resolve_impl_capability_vote_with_ports,
};
use crate::symbols::{CrateName, DefPath, spec_fn_name};

verus! {

/// The graph function's contract is enforced: local, no entrypoint, test or
/// trait impl method, and with a source location.
pub open spec fn spec_contract_enforced(prefixes: Seq<Seq<char>>, k: Seq<char>, node: crate::artifacts::FnNode) -> bool {
    &&& node.complete && spec_contains_target(prefixes, k, node.crate_provenance)
    &&& !node.is_entrypoint
    &&& !node.is_test
    &&& !node.is_trait_impl
    &&& node.sources@.len() > 0
}

/// The paths of the graph's enforced functions, in path order.
pub open spec fn spec_enforced_paths(prefixes: Seq<Seq<char>>, entries: Seq<(DefPath, crate::artifacts::FnNode)>) -> Seq<Seq<char>>
    decreases entries.len(),
{
    if entries.len() == 0 {
        Seq::empty()
    } else {
        let before = spec_enforced_paths(prefixes, entries.drop_last());
        if spec_contract_enforced(prefixes, entries.last().0@, entries.last().1) {
            before.push(entries.last().0@)
        } else {
            before
        }
    }
}

/// A contract diff is the one of `k` against `expected`.
pub open spec fn spec_diff_of(d: FnContractDiff, k: Seq<char>, expected: CapabilitySet, incomplete: bool) -> bool {
    &&& d.def_path@ == k
    &&& d.actual_name@ == spec_fn_name(k)
    &&& d.declared_public_caps == spec_parsed_caps(spec_fn_name(k))
    &&& d.expected_public_caps == expected
    &&& d.expected_name@ == spec_expected_contract_name(spec_fn_name(k),
        spec_naming_caps(expected, spec_parsed_caps(spec_fn_name(k)), incomplete))
}

/// The contract diff of every enforced graph function, in path order, each
/// against its inferred capabilities.
pub fn rvs_collect_contract_diffs_with_incomplete(
    graph: &FnGraph,
    inferred: &PathMap<CapabilitySet>,
    local_crate_names: &Vec<CrateName>,
    incomplete_paths: &PathSet,
) -> (r: Vec<FnContractDiff>)
    requires
        graph.wf(),
        inferred.wf(),
        incomplete_paths.wf(),
        forall|k: Seq<char>| #[trigger] graph.nodes.has_key(k) ==> inferred.has_key(k),
    ensures
        r@.len() == spec_enforced_paths(spec_prefixes_of(local_crate_names@), graph.nodes.entries@).len(),
        forall|i: int| 0 <= i < r@.len() ==> {
            let k = #[trigger] spec_enforced_paths(spec_prefixes_of(local_crate_names@), graph.nodes.entries@)[i];
            spec_diff_of(r@[i], k, inferred.spec_get(k)->0, incomplete_paths.has_key(k))
        },
{
    let scope = LocalScope::rvs_for_graph(local_crate_names, graph);
    let ghost prefixes = spec_prefixes_of(local_crate_names@);
    let mut diffs: Vec<FnContractDiff> = Vec::new();
    let mut i: usize = 0;
    while i < graph.rvs_len()
        invariant
            graph.wf(),
            inferred.wf(),
            incomplete_paths.wf(),
            forall|k: Seq<char>| #[trigger] graph.nodes.has_key(k) ==> inferred.has_key(k),
            scope.prefix_views() == prefixes,
            i <= graph.nodes.len_spec(),
            diffs@.len() == spec_enforced_paths(prefixes, graph.nodes.entries@.subrange(0, i as int)).len(),
            forall|j: int| 0 <= j < diffs@.len() ==> {
                let k = #[trigger] spec_enforced_paths(prefixes, graph.nodes.entries@.subrange(0, i as int))[j];
                spec_diff_of(diffs@[j], k, inferred.spec_get(k)->0, incomplete_paths.has_key(k))
            },
        decreases graph.nodes.len_spec() - i,
    {
        let def_path = graph.rvs_path_at(i);
        let node = graph.rvs_node_at(i);
        let ghost before = spec_enforced_paths(prefixes, graph.nodes.entries@.subrange(0, i as int));
        proof {
            assert(graph.nodes.entries@.subrange(0, i + 1).drop_last() =~= graph.nodes.entries@.subrange(0, i as int));
            assert(graph.nodes.entries@.subrange(0, i + 1).last() == graph.nodes.entries@[i as int]);
            graph.nodes.lemma_index_unique(i as int);
        }
        if FunctionClassification::rvs_new(&scope, def_path, node).rvs_is_contract_enforced() {
            let expected = match inferred.rvs_get(def_path.rvs_chars()) {
                Some(c) => *c,
                None => {
                    proof {
                        assert(graph.nodes.has_key(def_path@));
                    }
                    CapabilitySet::rvs_new()
                },
            };
            let diff = rvs_contract_diff_for_expected_caps(def_path, expected, rvs_set_contains(incomplete_paths, def_path));
            diffs.push(diff);
        }
        i = i + 1;
    }
    proof {
        assert(graph.nodes.entries@.subrange(0, graph.nodes.len_spec() as int) =~= graph.nodes.entries@);
    }
    diffs
}

/// The contract diffs of the enforced graph functions, with no path known to
/// be incomplete.
pub fn rvs_collect_contract_diffs(
    graph: &FnGraph,
    inferred: &PathMap<CapabilitySet>,
    local_crate_names: &Vec<CrateName>,
) -> (r: Vec<FnContractDiff>)
    requires
        graph.wf(),
        inferred.wf(),
        forall|k: Seq<char>| #[trigger] graph.nodes.has_key(k) ==> inferred.has_key(k),
    ensures
        r@.len() == spec_enforced_paths(spec_prefixes_of(local_crate_names@), graph.nodes.entries@).len(),
        forall|i: int| 0 <= i < r@.len() ==> {
            let k = #[trigger] spec_enforced_paths(spec_prefixes_of(local_crate_names@), graph.nodes.entries@)[i];
            spec_diff_of(r@[i], k, inferred.spec_get(k)->0, false)
        },
{
    let none: PathSet = rvs_set_new();
    rvs_collect_contract_diffs_with_incomplete(graph, inferred, local_crate_names, &none)
}

/// One trait implementation whose propagated capabilities go beyond what
/// its trait method's vote selected.
#[derive(Debug, Clone)]
pub struct TraitImplOutlier {
    pub trait_method: DefPath,
    pub implementation: DefPath,
    pub implementation_caps: CapabilitySet,
    pub selected_caps: CapabilitySet,
    pub unexpected_caps: CapabilitySet,
    pub implementations: usize,
    pub threshold: usize,
    pub counts: CapabilityCounts,
}

/// The vote of every trait method some graph implementation answers for,
/// keyed by trait method path.
pub fn rvs_collect_trait_votes_with_ports(
    graph: &FnGraph,
    impl_index: &ImplIndex,
    inferred: &PathMap<CapabilitySet>,
    incomplete_paths: &PathSet,
    port_methods: &PathSet,
) -> (r: PathMap<TraitCapabilityVote>)
    requires
        graph.wf(),
        impl_index.wf(),
        inferred.wf(),
        incomplete_paths.wf(),
        port_methods.wf(),
    ensures
        r.wf(),
        forall|k: Seq<char>| #[trigger] r.has_key(k) ==> r.spec_get(k)->0.trait_method@ == k,
{
    let mut votes: PathMap<TraitCapabilityVote> = PathMap::rvs_new();
    let mut g: usize = 0;
    while g < impl_index.rvs_len()
        invariant
            graph.wf(),
            impl_index.wf(),
            inferred.wf(),
            incomplete_paths.wf(),
            port_methods.wf(),
            votes.wf(),
            g <= impl_index.len_spec(),
            forall|k: Seq<char>| #[trigger] votes.has_key(k) ==> votes.spec_get(k)->0.trait_method@ == k,
        decreases impl_index.len_spec() - g,
    {
        let implementations = impl_index.rvs_value_at(g);
        let mut trait_method: Option<DefPath> = None;
        let mut q: usize = 0;
        while q < implementations.len() && trait_method.is_none()
            invariant
                q <= implementations@.len(),
            decreases implementations@.len() - q,
        {
            trait_method = implementations[q].rvs_trait_method_path();
            q = q + 1;
        }
        match trait_method {
            Some(tm) => {
                if !votes.rvs_contains(tm.rvs_chars()) {
                    match rvs_resolve_impl_capability_vote_with_ports(&tm, impl_index, inferred, graph, incomplete_paths, Some(port_methods)) {
                        Some(vote) => {
                            votes.rvs_insert_M(tm, vote);
                        },
                        None => {},
                    }
                }
            },
            None => {},
        }
        g = g + 1;
    }
    votes
}

/// An outlier as plain values: trait method, implementation, the
/// implementation's capabilities, the selected ones and the unexpected ones.
pub open spec fn spec_outlier_view(o: TraitImplOutlier) -> (Seq<char>, Seq<char>, CapabilitySet, CapabilitySet, CapabilitySet) {
    (o.trait_method@, o.implementation@, o.implementation_caps, o.selected_caps, o.unexpected_caps)
}

/// The outlier a vote row gives: a complete, non-port vote; a local trait
/// impl method with a source; propagated capabilities beyond the selection.
pub open spec fn spec_is_outlier(prefixes: Seq<Seq<char>>, graph: FnGraph, vote: TraitCapabilityVote, row: TraitVoteImplementation) -> bool {
    &&& !vote.is_port
    &&& vote.spec_complete()
    &&& graph.nodes.has_key(row.path@)
    &&& {
        let node = graph.nodes.spec_get(row.path@)->0;
        &&& node.complete && spec_contains_target(prefixes, row.path@, node.crate_provenance)
        &&& node.is_trait_impl
        &&& !node.facts.is_port_method
        &&& node.sources@.len() > 0
    }
    &&& spec_difference(row.propagated_caps, vote.selected_caps) != spec_empty()
}

/// The outliers are sorted by implementation path.
pub open spec fn spec_outliers_sorted(s: Seq<TraitImplOutlier>) -> bool {
    forall|i: int, j: int| 0 <= i < j < s.len() ==> !spec_lt(#[trigger] s[j].implementation@, #[trigger] s[i].implementation@)
}

/// Inserts `x` after every outlier whose implementation does not sort after
/// it; returns the position.
#[allow(non_snake_case)]
#[verifier::spinoff_prover]
fn rvs_insert_outlier_M(items: &mut Vec<TraitImplOutlier>, x: TraitImplOutlier) -> (p: usize)
    requires
        spec_outliers_sorted(old(items)@),
    ensures
        spec_outliers_sorted(final(items)@),
        p <= old(items)@.len(),
        final(items)@ == old(items)@.insert(p as int, x),
{
    proof {
        lemma_lt_props();
    }
    let mut p: usize = 0;
    while p < items.len()
        invariant
            p <= items@.len(),
            forall|i: int| 0 <= i < p ==> !spec_lt(x.implementation@, #[trigger] items@[i].implementation@),
        ensures
            p <= items@.len(),
            forall|i: int| 0 <= i < p ==> !spec_lt(x.implementation@, #[trigger] items@[i].implementation@),
            p < items@.len() ==> spec_lt(x.implementation@, items@[p as int].implementation@),
        decreases items@.len() - p,
    {
        if items[p].implementation.rvs_compare(&x.implementation) > 0 {
            break;
        }
        p = p + 1;
    }
    proof {
        assert(p < items@.len() ==> spec_lt(x.implementation@, items@[p as int].implementation@));
    }
    let ghost before = items@;
    items.insert(p, x);
    proof {
        assert(items@ == before.insert(p as int, x));
        assert(spec_outliers_sorted(before));
        assert forall|i: int, j: int| 0 <= i < j < items@.len()
            implies !spec_lt(#[trigger] items@[j].implementation@, #[trigger] items@[i].implementation@) by {
            if j < p {
                assert(items@[i] == before[i] && items@[j] == before[j]);
            } else if j == p {
                assert(items@[i] == before[i]);
            } else if i == p {
                assert(items@[i] == x);
                assert(items@[j] == before[j - 1]);
                assert(p < before.len());
                assert(spec_lt(x.implementation@, before[p as int].implementation@));
                if j - 1 > p {
                    assert(!spec_lt(before[j - 1].implementation@, before[p as int].implementation@));
                    if spec_lt(before[j - 1].implementation@, x.implementation@) {
                        assert(spec_lt(before[j - 1].implementation@, before[p as int].implementation@));
                    }
                } else {
                    assert(j - 1 == p);
                    assert(!spec_lt(before[p as int].implementation@, x.implementation@));
                }
            } else if i < p {
                assert(items@[i] == before[i] && items@[j] == before[j - 1]);
            } else {
                assert(items@[i] == before[i - 1] && items@[j] == before[j - 1]);
            }
        }
    }
    p
}

/// The outlier a vote row gives, as the row and the vote it belongs to.
pub open spec fn spec_outlier_of(o: TraitImplOutlier, vote: TraitCapabilityVote, row: TraitVoteImplementation) -> bool {
    &&& o.trait_method@ == vote.trait_method@
    &&& o.implementation@ == row.path@
    &&& o.implementation_caps == row.propagated_caps
    &&& o.selected_caps == vote.selected_caps
    &&& o.unexpected_caps == spec_difference(row.propagated_caps, vote.selected_caps)
    &&& o.implementations == vote.implementations@.len()
    &&& o.threshold == vote.threshold
    &&& o.counts == vote.counts
}

/// Row `w` of vote `v` is an outlier and `o` is its outlier record.
pub open spec fn spec_row_outlier(
    prefixes: Seq<Seq<char>>,
    graph: FnGraph,
    votes: PathMap<TraitCapabilityVote>,
    v: int,
    w: int,
    o: TraitImplOutlier,
) -> bool {
    &&& 0 <= v < votes.len_spec()
    &&& 0 <= w < votes.val(v).implementations@.len()
    &&& spec_is_outlier(prefixes, graph, votes.val(v), votes.val(v).implementations@[w])
    &&& spec_outlier_of(o, votes.val(v), votes.val(v).implementations@[w])
}

/// `o` is the outlier record of some row.
pub open spec fn spec_from_some_row(prefixes: Seq<Seq<char>>, graph: FnGraph, votes: PathMap<TraitCapabilityVote>, o: TraitImplOutlier) -> bool {
    exists|v: int, w: int| #[trigger] spec_row_outlier(prefixes, graph, votes, v, w, o)
}

/// The trait impl outliers of the local graph, sorted by implementation:
/// every row of a complete, non-port vote whose implementation is a local
/// trait impl method with a source and whose propagated capabilities go
/// beyond the vote's selection.
pub fn rvs_collect_local_trait_vote_outliers(
    graph: &FnGraph,
    votes: &PathMap<TraitCapabilityVote>,
    local_crate_names: &Vec<CrateName>,
) -> (r: Vec<TraitImplOutlier>)
    requires
        graph.wf(),
    ensures
        spec_outliers_sorted(r@),
        forall|i: int| 0 <= i < r@.len() ==> spec_from_some_row(spec_prefixes_of(local_crate_names@), *graph, *votes, #[trigger] r@[i]),
        forall|v: int, w: int| 0 <= v < votes.len_spec() && 0 <= w < votes.val(v).implementations@.len()
            && spec_is_outlier(spec_prefixes_of(local_crate_names@), *graph, votes.val(v), #[trigger] votes.val(v).implementations@[w])
            ==> exists|i: int| 0 <= i < r@.len() && spec_outlier_of(#[trigger] r@[i], votes.val(v), votes.val(v).implementations@[w]),
{
    let scope = LocalScope::rvs_for_graph(local_crate_names, graph);
    let ghost prefixes = spec_prefixes_of(local_crate_names@);
    let mut outliers: Vec<TraitImplOutlier> = Vec::new();
    let mut v: usize = 0;
    while v < votes.rvs_len()
        invariant
            graph.wf(),
            scope.prefix_views() == prefixes,
            v <= votes.len_spec(),
            spec_outliers_sorted(outliers@),
            forall|i: int| 0 <= i < outliers@.len() ==> spec_from_some_row(prefixes, *graph, *votes, #[trigger] outliers@[i]),
            forall|vv: int, w: int| 0 <= vv < v && 0 <= w < votes.val(vv).implementations@.len()
                && spec_is_outlier(prefixes, *graph, votes.val(vv), #[trigger] votes.val(vv).implementations@[w])
                ==> exists|i: int| 0 <= i < outliers@.len() && spec_outlier_of(#[trigger] outliers@[i], votes.val(vv), votes.val(vv).implementations@[w]),
        decreases votes.len_spec() - v,
    {
        let vote = votes.rvs_value_at(v);
        let complete = vote.rvs_is_complete();
        let mut w: usize = 0;
        while w < vote.implementations.len()
            invariant
                graph.wf(),
                scope.prefix_views() == prefixes,
                v < votes.len_spec(),
                *vote == votes.val(v as int),
                complete == vote.spec_complete(),
                w <= vote.implementations@.len(),
                spec_outliers_sorted(outliers@),
                forall|i: int| 0 <= i < outliers@.len() ==> spec_from_some_row(prefixes, *graph, *votes, #[trigger] outliers@[i]),
                forall|vv: int, ww: int| (0 <= vv < v || (vv == v && ww < w)) && 0 <= ww < votes.val(vv).implementations@.len()
                    && spec_is_outlier(prefixes, *graph, votes.val(vv), #[trigger] votes.val(vv).implementations@[ww])
                    ==> exists|i: int| 0 <= i < outliers@.len() && spec_outlier_of(#[trigger] outliers@[i], votes.val(vv), votes.val(vv).implementations@[ww]),
            decreases vote.implementations@.len() - w,
        {
            let row = &vote.implementations[w];
            let ghost before = outliers@;
            if !vote.is_port && complete {
                match graph.rvs_get_path(&row.path) {
                    Some(node) => {
                        let class = FunctionClassification::rvs_new(&scope, &row.path, node);
                        let unexpected_caps = row.propagated_caps.rvs_difference(&vote.selected_caps);
                        if class.rvs_is_trait_vote_outlier_candidate() && !unexpected_caps.rvs_is_empty() {
                            let outlier = TraitImplOutlier {
                                trait_method: vote.trait_method.rvs_copy(),
                                implementation: row.path.rvs_copy(),
                                implementation_caps: row.propagated_caps,
                                selected_caps: vote.selected_caps,
                                unexpected_caps,
                                implementations: vote.implementations.len(),
                                threshold: vote.threshold,
                                counts: vote.counts,
                            };
                            proof {
                                assert(spec_is_outlier(prefixes, *graph, votes.val(v as int), votes.val(v as int).implementations@[w as int]));
                            }
                            let p = rvs_insert_outlier_M(&mut outliers, outlier);
                            proof {
                                assert forall|i: int| 0 <= i < outliers@.len() implies spec_from_some_row(prefixes, *graph, *votes, #[trigger] outliers@[i]) by {
                                    if i < p {
                                        assert(outliers@[i] == before[i]);
                                    } else if i == p {
                                        assert(spec_row_outlier(prefixes, *graph, *votes, v as int, w as int, outliers@[i]));
                                    } else {
                                        assert(outliers@[i] == before[i - 1]);
                                    }
                                }
                                assert forall|vv: int, ww: int| (0 <= vv < v || (vv == v && ww < w + 1)) && 0 <= ww < votes.val(vv).implementations@.len()
                                    && spec_is_outlier(prefixes, *graph, votes.val(vv), #[trigger] votes.val(vv).implementations@[ww])
                                    implies exists|i: int| 0 <= i < outliers@.len() && spec_outlier_of(#[trigger] outliers@[i], votes.val(vv), votes.val(vv).implementations@[ww]) by {
                                    if vv == v && ww == w {
                                        assert(spec_outlier_of(outliers@[p as int], votes.val(vv), votes.val(vv).implementations@[ww]));
                                    } else {
                                        let i = choose|i: int| 0 <= i < before.len() && spec_outlier_of(#[trigger] before[i], votes.val(vv), votes.val(vv).implementations@[ww]);
                                        if i < p {
                                            assert(outliers@[i] == before[i]);
                                        } else {
                                            assert(outliers@[i + 1] == before[i]);
                                        }
                                    }
                                }
                            }
                        }
                    },
                    None => {},
                }
            }
            w = w + 1;
        }
        v = v + 1;
    }
    outliers
}


/// The capabilities inferred for the graph from a seed capability map,
/// judging port methods by the graph's facts: at least what the propagation
/// rules force, and nothing beyond any bound closed under them.
pub fn rvs_infer_caps(graph: &FnGraph, seed: &CapsMap) -> (r: PathMap<CapabilitySet>)
    requires
        graph.wf(),
        seed.wf(),
    ensures
        exists|ports: PathSet, idx: ImplIndex| #[trigger] spec_is_aggregate_ports(*graph, ports) && #[trigger] spec_is_graph_impl_index(*graph, idx)
            && spec_inference_ok(*graph, CapabilityKnowledgeView { base: seed, overlay: None }, ports, r)
            && spec_fixpoint_law(*graph, CapabilityKnowledgeView { base: seed, overlay: None }, ports, idx, r),
{
    let impl_index = rvs_build_impl_index(graph);
    let r = rvs_infer_caps_with_index(graph, seed, &impl_index);
    proof {
        let ports = choose|ports: PathSet| #[trigger] spec_is_aggregate_ports(*graph, ports)
            && spec_inference_ok(*graph, CapabilityKnowledgeView { base: seed, overlay: None }, ports, r)
            && spec_fixpoint_law(*graph, CapabilityKnowledgeView { base: seed, overlay: None }, ports, impl_index, r);
        assert(spec_is_graph_impl_index(*graph, impl_index));
    }
    r
}

/// `idx` lists, under each trait method key, exactly the graph functions
/// that implement it.
pub open spec fn spec_is_graph_impl_index(graph: FnGraph, idx: ImplIndex) -> bool {
    &&& idx.wf()
    &&& forall|k: Seq<char>, x: Seq<char>| #[trigger] spec_lists_have(idx, k, x)
        <==> (graph.nodes.has_key(x) && crate::symbols::spec_impl_lookup_key(x) == Some(k))
}

/// The capabilities inferred for the graph with a given implementation
/// index, judging port methods by the graph's facts.
pub fn rvs_infer_caps_with_index(graph: &FnGraph, seed: &CapsMap, impl_index: &ImplIndex) -> (r: PathMap<CapabilitySet>)
    requires
        graph.wf(),
        seed.wf(),
        impl_index.wf(),
    ensures
        exists|ports: PathSet| #[trigger] spec_is_aggregate_ports(*graph, ports) && spec_inference_ok(*graph, CapabilityKnowledgeView { base: seed, overlay: None }, ports, r)
            && spec_fixpoint_law(*graph, CapabilityKnowledgeView { base: seed, overlay: None }, ports, *impl_index, r),
{
    let port_methods = rvs_aggregate_port_methods(graph);
    rvs_infer_caps_with_index_and_ports(graph, seed, impl_index, &port_methods)
}

/// The capabilities inferred for the graph with a given implementation
/// index and port method set.
pub fn rvs_infer_caps_with_index_and_ports(
    graph: &FnGraph,
    seed: &CapsMap,
    impl_index: &ImplIndex,
    port_methods: &PathSet,
) -> (r: PathMap<CapabilitySet>)
    requires
        graph.wf(),
        seed.wf(),
        impl_index.wf(),
        port_methods.wf(),
    ensures
        spec_inference_ok(*graph, CapabilityKnowledgeView { base: seed, overlay: None }, *port_methods, r),
        spec_fixpoint_law(*graph, CapabilityKnowledgeView { base: seed, overlay: None }, *port_methods, *impl_index, r),
{
    let dependents = rvs_build_inference_dependents(graph, impl_index);
    rvs_infer_caps_with_knowledge_and_ports(graph, CapabilityKnowledgeView::rvs_base(seed), impl_index, port_methods, &dependents)
}

/// The capabilities inferred for the graph from a seed overlaid by
/// `overlay`, with given reverse edges.
pub fn rvs_infer_caps_with_index_overlay_and_dependents(
    graph: &FnGraph,
    seed: &CapsMap,
    overlay: &PathMap<CapabilityInfo>,
    impl_index: &ImplIndex,
    dependents: &InferenceDependents,
) -> (r: PathMap<CapabilitySet>)
    requires
        graph.wf(),
        seed.wf(),
        overlay.wf(),
        impl_index.wf(),
        dependents.wf(),
        forall|callee: Seq<char>, caller: Seq<char>| #[trigger] spec_lists_have(dependents.callers, callee, caller)
            == crate::graph_index::spec_calls(*graph, caller, callee),
    ensures
        exists|ports: PathSet| #[trigger] spec_is_aggregate_ports(*graph, ports) && spec_inference_ok(*graph, CapabilityKnowledgeView { base: seed, overlay: Some(overlay) }, ports, r)
            && spec_fixpoint_law(*graph, CapabilityKnowledgeView { base: seed, overlay: Some(overlay) }, ports, *impl_index, r),
{
    let port_methods = rvs_aggregate_port_methods(graph);
    rvs_infer_caps_with_knowledge_and_ports(graph, CapabilityKnowledgeView::rvs_with_overlay(seed, overlay), impl_index, &port_methods, dependents)
}

/// The initial capabilities of every graph function, judging port methods by
/// the graph's facts.
pub fn rvs_initial_caps(graph: &FnGraph, seed: &CapsMap) -> (r: PathMap<CapabilitySet>)
    requires
        graph.wf(),
        seed.wf(),
    ensures
        r.wf(),
        forall|k: Seq<char>| #[trigger] r.has_key(k) == graph.nodes.has_key(k),
        exists|ports: PathSet| #[trigger] spec_is_aggregate_ports(*graph, ports) && forall|k: Seq<char>| graph.nodes.has_key(k)
            ==> #[trigger] r.spec_get(k) == Some(spec_initial_caps(ports, CapabilityKnowledgeView { base: seed, overlay: None }, k, graph.nodes.spec_get(k)->0)),
{
    let port_methods = rvs_aggregate_port_methods(graph);
    rvs_initial_caps_with_ports(graph, seed, &port_methods)
}

/// The initial capabilities of every graph function with a given port
/// method set.
pub fn rvs_initial_caps_with_ports(graph: &FnGraph, seed: &CapsMap, port_methods: &PathSet) -> (r: PathMap<CapabilitySet>)
    requires
        graph.wf(),
        seed.wf(),
        port_methods.wf(),
    ensures
        r.wf(),
        forall|k: Seq<char>| #[trigger] r.has_key(k) == graph.nodes.has_key(k),
        forall|k: Seq<char>| graph.nodes.has_key(k) ==> #[trigger] r.spec_get(k)
            == Some(spec_initial_caps(*port_methods, CapabilityKnowledgeView { base: seed, overlay: None }, k, graph.nodes.spec_get(k)->0)),
{
    rvs_initial_caps_with_knowledge(graph, CapabilityKnowledgeView::rvs_base(seed), port_methods)
}

/// What the incomplete path set promises: no barrier in it; every graph
/// function that is no barrier and whose analysis or record is incomplete in
/// it; and closed under spreading.
pub open spec fn spec_incomplete_ok<'a>(
    graph: FnGraph,
    knowledge: CapabilityKnowledgeView<'a>,
    ports: PathSet,
    inferred: PathMap<CapabilitySet>,
    dependents: InferenceDependents,
    r: PathSet,
) -> bool {
    &&& r.wf()
    &&& forall|k: Seq<char>| #[trigger] r.has_key(k) ==> !spec_taint_barrier(knowledge, k)
    &&& forall|k: Seq<char>| graph.nodes.has_key(k) && !spec_taint_barrier(knowledge, k)
        && (!graph.nodes.spec_get(k)->0.complete || crate::incompleteness::spec_incomplete_record(knowledge, ports, k)) ==> #[trigger] r.has_key(k)
    &&& forall|k: Seq<char>| #[trigger] r.has_key(k) ==> spec_spread(knowledge, inferred, dependents, k, r)
}

/// The incomplete paths of an inference from a seed, with a given port set.
pub fn rvs_incomplete_inference_paths_with_ports(
    graph: &FnGraph,
    seed: &CapsMap,
    inferred: &PathMap<CapabilitySet>,
    impl_index: &ImplIndex,
    port_methods: &PathSet,
) -> (r: PathSet)
    requires
        graph.wf(),
        seed.wf(),
        inferred.wf(),
        impl_index.wf(),
        port_methods.wf(),
    ensures
        exists|d: InferenceDependents| #[trigger] d.wf() && spec_incomplete_ok(*graph, CapabilityKnowledgeView { base: seed, overlay: None }, *port_methods, *inferred, d, r),
{
    let dependents = rvs_build_inference_dependents(graph, impl_index);
    rvs_incomplete_inference_paths_with_knowledge(graph, CapabilityKnowledgeView::rvs_base(seed), inferred, impl_index, port_methods, &dependents)
}

/// The incomplete paths of an inference from a seed, with the graph's own
/// port methods and dependents.
pub fn rvs_incomplete_inference_paths(
    graph: &FnGraph,
    seed: &CapsMap,
    inferred: &PathMap<CapabilitySet>,
    impl_index: &ImplIndex,
) -> (r: PathSet)
    requires
        graph.wf(),
        seed.wf(),
        inferred.wf(),
        impl_index.wf(),
    ensures
        exists|ports: PathSet, d: InferenceDependents| #[trigger] spec_is_aggregate_ports(*graph, ports) && #[trigger] d.wf()
            && spec_incomplete_ok(*graph, CapabilityKnowledgeView { base: seed, overlay: None }, ports, *inferred, d, r),
{
    let port_methods = rvs_aggregate_port_methods(graph);
    let dependents = rvs_build_inference_dependents(graph, impl_index);
    rvs_incomplete_inference_paths_with_knowledge(graph, CapabilityKnowledgeView::rvs_base(seed), inferred, impl_index, &port_methods, &dependents)
}

/// The incomplete paths of an inference from a seed overlaid by `overlay`.
pub fn rvs_incomplete_inference_paths_overlay_and_dependents(
    graph: &FnGraph,
    seed: &CapsMap,
    overlay: &PathMap<CapabilityInfo>,
    inferred: &PathMap<CapabilitySet>,
    impl_index: &ImplIndex,
    dependents: &InferenceDependents,
) -> (r: PathSet)
    requires
        graph.wf(),
        seed.wf(),
        overlay.wf(),
        inferred.wf(),
        impl_index.wf(),
        dependents.wf(),
    ensures
        exists|ports: PathSet| #[trigger] spec_is_aggregate_ports(*graph, ports) && spec_incomplete_ok(*graph, CapabilityKnowledgeView { base: seed, overlay: Some(overlay) }, ports, *inferred, *dependents, r),
{
    let port_methods = rvs_aggregate_port_methods(graph);
    rvs_incomplete_inference_paths_with_knowledge(graph, CapabilityKnowledgeView::rvs_with_overlay(seed, overlay), inferred, impl_index, &port_methods, dependents)
}

/// Inference of a graph prepared once: inferred capabilities, the
/// implementation index, the scoped port methods, the inferred paths that are
/// no graph function, the incomplete paths and the trait votes.
#[derive(Debug)]
pub struct PreparedInference {
    pub inferred: PathMap<CapabilitySet>,
    pub impl_index: ImplIndex,
    pub scoped_port_methods: PathSet,
    pub synthetic_paths: PathSet,
    pub incomplete_paths: PathSet,
    pub trait_votes: PathMap<TraitCapabilityVote>,
}

impl PreparedInference {
    pub open spec fn wf(self) -> bool {
        &&& self.inferred.wf()
        &&& self.impl_index.wf()
        &&& self.scoped_port_methods.wf()
        &&& self.synthetic_paths.wf()
        &&& self.incomplete_paths.wf()
        &&& self.trait_votes.wf()
    }

    /// Prepares the inference of `graph` from `seed`, with the port methods
    /// of the local crates.
    pub fn rvs_prepare(graph: &FnGraph, seed: &CapsMap, local_crate_names: &Vec<CrateName>) -> (r: PreparedInference)
        requires
            graph.wf(),
            seed.wf(),
        ensures
            r.wf(),
            spec_inference_ok(*graph, CapabilityKnowledgeView { base: seed, overlay: None }, r.scoped_port_methods, r.inferred),
            spec_fixpoint_law(*graph, CapabilityKnowledgeView { base: seed, overlay: None }, r.scoped_port_methods, r.impl_index, r.inferred),
            forall|k: Seq<char>| #[trigger] r.synthetic_paths.has_key(k) == (r.inferred.has_key(k) && !graph.nodes.has_key(k)),
            exists|d: InferenceDependents| #[trigger] d.wf() && spec_incomplete_ok(*graph, CapabilityKnowledgeView { base: seed, overlay: None },
                r.scoped_port_methods, r.inferred, d, r.incomplete_paths),
            forall|k: Seq<char>| #[trigger] r.trait_votes.has_key(k) ==> r.trait_votes.spec_get(k)->0.trait_method@ == k,
            forall|k: Seq<char>, x: Seq<char>| #[trigger] spec_lists_have(r.impl_index, k, x)
                <==> (graph.nodes.has_key(x) && crate::symbols::spec_impl_lookup_key(x) == Some(k)),
    {
        let scoped_port_methods = rvs_scoped_port_methods(graph, local_crate_names);
        let impl_index = rvs_build_impl_index(graph);
        let dependents = rvs_build_inference_dependents(graph, &impl_index);
        let inferred = rvs_infer_caps_with_knowledge_and_ports(graph, CapabilityKnowledgeView::rvs_base(seed), &impl_index, &scoped_port_methods, &dependents);
        let mut synthetic_paths: PathSet = rvs_set_new();
        let mut i: usize = 0;
        while i < inferred.rvs_len()
            invariant
                graph.wf(),
                inferred.wf(),
                synthetic_paths.wf(),
                i <= inferred.len_spec(),
                forall|k: Seq<char>| #[trigger] synthetic_paths.has_key(k)
                    == ((exists|j: int| 0 <= j < i && #[trigger] inferred.key(j) == k) && !graph.nodes.has_key(k)),
            decreases inferred.len_spec() - i,
        {
            let key = inferred.rvs_key_at(i);
            if graph.rvs_get_path(key).is_none() {
                let _ = rvs_set_insert_M(&mut synthetic_paths, key);
            }
            proof {
                assert forall|k: Seq<char>| #[trigger] synthetic_paths.has_key(k)
                    == ((exists|j: int| 0 <= j < i + 1 && #[trigger] inferred.key(j) == k) && !graph.nodes.has_key(k)) by {
                    if k == inferred.key(i as int) {
                        assert(inferred.key(i as int) == k);
                    } else if exists|j: int| 0 <= j < i + 1 && #[trigger] inferred.key(j) == k {
                        let j = choose|j: int| 0 <= j < i + 1 && #[trigger] inferred.key(j) == k;
                        assert(j < i);
                    }
                }
            }
            i = i + 1;
        }
        let incomplete_paths = rvs_incomplete_inference_paths_with_knowledge(graph, CapabilityKnowledgeView::rvs_base(seed), &inferred, &impl_index, &scoped_port_methods, &dependents);
        let trait_votes = rvs_collect_trait_votes_with_ports(graph, &impl_index, &inferred, &incomplete_paths, &scoped_port_methods);
        PreparedInference { inferred, impl_index, scoped_port_methods, synthetic_paths, incomplete_paths, trait_votes }
    }

    /// Prepares the inference of `graph`; the graph is left as it is.
    #[allow(non_snake_case)]
    pub fn rvs_prepare_M(graph: &mut FnGraph, seed: &CapsMap, local_crate_names: &Vec<CrateName>) -> (r: PreparedInference)
        requires
            old(graph).wf(),
            seed.wf(),
        ensures
            *final(graph) == *old(graph),
            r.wf(),
            spec_inference_ok(*final(graph), CapabilityKnowledgeView { base: seed, overlay: None }, r.scoped_port_methods, r.inferred),
            spec_fixpoint_law(*final(graph), CapabilityKnowledgeView { base: seed, overlay: None }, r.scoped_port_methods, r.impl_index, r.inferred),
            forall|k: Seq<char>| #[trigger] r.synthetic_paths.has_key(k) == (r.inferred.has_key(k) && !final(graph).nodes.has_key(k)),
            exists|d: InferenceDependents| #[trigger] d.wf() && spec_incomplete_ok(*final(graph), CapabilityKnowledgeView { base: seed, overlay: None },
                r.scoped_port_methods, r.inferred, d, r.incomplete_paths),
            forall|k: Seq<char>| #[trigger] r.trait_votes.has_key(k) ==> r.trait_votes.spec_get(k)->0.trait_method@ == k,
            forall|k: Seq<char>, x: Seq<char>| #[trigger] spec_lists_have(r.impl_index, k, x)
                <==> (final(graph).nodes.has_key(x) && crate::symbols::spec_impl_lookup_key(x) == Some(k)),
    {
        PreparedInference::rvs_prepare(graph, seed, local_crate_names)
    }

    /// The inferred capabilities.
    pub fn rvs_inferred(&self) -> (r: &PathMap<CapabilitySet>)
        ensures
            *r == self.inferred,
    {
        &self.inferred
    }

    /// The implementation index.
    pub fn rvs_impl_index(&self) -> (r: &ImplIndex)
        ensures
            *r == self.impl_index,
    {
        &self.impl_index
    }

    /// The inferred paths that are no graph function.
    pub fn rvs_synthetic_paths(&self) -> (r: &PathSet)
        ensures
            *r == self.synthetic_paths,
    {
        &self.synthetic_paths
    }

    /// The paths whose inferred capabilities are only a lower bound.
    pub fn rvs_incomplete_paths(&self) -> (r: &PathSet)
        ensures
            *r == self.incomplete_paths,
    {
        &self.incomplete_paths
    }

    /// The trait votes, by trait method.
    pub fn rvs_trait_votes(&self) -> (r: &PathMap<TraitCapabilityVote>)
        ensures
            *r == self.trait_votes,
    {
        &self.trait_votes
    }

    /// A resolver over the seed, this inference and its scoped port methods.
    pub fn rvs_resolver<'a>(&'a self, graph: &'a FnGraph, seed: &'a CapsMap) -> (r: CalleeCapsResolver<'a>)
        ensures
            r.graph == graph,
            r.knowledge.base == seed,
            r.knowledge.overlay is None,
            r.inferred == &self.inferred,
            r.impl_index == &self.impl_index,
            r.scoped_port_methods == Some(&self.scoped_port_methods),
    {
        CalleeCapsResolver::rvs_new_scoped(graph, seed, &self.inferred, &self.impl_index, &self.scoped_port_methods)
    }
}


/// Callee `c` of graph function `f` is external to a local target: `f` is
/// local by its target and `c` is not local by its identity.
pub open spec fn spec_external_call(prefixes: Seq<Seq<char>>, graph: FnGraph, f: Seq<char>, c: Seq<char>) -> bool {
    &&& graph.nodes.has_key(f)
    &&& spec_contains_target(prefixes, f, graph.nodes.spec_get(f)->0.crate_provenance)
    &&& exists|q: int| 0 <= q < graph.nodes.spec_get(f)->0.calls@.len()
        && #[trigger] graph.nodes.spec_get(f)->0.calls@[q].def_path@ == c
        && !spec_identity_local(prefixes, graph, graph.nodes.spec_get(f)->0.calls@[q])
}

/// The record an external callee gets: the vote of its implementations raised
/// to the resolved capabilities when it is a voted trait method, else an
/// inferred record of the resolved capabilities, complete unless the callee
/// is incomplete.
pub open spec fn spec_external_info(votes: PathMap<TraitCapabilityVote>, incomplete: PathSet, c: Seq<char>, caps: CapabilitySet) -> CapabilityInfo {
    match votes.spec_get(c) {
        Some(vote) => vote.spec_info_with_lower_bound(caps, incomplete.has_key(c)),
        None => CapabilityInfo {
            caps,
            basis: CapabilityBasis::Inferred,
            completeness: if incomplete.has_key(c) { CapabilityCompleteness::Incomplete } else { CapabilityCompleteness::Complete },
        },
    }
}

impl PreparedInference {
    /// The records of the external callees of local targets that the seed
    /// does not hold, and the callers of each external callee the resolver
    /// knows nothing of.  A record is built from what the resolver of this
    /// inference gives the callee as a propagation target; a callee is
    /// listed as unknown only when the resolver gives nothing.
    pub fn rvs_collect_direct_external_deps(
        &self,
        graph: &FnGraph,
        local_crate_names: &Vec<CrateName>,
        seed: &CapsMap,
    ) -> (r: (PathMap<CapabilityInfo>, PathMap<Vec<DefPath>>))
        requires
            self.wf(),
            graph.wf(),
            seed.wf(),
        ensures
            r.0.wf(),
            r.1.wf(),
            forall|c: Seq<char>| #[trigger] r.0.has_key(c) ==> seed.spec_info(c) is None
                && exists|f: Seq<char>| spec_external_call(spec_prefixes_of(local_crate_names@), *graph, f, c),
            forall|c: Seq<char>| #[trigger] r.0.has_key(c) ==> exists|caps: CapabilitySet|
                r.0.spec_get(c) == Some(#[trigger] spec_external_info(self.trait_votes, self.incomplete_paths, c, caps))
                && spec_resolver_over(graph, CapabilityKnowledgeView { base: seed, overlay: None }, &self.inferred, &self.impl_index, &self.scoped_port_methods).spec_resolved(c, spec_target_precedence(), Some(caps)),
            forall|c: Seq<char>, f: Seq<char>| #[trigger] spec_lists_have(r.1, c, f)
                ==> spec_resolver_over(graph, CapabilityKnowledgeView { base: seed, overlay: None }, &self.inferred, &self.impl_index, &self.scoped_port_methods).spec_resolved(c, spec_target_precedence(), None),
            forall|c: Seq<char>, f: Seq<char>| #[trigger] spec_lists_have(r.1, c, f)
                ==> seed.spec_info(c) is None && spec_external_call(spec_prefixes_of(local_crate_names@), *graph, f, c),
            forall|c: Seq<char>, f: Seq<char>| #[trigger] spec_external_call(spec_prefixes_of(local_crate_names@), *graph, f, c)
                && seed.spec_info(c) is None ==> r.0.has_key(c) || spec_lists_have(r.1, c, f),
    {
        let scope = LocalScope::rvs_for_graph(local_crate_names, graph);
        let ghost prefixes = spec_prefixes_of(local_crate_names@);
        let resolver = self.rvs_resolver(graph, seed);
        let mut known: PathMap<CapabilityInfo> = PathMap::rvs_new();
        let mut unknown: PathMap<Vec<DefPath>> = PathMap::rvs_new();
        let mut i: usize = 0;
        while i < graph.rvs_len()
            invariant
                self.wf(),
                graph.wf(),
                seed.wf(),
                resolver.wf(),
                resolver.knowledge.base == seed,
                resolver.knowledge.overlay is None,
                scope.prefix_views() == prefixes,
                prefixes == spec_prefixes_of(local_crate_names@),
                forall|id: u64| scope.primary_crate_ids@.contains(id) <==> exists|j: int| 0 <= j < graph.nodes.len_spec()
                    && #[trigger] graph.nodes.val(j).crate_id == id && graph.nodes.val(j).crate_provenance == crate::artifacts::CrateProvenance::PrimaryPackage,
                forall|id: u64| scope.dependency_crate_ids@.contains(id) <==> exists|j: int| 0 <= j < graph.nodes.len_spec()
                    && #[trigger] graph.nodes.val(j).crate_id == id && graph.nodes.val(j).crate_provenance == crate::artifacts::CrateProvenance::Dependency,
                known.wf(),
                unknown.wf(),
                i <= graph.nodes.len_spec(),
                forall|c: Seq<char>| #[trigger] known.has_key(c) ==> seed.spec_info(c) is None
                    && exists|f: Seq<char>| spec_external_call(prefixes, *graph, f, c),
                forall|c: Seq<char>| #[trigger] known.has_key(c) ==> exists|caps: CapabilitySet|
                    known.spec_get(c) == Some(#[trigger] spec_external_info(self.trait_votes, self.incomplete_paths, c, caps))
                    && resolver.spec_resolved(c, spec_target_precedence(), Some(caps)),
                forall|c: Seq<char>, f: Seq<char>| #[trigger] spec_lists_have(unknown, c, f)
                    ==> resolver.spec_resolved(c, spec_target_precedence(), None),
                forall|c: Seq<char>, f: Seq<char>| #[trigger] spec_lists_have(unknown, c, f)
                    ==> seed.spec_info(c) is None && spec_external_call(prefixes, *graph, f, c),
                forall|j: int, c: Seq<char>| 0 <= j < i && #[trigger] spec_external_call(prefixes, *graph, graph.nodes.key(j), c)
                    && seed.spec_info(c) is None ==> known.has_key(c) || spec_lists_have(unknown, c, graph.nodes.key(j)),
            decreases graph.nodes.len_spec() - i,
        {
            let func = graph.rvs_path_at(i);
            let node = graph.rvs_node_at(i);
            proof {
                graph.nodes.lemma_index_unique(i as int);
            }
            if scope.rvs_contains_target(func, node.crate_provenance) {
                let mut q: usize = 0;
                while q < node.calls.len()
                    invariant
                        self.wf(),
                        graph.wf(),
                        seed.wf(),
                        resolver.wf(),
                        resolver.knowledge.base == seed,
                        resolver.knowledge.overlay is None,
                        known.wf(),
                        unknown.wf(),
                        scope.prefix_views() == prefixes,
                        prefixes == spec_prefixes_of(local_crate_names@),
                        forall|id: u64| scope.primary_crate_ids@.contains(id) <==> exists|j: int| 0 <= j < graph.nodes.len_spec()
                            && #[trigger] graph.nodes.val(j).crate_id == id && graph.nodes.val(j).crate_provenance == crate::artifacts::CrateProvenance::PrimaryPackage,
                        forall|id: u64| scope.dependency_crate_ids@.contains(id) <==> exists|j: int| 0 <= j < graph.nodes.len_spec()
                            && #[trigger] graph.nodes.val(j).crate_id == id && graph.nodes.val(j).crate_provenance == crate::artifacts::CrateProvenance::Dependency,
                        i < graph.nodes.len_spec(),
                        func@ == graph.nodes.key(i as int),
                        *node == graph.nodes.val(i as int),
                        graph.nodes.spec_get(func@) == Some(*node),
                        spec_contains_target(prefixes, func@, node.crate_provenance),
                        q <= node.calls@.len(),
                        forall|c: Seq<char>| #[trigger] known.has_key(c) ==> seed.spec_info(c) is None
                            && exists|f: Seq<char>| spec_external_call(prefixes, *graph, f, c),
                        forall|c: Seq<char>| #[trigger] known.has_key(c) ==> exists|caps: CapabilitySet|
                            known.spec_get(c) == Some(#[trigger] spec_external_info(self.trait_votes, self.incomplete_paths, c, caps))
                            && resolver.spec_resolved(c, spec_target_precedence(), Some(caps)),
                        forall|c: Seq<char>, f: Seq<char>| #[trigger] spec_lists_have(unknown, c, f)
                            ==> resolver.spec_resolved(c, spec_target_precedence(), None),
                        forall|c: Seq<char>, f: Seq<char>| #[trigger] spec_lists_have(unknown, c, f)
                            ==> seed.spec_info(c) is None && spec_external_call(prefixes, *graph, f, c),
                        forall|j: int, c: Seq<char>| 0 <= j < i && #[trigger] spec_external_call(prefixes, *graph, graph.nodes.key(j), c)
                            && seed.spec_info(c) is None ==> known.has_key(c) || spec_lists_have(unknown, c, graph.nodes.key(j)),
                        forall|p: int| 0 <= p < q && !spec_identity_local(prefixes, *graph, #[trigger] node.calls@[p])
                            && seed.spec_info(node.calls@[p].def_path@) is None
                            ==> known.has_key(node.calls@[p].def_path@) || spec_lists_have(unknown, node.calls@[p].def_path@, func@),
                    decreases node.calls@.len() - q,
                {
                    let callee = &node.calls[q];
                    proof {
                        lemma_scope_identity_for(scope, local_crate_names@, *graph, *callee);
                    }
                    let local = scope.rvs_contains_identity(callee);
                    let ghost known_before = known;
                    let ghost unknown_before = unknown;
                    if !local && seed.rvs_lookup_def_path(&callee.def_path).is_none() {
                        proof {
                            assert(spec_external_call(prefixes, *graph, func@, callee.def_path@));
                        }
                        let found = resolver.rvs_for_propagation_target(&callee.def_path);
                        proof {
                            assert(resolver.spec_resolved(callee.def_path@, spec_target_precedence(), found));
                        }
                        match found {
                            Some(caps) => {
                                let incomplete = rvs_set_contains(&self.incomplete_paths, &callee.def_path);
                                let info = match self.trait_votes.rvs_get(callee.def_path.rvs_chars()) {
                                    Some(vote) => vote.rvs_capability_info_with_lower_bound(&caps, incomplete),
                                    None => CapabilityInfo::rvs_new(caps, CapabilityBasis::Inferred,
                                        if incomplete { CapabilityCompleteness::Incomplete } else { CapabilityCompleteness::Complete }),
                                };
                                if !known.rvs_contains(callee.def_path.rvs_chars()) {
                                    proof {
                                        assert(info == spec_external_info(self.trait_votes, self.incomplete_paths, callee.def_path@, caps));
                                    }
                                    known.rvs_insert_M(callee.def_path.rvs_copy(), info);
                                }
                            },
                            None => {
                                rvs_list_add_M(&mut unknown, &callee.def_path, func);
                            },
                        }
                    }
                    proof {
                        assert forall|c: Seq<char>| #[trigger] known.has_key(c) implies exists|caps: CapabilitySet|
                            known.spec_get(c) == Some(#[trigger] spec_external_info(self.trait_votes, self.incomplete_paths, c, caps))
                            && resolver.spec_resolved(c, spec_target_precedence(), Some(caps)) by {
                            if c != callee.def_path@ || known_before.has_key(c) {
                                assert(known_before.has_key(c));
                                assert(known.spec_get(c) == known_before.spec_get(c));
                            }
                        }
                        assert forall|c: Seq<char>, f: Seq<char>| #[trigger] spec_lists_have(unknown, c, f)
                            implies resolver.spec_resolved(c, spec_target_precedence(), None) by {
                            if !spec_lists_have(unknown_before, c, f) {
                                assert(c == callee.def_path@ && f == func@);
                            }
                        }
                        assert forall|c: Seq<char>| #[trigger] known.has_key(c) implies seed.spec_info(c) is None
                            && exists|f: Seq<char>| spec_external_call(prefixes, *graph, f, c) by {
                            if c == callee.def_path@ && !known_before.has_key(c) {
                                assert(spec_external_call(prefixes, *graph, func@, c));
                            }
                        }
                        assert forall|c: Seq<char>, f: Seq<char>| #[trigger] spec_lists_have(unknown, c, f)
                            implies seed.spec_info(c) is None && spec_external_call(prefixes, *graph, f, c) by {
                            if !spec_lists_have(unknown_before, c, f) {
                                assert(c == callee.def_path@ && f == func@);
                            }
                        }
                        assert forall|p: int| 0 <= p < q + 1 && !spec_identity_local(prefixes, *graph, #[trigger] node.calls@[p])
                            && seed.spec_info(node.calls@[p].def_path@) is None
                            implies known.has_key(node.calls@[p].def_path@) || spec_lists_have(unknown, node.calls@[p].def_path@, func@) by {
                            if p < q {
                                if known_before.has_key(node.calls@[p].def_path@) {
                                } else {
                                    assert(spec_lists_have(unknown_before, node.calls@[p].def_path@, func@));
                                }
                            }
                        }
                        assert forall|j: int, c: Seq<char>| 0 <= j < i && #[trigger] spec_external_call(prefixes, *graph, graph.nodes.key(j), c)
                            && seed.spec_info(c) is None implies known.has_key(c) || spec_lists_have(unknown, c, graph.nodes.key(j)) by {
                            if known_before.has_key(c) {
                            } else {
                                assert(spec_lists_have(unknown_before, c, graph.nodes.key(j)));
                            }
                        }
                    }
                    q = q + 1;
                }
                proof {
                    assert forall|c: Seq<char>| spec_external_call(prefixes, *graph, func@, c) && seed.spec_info(c) is None
                        implies known.has_key(c) || spec_lists_have(unknown, c, func@) by {
                        let p = choose|p: int| 0 <= p < graph.nodes.spec_get(func@)->0.calls@.len()
                            && #[trigger] graph.nodes.spec_get(func@)->0.calls@[p].def_path@ == c
                            && !spec_identity_local(prefixes, *graph, graph.nodes.spec_get(func@)->0.calls@[p]);
                        assert(node.calls@[p].def_path@ == c);
                    }
                }
            }
            proof {
                assert forall|j: int, c: Seq<char>| 0 <= j < i + 1 && #[trigger] spec_external_call(prefixes, *graph, graph.nodes.key(j), c)
                    && seed.spec_info(c) is None implies known.has_key(c) || spec_lists_have(unknown, c, graph.nodes.key(j)) by {
                    if j == i {
                        assert(graph.nodes.key(j) == func@);
                    }
                }
            }
            i = i + 1;
        }
        proof {
            assert forall|c: Seq<char>, f: Seq<char>| #[trigger] spec_external_call(prefixes, *graph, f, c)
                && seed.spec_info(c) is None implies known.has_key(c) || spec_lists_have(unknown, c, f) by {
                let j = graph.nodes.index_of(f);
                graph.nodes.lemma_index_unique(j);
                assert(graph.nodes.key(j) == f);
            }
            assert(resolver == spec_resolver_over(graph, CapabilityKnowledgeView { base: seed, overlay: None }, &self.inferred,
                &self.impl_index, &self.scoped_port_methods));
        }
        (known, unknown)
    }
}

proof fn lemma_scope_identity_for(scope: LocalScope, names: Seq<CrateName>, graph: FnGraph, identity: crate::artifacts::FunctionIdentity)
    requires
        scope.prefix_views() == names.map_values(|n: CrateName| crate::symbols::spec_crate_prefix(n.chars@)),
        forall|id: u64| scope.primary_crate_ids@.contains(id) <==> exists|i: int| 0 <= i < graph.nodes.len_spec()
            && #[trigger] graph.nodes.val(i).crate_id == id && graph.nodes.val(i).crate_provenance == crate::artifacts::CrateProvenance::PrimaryPackage,
        forall|id: u64| scope.dependency_crate_ids@.contains(id) <==> exists|i: int| 0 <= i < graph.nodes.len_spec()
            && #[trigger] graph.nodes.val(i).crate_id == id && graph.nodes.val(i).crate_provenance == crate::artifacts::CrateProvenance::Dependency,
    ensures
        (if identity.crate_id == 0 {
            crate::function_classification::spec_scope_contains(scope.prefix_views(), identity.def_path@)
        } else if scope.primary_crate_ids@.contains(identity.crate_id) {
            true
        } else if scope.dependency_crate_ids@.contains(identity.crate_id) {
            false
        } else {
            crate::function_classification::spec_scope_contains(scope.prefix_views(), identity.def_path@)
        }) == crate::function_classification::spec_identity_local(spec_prefixes_of(names), graph, identity),
{
    crate::function_classification::lemma_scope_identity(scope, names, graph, identity);
}


/// The records of the external callees of local targets and the callers of
/// those nothing is known of, for a given inference.
pub fn rvs_collect_direct_external_deps(
    graph: &FnGraph,
    local_crate_names: &Vec<CrateName>,
    seed: &CapsMap,
    inferred: &PathMap<CapabilitySet>,
    impl_index: &ImplIndex,
) -> (r: (PathMap<CapabilityInfo>, PathMap<Vec<DefPath>>))
    requires
        graph.wf(),
        seed.wf(),
        inferred.wf(),
        impl_index.wf(),
    ensures
        r.0.wf(),
        r.1.wf(),
        forall|c: Seq<char>| #[trigger] r.0.has_key(c) ==> seed.spec_info(c) is None
            && exists|f: Seq<char>| spec_external_call(spec_prefixes_of(local_crate_names@), *graph, f, c),
        forall|c: Seq<char>, f: Seq<char>| #[trigger] spec_lists_have(r.1, c, f)
            ==> seed.spec_info(c) is None && spec_external_call(spec_prefixes_of(local_crate_names@), *graph, f, c),
        forall|c: Seq<char>, f: Seq<char>| #[trigger] spec_external_call(spec_prefixes_of(local_crate_names@), *graph, f, c)
            && seed.spec_info(c) is None ==> r.0.has_key(c) || spec_lists_have(r.1, c, f),
{
    let scoped_port_methods = rvs_scoped_port_methods(graph, local_crate_names);
    let incomplete_paths = rvs_incomplete_inference_paths_with_ports(graph, seed, inferred, impl_index, &scoped_port_methods);
    let trait_votes = rvs_collect_trait_votes_with_ports(graph, impl_index, inferred, &incomplete_paths, &scoped_port_methods);
    let prepared = PreparedInference {
        inferred: inferred.rvs_copy(),
        impl_index: crate::collections::rvs_copy_lists(impl_index),
        scoped_port_methods,
        synthetic_paths: rvs_set_new(),
        incomplete_paths,
        trait_votes,
    };
    prepared.rvs_collect_direct_external_deps(graph, local_crate_names, seed)
}

/// The local analysis of a graph: the prepared inference, the contract diff
/// of every enforced function and the trait impl outliers.
#[derive(Debug)]
pub struct PreparedLocalAnalysis {
    pub diffs: Vec<FnContractDiff>,
    pub trait_impl_outliers: Vec<TraitImplOutlier>,
    pub inference: PreparedInference,
}

impl PreparedLocalAnalysis {
    /// Prepares the local analysis of `graph` from `seed`.
    pub fn rvs_prepare(graph: &FnGraph, seed: &CapsMap, local_crate_names: &Vec<CrateName>) -> (r: PreparedLocalAnalysis)
        requires
            graph.wf(),
            seed.wf(),
        ensures
            r.inference.wf(),
            spec_inference_ok(*graph, CapabilityKnowledgeView { base: seed, overlay: None }, r.inference.scoped_port_methods, r.inference.inferred),
            spec_fixpoint_law(*graph, CapabilityKnowledgeView { base: seed, overlay: None }, r.inference.scoped_port_methods, r.inference.impl_index, r.inference.inferred),
            forall|k: Seq<char>| #[trigger] r.inference.synthetic_paths.has_key(k) == (r.inference.inferred.has_key(k) && !graph.nodes.has_key(k)),
            r.diffs@.len() == spec_enforced_paths(spec_prefixes_of(local_crate_names@), graph.nodes.entries@).len(),
            forall|i: int| 0 <= i < r.diffs@.len() ==> {
                let k = #[trigger] spec_enforced_paths(spec_prefixes_of(local_crate_names@), graph.nodes.entries@)[i];
                spec_diff_of(r.diffs@[i], k, r.inference.inferred.spec_get(k)->0, r.inference.incomplete_paths.has_key(k))
            },
            spec_outliers_sorted(r.trait_impl_outliers@),
            forall|i: int| 0 <= i < r.trait_impl_outliers@.len() ==> spec_from_some_row(spec_prefixes_of(local_crate_names@),
                *graph, r.inference.trait_votes, #[trigger] r.trait_impl_outliers@[i]),
    {
        let inference = PreparedInference::rvs_prepare(graph, seed, local_crate_names);
        let diffs = rvs_collect_contract_diffs_with_incomplete(graph, inference.rvs_inferred(), local_crate_names, inference.rvs_incomplete_paths());
        let trait_impl_outliers = rvs_collect_local_trait_vote_outliers(graph, inference.rvs_trait_votes(), local_crate_names);
        PreparedLocalAnalysis { diffs, trait_impl_outliers, inference }
    }

    /// Prepares the local analysis of `graph`; the graph is left as it is.
    #[allow(non_snake_case)]
    pub fn rvs_prepare_M(graph: &mut FnGraph, seed: &CapsMap, local_crate_names: &Vec<CrateName>) -> (r: PreparedLocalAnalysis)
        requires
            old(graph).wf(),
            seed.wf(),
        ensures
            *final(graph) == *old(graph),
            r.inference.wf(),
            spec_inference_ok(*final(graph), CapabilityKnowledgeView { base: seed, overlay: None }, r.inference.scoped_port_methods, r.inference.inferred),
            spec_fixpoint_law(*final(graph), CapabilityKnowledgeView { base: seed, overlay: None }, r.inference.scoped_port_methods, r.inference.impl_index, r.inference.inferred),
            r.diffs@.len() == spec_enforced_paths(spec_prefixes_of(local_crate_names@), final(graph).nodes.entries@).len(),
            forall|i: int| 0 <= i < r.diffs@.len() ==> {
                let k = #[trigger] spec_enforced_paths(spec_prefixes_of(local_crate_names@), final(graph).nodes.entries@)[i];
                spec_diff_of(r.diffs@[i], k, r.inference.inferred.spec_get(k)->0, r.inference.incomplete_paths.has_key(k))
            },
            forall|k: Seq<char>| #[trigger] r.inference.synthetic_paths.has_key(k) == (r.inference.inferred.has_key(k) && !final(graph).nodes.has_key(k)),
            spec_outliers_sorted(r.trait_impl_outliers@),
            forall|i: int| 0 <= i < r.trait_impl_outliers@.len() ==> spec_from_some_row(spec_prefixes_of(local_crate_names@),
                *final(graph), r.inference.trait_votes, #[trigger] r.trait_impl_outliers@[i]),
    {
        PreparedLocalAnalysis::rvs_prepare(graph, seed, local_crate_names)
    }

    /// The inferred capabilities.
    pub fn rvs_inferred(&self) -> (r: &PathMap<CapabilitySet>)
        ensures
            *r == self.inference.inferred,
    {
        self.inference.rvs_inferred()
    }

    /// The inferred paths that are no graph function.
    pub fn rvs_synthetic_paths(&self) -> (r: &PathSet)
        ensures
            *r == self.inference.synthetic_paths,
    {
        self.inference.rvs_synthetic_paths()
    }

    /// The incomplete paths.
    pub fn rvs_incomplete_paths(&self) -> (r: &PathSet)
        ensures
            *r == self.inference.incomplete_paths,
    {
        self.inference.rvs_incomplete_paths()
    }

    /// The trait votes.
    pub fn rvs_trait_votes(&self) -> (r: &PathMap<TraitCapabilityVote>)
        ensures
            *r == self.inference.trait_votes,
    {
        self.inference.rvs_trait_votes()
    }

    /// A resolver over the seed and this analysis's inference.
    pub fn rvs_resolver<'a>(&'a self, graph: &'a FnGraph, seed: &'a CapsMap) -> (r: CalleeCapsResolver<'a>)
        ensures
            r.graph == graph,
            r.knowledge.base == seed,
            r.inferred == &self.inference.inferred,
            r.scoped_port_methods == Some(&self.inference.scoped_port_methods),
    {
        self.inference.rvs_resolver(graph, seed)
    }
}

/// The contract diffs of the local analysis of `graph` from `seed`.
#[allow(non_snake_case)]
pub fn rvs_collect_local_contract_diffs_M(graph: &mut FnGraph, seed: &CapsMap, local_crate_names: &Vec<CrateName>) -> (r: Vec<FnContractDiff>)
    requires
        old(graph).wf(),
        seed.wf(),
    ensures
        *final(graph) == *old(graph),
        r@.len() == spec_enforced_paths(spec_prefixes_of(local_crate_names@), final(graph).nodes.entries@).len(),
        exists|m: PathMap<CapabilitySet>, ports: PathSet, inc: PathSet|
            #![trigger spec_inference_ok(*final(graph), CapabilityKnowledgeView { base: seed, overlay: None }, ports, m), spec_diffs_of(r@, spec_enforced_paths(spec_prefixes_of(local_crate_names@), final(graph).nodes.entries@), m, inc)]
            spec_inference_ok(*final(graph), CapabilityKnowledgeView { base: seed, overlay: None }, ports, m)
            && spec_diffs_of(r@, spec_enforced_paths(spec_prefixes_of(local_crate_names@), final(graph).nodes.entries@), m, inc),
{
    let analysis = PreparedLocalAnalysis::rvs_prepare_M(graph, seed, local_crate_names);
    proof {
        let m = analysis.inference.inferred;
        let ports = analysis.inference.scoped_port_methods;
        let inc = analysis.inference.incomplete_paths;
        assert(spec_inference_ok(*graph, CapabilityKnowledgeView { base: seed, overlay: None }, ports, m));
        assert(spec_diffs_of(analysis.diffs@, spec_enforced_paths(spec_prefixes_of(local_crate_names@), graph.nodes.entries@), m, inc));
    }
    analysis.diffs
}

/// Each diff is the one of the path at its position.
pub open spec fn spec_diffs_of(diffs: Seq<FnContractDiff>, paths: Seq<Seq<char>>, m: PathMap<CapabilitySet>, inc: PathSet) -> bool {
    &&& diffs.len() == paths.len()
    &&& forall|i: int| 0 <= i < diffs.len() ==> spec_diff_of(#[trigger] diffs[i], paths[i], m.spec_get(paths[i])->0, inc.has_key(paths[i]))
}

/// The contract diff of one enforced function analysed alone.
#[allow(non_snake_case)]
pub fn rvs_collect_single_local_contract_diff_M(def_path: DefPath, node: crate::artifacts::FnNode, local_crate_names: &Vec<CrateName>) -> (r: FnContractDiff)
    requires
        spec_contract_enforced(spec_prefixes_of(local_crate_names@), def_path@, node),
    ensures
        r.def_path@ == def_path@,
        r.actual_name@ == spec_fn_name(def_path@),
        r.declared_public_caps == spec_parsed_caps(spec_fn_name(def_path@)),
{
    let mut graph = FnGraph::rvs_new();
    let ghost k = def_path@;
    graph.rvs_insert_M(def_path, node);
    proof {
        assert(graph.nodes.len_spec() == 1);
        assert(graph.nodes.has_key(k));
        let j = choose|j: int| 0 <= j < graph.nodes.len_spec() && #[trigger] graph.nodes.key(j) == k;
        assert(j == 0);
        graph.nodes.lemma_index_unique(0);
        assert(graph.nodes.entries@.drop_last() =~= Seq::<(DefPath, crate::artifacts::FnNode)>::empty());
        assert(graph.nodes.val(0) == node);
        assert(graph.nodes.entries@.last().0@ == k);
        assert(graph.nodes.entries@.last().1 == node);
        assert(spec_enforced_paths(spec_prefixes_of(local_crate_names@), graph.nodes.entries@.drop_last()) =~= Seq::<Seq<char>>::empty());
        assert(spec_enforced_paths(spec_prefixes_of(local_crate_names@), graph.nodes.entries@) =~= seq![k]);
    }
    let empty = CapsMap::rvs_new();
    let mut diffs = rvs_collect_local_contract_diffs_M(&mut graph, &empty, local_crate_names);
    proof {
        assert(spec_enforced_paths(spec_prefixes_of(local_crate_names@), graph.nodes.entries@) =~= seq![k]);
    }
    diffs.remove(0)
}

/// The contract diff of a function with the given facts and a source,
/// analysed alone.
#[allow(non_snake_case)]
pub fn rvs_collect_signature_contract_diff_from_facts_M(def_path: DefPath, facts: crate::capability::CapabilityFacts, local_crate_names: &Vec<CrateName>) -> (r: FnContractDiff)
    requires
        crate::function_classification::spec_scope_contains(spec_prefixes_of(local_crate_names@), def_path@),
    ensures
        r.def_path@ == def_path@,
        r.actual_name@ == spec_fn_name(def_path@),
        r.declared_public_caps == spec_parsed_caps(spec_fn_name(def_path@)),
{
    let mut node = crate::artifacts::FnNode::default();
    node.facts = facts;
    node.sources.push(crate::artifacts::FnSource::rvs_new("src/lib.rs", 1, 2));
    rvs_collect_single_local_contract_diff_M(def_path, node, local_crate_names)
}


/// The trait method alias records of the inferred trait impl methods: for
/// each trait method some inferred key implements (first seen first), the
/// vote of its implementations raised to the trait method's own inferred
/// capabilities, incomplete when the trait method or a voter is.
#[verifier::rlimit(30)]
pub fn rvs_generate_trait_alias_infos(
    inferred: &PathMap<CapabilitySet>,
    impl_index: &ImplIndex,
    graph: &FnGraph,
    incomplete_paths: &PathSet,
) -> (r: PathMap<CapabilityInfo>)
    requires
        inferred.wf(),
        impl_index.wf(),
        graph.wf(),
        incomplete_paths.wf(),
    ensures
        r.wf(),
        forall|a: Seq<char>| #[trigger] r.has_key(a) ==> exists|j: int| 0 <= j < inferred.len_spec()
            && crate::symbols::spec_trait_method_path(#[trigger] inferred.key(j)) == Some(a),
        forall|a: Seq<char>| #[trigger] r.has_key(a) && inferred.has_key(a)
            ==> crate::capability::spec_includes(r.spec_get(a)->0.caps, inferred.spec_get(a)->0),
        forall|a: Seq<char>| #[trigger] r.has_key(a) && incomplete_paths.has_key(a)
            ==> r.spec_get(a)->0.completeness == CapabilityCompleteness::Incomplete,
{
    let mut aliases: PathMap<CapabilityInfo> = PathMap::rvs_new();
    let mut seen: PathSet = rvs_set_new();
    let mut i: usize = 0;
    while i < inferred.rvs_len()
        invariant
            inferred.wf(),
            impl_index.wf(),
            graph.wf(),
            incomplete_paths.wf(),
            aliases.wf(),
            seen.wf(),
            i <= inferred.len_spec(),
            forall|a: Seq<char>| #[trigger] aliases.has_key(a) ==> exists|j: int| 0 <= j < inferred.len_spec()
                && crate::symbols::spec_trait_method_path(#[trigger] inferred.key(j)) == Some(a),
            forall|a: Seq<char>| #[trigger] aliases.has_key(a) && inferred.has_key(a)
                ==> crate::capability::spec_includes(aliases.spec_get(a)->0.caps, inferred.spec_get(a)->0),
            forall|a: Seq<char>| #[trigger] aliases.has_key(a) && incomplete_paths.has_key(a)
                ==> aliases.spec_get(a)->0.completeness == CapabilityCompleteness::Incomplete,
            forall|a: Seq<char>| #[trigger] aliases.has_key(a) ==> seen.has_key(a),
        decreases inferred.len_spec() - i,
    {
        let key = inferred.rvs_key_at(i);
        match key.rvs_trait_method_path() {
            Some(alias) => {
                if rvs_set_insert_M(&mut seen, &alias) {
                    match rvs_resolve_impl_capability_vote_with_ports(&alias, impl_index, inferred, graph, incomplete_paths, None) {
                        Some(vote) => {
                            let lower_bound = match inferred.rvs_get(alias.rvs_chars()) {
                                Some(c) => *c,
                                None => vote.selected_caps,
                            };
                            let alias_incomplete = rvs_set_contains(incomplete_paths, &alias);
                            let info = vote.rvs_capability_info_with_lower_bound(&lower_bound, alias_incomplete);
                            proof {
                                assert(inferred.key(i as int) == key@);
                            }
                            aliases.rvs_insert_M(alias, info);
                        },
                        None => {},
                    }
                }
            },
            None => {},
        }
        i = i + 1;
    }
    aliases
}

/// The trait method aliases' capabilities, as voted, for the inferred trait
/// impl methods.
pub fn rvs_generate_trait_aliases(
    inferred: &PathMap<CapabilitySet>,
    impl_index: &ImplIndex,
    graph: &FnGraph,
) -> (r: PathMap<CapabilitySet>)
    requires
        inferred.wf(),
        impl_index.wf(),
        graph.wf(),
    ensures
        r.wf(),
        forall|a: Seq<char>| #[trigger] r.has_key(a) ==> exists|j: int| 0 <= j < inferred.len_spec()
            && crate::symbols::spec_trait_method_path(#[trigger] inferred.key(j)) == Some(a),
{
    let mut aliases: PathMap<CapabilitySet> = PathMap::rvs_new();
    let mut seen: PathSet = rvs_set_new();
    let mut i: usize = 0;
    while i < inferred.rvs_len()
        invariant
            inferred.wf(),
            impl_index.wf(),
            graph.wf(),
            aliases.wf(),
            seen.wf(),
            i <= inferred.len_spec(),
            forall|a: Seq<char>| #[trigger] aliases.has_key(a) ==> exists|j: int| 0 <= j < inferred.len_spec()
                && crate::symbols::spec_trait_method_path(#[trigger] inferred.key(j)) == Some(a),
        decreases inferred.len_spec() - i,
    {
        let key = inferred.rvs_key_at(i);
        match key.rvs_trait_method_path() {
            Some(alias) => {
                if rvs_set_insert_M(&mut seen, &alias) {
                    match crate::resolver::rvs_resolve_impl_majority_caps(&alias, impl_index, inferred, graph) {
                        Some(voted) => {
                            proof {
                                assert(inferred.key(i as int) == key@);
                            }
                            aliases.rvs_insert_M(alias, voted);
                        },
                        None => {},
                    }
                }
            },
            None => {},
        }
        i = i + 1;
    }
    aliases
}

/// The less complete of two completeness levels: unknown below incomplete
/// below complete.
pub open spec fn spec_least_complete(left: CapabilityCompleteness, right: CapabilityCompleteness) -> CapabilityCompleteness {
    if left == CapabilityCompleteness::Unknown || right == CapabilityCompleteness::Unknown {
        CapabilityCompleteness::Unknown
    } else if left == CapabilityCompleteness::Incomplete || right == CapabilityCompleteness::Incomplete {
        CapabilityCompleteness::Incomplete
    } else {
        CapabilityCompleteness::Complete
    }
}

/// The less complete of two completeness levels.
pub fn rvs_least_complete_knowledge(left: CapabilityCompleteness, right: CapabilityCompleteness) -> (r: CapabilityCompleteness)
    ensures
        r == spec_least_complete(left, right),
{
    match (left, right) {
        (CapabilityCompleteness::Unknown, _) | (_, CapabilityCompleteness::Unknown) => CapabilityCompleteness::Unknown,
        (CapabilityCompleteness::Incomplete, _) | (_, CapabilityCompleteness::Incomplete) => CapabilityCompleteness::Incomplete,
        (CapabilityCompleteness::Complete, CapabilityCompleteness::Complete) => CapabilityCompleteness::Complete,
    }
}

/// Two records merged into one with capabilities `caps`: the left record
/// when both already say exactly that; else an inferred record as complete
/// as the less complete of the two.
pub open spec fn spec_combine(left: CapabilityInfo, right: CapabilityInfo, caps: CapabilitySet) -> CapabilityInfo {
    if left.caps == caps && right.caps == caps && left.basis == right.basis && left.completeness == right.completeness {
        left
    } else {
        CapabilityInfo { caps, basis: CapabilityBasis::Inferred, completeness: spec_least_complete(left.completeness, right.completeness) }
    }
}

/// Two records merged into one with capabilities `caps`.
pub fn rvs_combine_capability_info(left: &CapabilityInfo, right: &CapabilityInfo, caps: CapabilitySet) -> (r: CapabilityInfo)
    ensures
        r == spec_combine(*left, *right, caps),
{
    if left.caps == caps && right.caps == caps && left.basis == right.basis && left.completeness == right.completeness {
        return *left;
    }
    CapabilityInfo::rvs_new(caps, CapabilityBasis::Inferred, rvs_least_complete_knowledge(left.completeness, right.completeness))
}

/// Entry `e` is entry `j` of `start` with its port marker kept only when the
/// function is local by its identity.
pub open spec fn spec_scoped_entry(prefixes: Seq<Seq<char>>, start: FnGraph, j: int, e: (DefPath, crate::artifacts::FnNode)) -> bool {
    let s = start.nodes.entries@[j];
    let keep = s.1.facts.is_port_method
        && spec_identity_local(prefixes, start, crate::artifacts::FunctionIdentity { crate_id: s.1.crate_id, def_path: s.0 });
    &&& e.0 == s.0
    &&& e.1 == (crate::artifacts::FnNode { facts: crate::capability::CapabilityFacts { is_port_method: keep, ..s.1.facts }, ..s.1 })
}

/// Clears the port marker of every graph function outside the local scope.
#[allow(non_snake_case)]
#[verifier::spinoff_prover]
#[verifier::rlimit(40)]
pub fn rvs_scope_port_methods_M(graph: &mut FnGraph, local_crate_names: &Vec<CrateName>)
    requires
        old(graph).wf(),
    ensures
        final(graph).wf(),
        final(graph).nodes.len_spec() == old(graph).nodes.len_spec(),
        forall|j: int| 0 <= j < final(graph).nodes.len_spec()
            ==> spec_scoped_entry(spec_prefixes_of(local_crate_names@), *old(graph), j, #[trigger] final(graph).nodes.entries@[j]),
{
    let scope = LocalScope::rvs_for_graph(local_crate_names, graph);
    let ghost start = *graph;
    let ghost prefixes = spec_prefixes_of(local_crate_names@);
    let mut i: usize = 0;
    while i < graph.rvs_len()
        invariant
            graph.wf(),
            graph.nodes.len_spec() == start.nodes.len_spec(),
            scope.prefix_views() == prefixes,
            prefixes == spec_prefixes_of(local_crate_names@),
            forall|id: u64| scope.primary_crate_ids@.contains(id) <==> exists|j: int| 0 <= j < start.nodes.len_spec()
                && #[trigger] start.nodes.val(j).crate_id == id && start.nodes.val(j).crate_provenance == crate::artifacts::CrateProvenance::PrimaryPackage,
            forall|id: u64| scope.dependency_crate_ids@.contains(id) <==> exists|j: int| 0 <= j < start.nodes.len_spec()
                && #[trigger] start.nodes.val(j).crate_id == id && start.nodes.val(j).crate_provenance == crate::artifacts::CrateProvenance::Dependency,
            i <= graph.nodes.len_spec(),
            forall|j: int| 0 <= j < i ==> spec_scoped_entry(prefixes, start, j, #[trigger] graph.nodes.entries@[j]),
            forall|j: int| i <= j < graph.nodes.len_spec() ==> #[trigger] graph.nodes.entries@[j] == start.nodes.entries@[j],
        decreases graph.nodes.len_spec() - i,
    {
        proof {
            assert(graph.nodes.entries@[i as int] == start.nodes.entries@[i as int]);
        }
        let identity = crate::artifacts::FunctionIdentity { crate_id: graph.rvs_node_at(i).crate_id, def_path: graph.rvs_path_at(i).rvs_copy() };
        let ghost start_identity = crate::artifacts::FunctionIdentity { crate_id: start.nodes.val(i as int).crate_id, def_path: start.nodes.entries@[i as int].0 };
        proof {
            lemma_scope_identity_for(scope, local_crate_names@, start, identity);
            lemma_identity_local_by_view(prefixes, start, identity, start_identity);
        }
        let keep = graph.rvs_node_at(i).facts.is_port_method && scope.rvs_contains_identity(&identity);
        let ghost before = graph.nodes.entries@;
        graph.rvs_set_port_fact_at_M(i, keep);
        proof {
            assert(spec_scoped_entry(prefixes, start, i as int, graph.nodes.entries@[i as int]));
            assert forall|j: int| 0 <= j < i + 1 implies spec_scoped_entry(prefixes, start, j, #[trigger] graph.nodes.entries@[j]) by {
                if j < i {
                    assert(graph.nodes.entries@[j] == before[j]);
                }
            }
            assert forall|j: int| i + 1 <= j < graph.nodes.len_spec() implies #[trigger] graph.nodes.entries@[j] == start.nodes.entries@[j] by {
                assert(graph.nodes.entries@[j] == before[j]);
            }
        }
        i = i + 1;
    }
}

proof fn lemma_identity_local_by_view(prefixes: Seq<Seq<char>>, graph: FnGraph, a: crate::artifacts::FunctionIdentity, b: crate::artifacts::FunctionIdentity)
    requires
        a.crate_id == b.crate_id,
        a.def_path@ == b.def_path@,
    ensures
        spec_identity_local(prefixes, graph, a) == spec_identity_local(prefixes, graph, b),
{
}

} // verus!
