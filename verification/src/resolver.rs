//! Capability knowledge, trait-implementation votes and the precedence rules
//! that decide which capabilities a callee stands for.
use vstd::prelude::*;

use crate::artifacts::FnGraph;
use crate::capability::{
    Capability, CapabilityBasis, CapabilityCompleteness, CapabilityCounts, CapabilityInfo,
    CapabilitySet, rvs_at_least_half_vote, rvs_port_method_caps, spec_count, spec_propagated,
    lemma_set_ext, spec_empty, spec_non_propagated, spec_single, spec_union, spec_vote_threshold,
};
use crate::capsmap::CapsMap;
use crate::collections::{PathSet, rvs_set_contains};
use crate::graph_index::ImplIndex;
use crate::names::{rvs_declared_caps_of_name, spec_declared_caps, spec_declared_caps_ok};
use crate::pathmap::PathMap;
use crate::symbols::{DefPath, rvs_trait_method_key, spec_fn_name, spec_impl_split, spec_trait_method_key, spec_trait_method_path};

verus! {

/// The capabilities a definition path declares through its function name.
pub fn rvs_declared_caps_from_def_path(def_path: &DefPath) -> (r: Option<CapabilitySet>)
    ensures
        spec_declared_caps_ok(spec_fn_name(def_path@), r),
        r == spec_declared_caps(spec_fn_name(def_path@)),
{
    let name = def_path.rvs_fn_name();
    rvs_declared_caps_of_name(name.as_slice())
}

/// Recorded capability knowledge: a base map, optionally overlaid by a second
/// map whose records take precedence.
#[derive(Debug, Clone, Copy)]
pub struct CapabilityKnowledgeView<'a> {
    pub base: &'a CapsMap,
    pub overlay: Option<&'a PathMap<CapabilityInfo>>,
}

impl<'a> CapabilityKnowledgeView<'a> {
    pub open spec fn wf(self) -> bool {
        self.base.wf() && match self.overlay {
            Some(o) => o.wf(),
            None => true,
        }
    }

    /// The record of a path: the overlay's if it has one, else the base's.
    pub open spec fn spec_info(self, k: Seq<char>) -> Option<CapabilityInfo> {
        match self.overlay {
            Some(o) => if o.has_key(k) {
                o.spec_get(k)
            } else {
                self.base.spec_info(k)
            },
            None => self.base.spec_info(k),
        }
    }

    pub open spec fn spec_caps(self, k: Seq<char>) -> Option<CapabilitySet> {
        match self.spec_info(k) {
            Some(info) => Some(info.caps),
            None => None,
        }
    }

    /// Knowledge from a base map alone.
    pub fn rvs_base(base: &'a CapsMap) -> (r: CapabilityKnowledgeView<'a>)
        ensures
            r.base == base,
            r.overlay is None,
    {
        CapabilityKnowledgeView { base, overlay: None }
    }

    /// Knowledge from a base map overlaid by `overlay`.
    pub fn rvs_with_overlay(base: &'a CapsMap, overlay: &'a PathMap<CapabilityInfo>) -> (r: CapabilityKnowledgeView<'a>)
        ensures
            r.base == base,
            r.overlay == Some(overlay),
    {
        CapabilityKnowledgeView { base, overlay: Some(overlay) }
    }

    /// The record of a path.
    pub fn rvs_lookup_info(&self, path: &DefPath) -> (r: Option<CapabilityInfo>)
        requires
            self.wf(),
        ensures
            r == self.spec_info(path@),
    {
        match self.overlay {
            Some(o) => {
                match o.rvs_get(path.rvs_chars()) {
                    Some(info) => {
                        return Some(*info);
                    },
                    None => {},
                }
            },
            None => {},
        }
        self.base.rvs_lookup_info_def_path(path)
    }

    /// The recorded capabilities of a path.
    pub fn rvs_lookup_caps(&self, path: &DefPath) -> (r: Option<CapabilitySet>)
        requires
            self.wf(),
        ensures
            r == self.spec_caps(path@),
    {
        match self.rvs_lookup_info(path) {
            Some(info) => Some(info.caps),
            None => None,
        }
    }
}

/// One implementation's part in a trait vote.
#[derive(Debug, Clone)]
pub struct TraitVoteImplementation {
    pub path: DefPath,
    pub propagated_caps: CapabilitySet,
    pub incomplete: bool,
}

/// The at-least-half vote over a trait method's implementations.
#[derive(Debug, Clone)]
pub struct TraitCapabilityVote {
    pub trait_method: DefPath,
    pub selected_caps: CapabilitySet,
    pub implementations: Vec<TraitVoteImplementation>,
    pub threshold: usize,
    pub counts: CapabilityCounts,
    pub is_port: bool,
}

impl TraitCapabilityVote {
    /// Every implementation's capabilities were complete.
    pub open spec fn spec_complete(self) -> bool {
        forall|i: int| 0 <= i < self.implementations@.len() ==> !(#[trigger] self.implementations@[i]).incomplete
    }

    /// Whether every implementation's capabilities were complete.
    pub fn rvs_is_complete(&self) -> (r: bool)
        ensures
            r == self.spec_complete(),
    {
        let mut i: usize = 0;
        while i < self.implementations.len()
            invariant
                i <= self.implementations@.len(),
                forall|j: int| 0 <= j < i ==> !(#[trigger] self.implementations@[j]).incomplete,
            decreases self.implementations@.len() - i,
        {
            if self.implementations[i].incomplete {
                return false;
            }
            i = i + 1;
        }
        true
    }

    /// The record the vote stands for, raised to at least `lower_bound`:
    /// complete when the trait method and every implementation were complete;
    /// a vote record when the bound adds nothing, an inferred one otherwise.
    pub open spec fn spec_info_with_lower_bound(self, lower_bound: CapabilitySet, trait_method_incomplete: bool) -> CapabilityInfo {
        let combined = spec_union(self.selected_caps, lower_bound);
        let completeness = if !trait_method_incomplete && self.spec_complete() {
            CapabilityCompleteness::Complete
        } else {
            CapabilityCompleteness::Incomplete
        };
        if combined == self.selected_caps {
            CapabilityInfo {
                caps: combined,
                basis: CapabilityBasis::TraitVote {
                    implementations: self.implementations@.len() as usize,
                    threshold: self.threshold,
                    votes: self.counts,
                },
                completeness,
            }
        } else {
            CapabilityInfo { caps: combined, basis: CapabilityBasis::Inferred, completeness }
        }
    }

    /// The record the vote stands for, raised to at least `lower_bound`.
    pub fn rvs_capability_info_with_lower_bound(&self, lower_bound: &CapabilitySet, trait_method_incomplete: bool) -> (r: CapabilityInfo)
        ensures
            r == self.spec_info_with_lower_bound(*lower_bound, trait_method_incomplete),
    {
        let mut combined = self.selected_caps;
        let _ = combined.rvs_union_M(lower_bound);
        let completeness = if !trait_method_incomplete && self.rvs_is_complete() {
            CapabilityCompleteness::Complete
        } else {
            CapabilityCompleteness::Incomplete
        };
        if combined == self.selected_caps {
            CapabilityInfo::rvs_trait_vote(combined, self.implementations.len(), self.threshold, self.counts, completeness)
        } else {
            CapabilityInfo::rvs_new(combined, CapabilityBasis::Inferred, completeness)
        }
    }

    /// The record the vote stands for, as voted.
    pub fn rvs_capability_info(&self) -> (r: CapabilityInfo)
        ensures
            r == self.spec_info_with_lower_bound(self.selected_caps, false),
    {
        self.rvs_capability_info_with_lower_bound(&self.selected_caps, false)
    }
}

/// Whether a path is a port method: by the given port set, or by the graph
/// node's fact when no set is given.
pub open spec fn spec_is_port(graph: FnGraph, ports: Option<&PathSet>, k: Seq<char>) -> bool {
    match ports {
        Some(p) => p.has_key(k),
        None => graph.nodes.has_key(k) && graph.nodes.spec_get(k)->0.facts.is_port_method,
    }
}

pub fn rvs_is_port(graph: &FnGraph, ports: Option<&PathSet>, k: &DefPath) -> (r: bool)
    requires
        graph.wf(),
        ports matches Some(p) ==> p.wf(),
    ensures
        r == spec_is_port(*graph, ports, k@),
{
    match ports {
        Some(p) => rvs_set_contains(p, k),
        None => match graph.rvs_get_path(k) {
            Some(node) => node.facts.is_port_method,
            None => false,
        },
    }
}

/// The propagated capabilities of vote rows, in order.
pub open spec fn spec_row_caps(rows: Seq<TraitVoteImplementation>) -> Seq<CapabilitySet> {
    rows.map_values(|row: TraitVoteImplementation| row.propagated_caps)
}

/// The indexed implementations that have an inferred entry, in index
/// order, each as often as the index lists it.
pub open spec fn spec_vote_paths(keys: Seq<DefPath>, inferred: PathMap<CapabilitySet>) -> Seq<Seq<char>>
    decreases keys.len(),
{
    if keys.len() == 0 {
        Seq::empty()
    } else {
        spec_vote_paths(keys.drop_last(), inferred) + if inferred.has_key(keys.last()@) {
            seq![keys.last()@]
        } else {
            Seq::empty()
        }
    }
}

/// The paths of vote rows, in order.
pub open spec fn spec_row_paths(rows: Seq<TraitVoteImplementation>) -> Seq<Seq<char>> {
    rows.map_values(|row: TraitVoteImplementation| row.path@)
}

/// The votes of a trait method's implementations: each implementation with an
/// inferred entry, in index order, with its propagated capabilities.
pub open spec fn spec_vote_rows_ok(
    keys: Seq<DefPath>,
    inferred: PathMap<CapabilitySet>,
    incomplete: PathSet,
    rows: Seq<TraitVoteImplementation>,
) -> bool {
    &&& forall|i: int| 0 <= i < rows.len() ==> {
        &&& inferred.has_key((#[trigger] rows[i]).path@)
        &&& rows[i].propagated_caps == spec_propagated(inferred.spec_get(rows[i].path@)->0)
        &&& rows[i].incomplete == incomplete.has_key(rows[i].path@)
        &&& exists|j: int| 0 <= j < keys.len() && #[trigger] keys[j]@ == rows[i].path@
    }
    &&& forall|j: int| 0 <= j < keys.len() && inferred.has_key(#[trigger] keys[j]@) ==> exists|i: int| 0 <= i < rows.len() && #[trigger] rows[i].path@ == keys[j]@
    &&& spec_row_paths(rows) == spec_vote_paths(keys, inferred)
}

/// The vote over the implementations of trait method `callee`, as
/// `rvs_resolve_impl_capability_vote_with_ports` computes it.
pub open spec fn spec_vote_result(
    callee: Seq<char>,
    impl_index: ImplIndex,
    inferred: PathMap<CapabilitySet>,
    graph: FnGraph,
    incomplete_paths: PathSet,
    port_methods: Option<&PathSet>,
    r: Option<TraitCapabilityVote>,
) -> bool {
    &&& (r is None <==> spec_no_voters(callee, impl_index, inferred))
    &&& (r matches Some(v) ==> {
        &&& v.trait_method@ == callee
        &&& spec_trait_method_key(callee) matches Some(key)
        &&& impl_index.has_key(key)
        &&& spec_vote_rows_ok(impl_index.spec_get(key)->0@, inferred, incomplete_paths, v.implementations@)
        &&& v.is_port == ((port_methods is Some && spec_is_port(graph, port_methods, callee))
            || exists|j: int| 0 <= j < impl_index.spec_get(key)->0@.len()
                && spec_is_port(graph, port_methods, #[trigger] impl_index.spec_get(key)->0@[j]@))
        &&& v.threshold == spec_vote_threshold(v.implementations@.len())
        &&& forall|c: Capability| #[trigger] v.counts.get(c) == spec_count(spec_row_caps(v.implementations@), c)
        &&& forall|c: Capability| #[trigger] v.selected_caps.has(c) == (spec_count(spec_row_caps(v.implementations@), c) >= v.threshold
            || (c == Capability::P && v.is_port))
    })
}

/// No implementation of trait method `callee` has an inferred entry.
pub open spec fn spec_no_voters(callee: Seq<char>, impl_index: ImplIndex, inferred: PathMap<CapabilitySet>) -> bool {
    match spec_trait_method_key(callee) {
        Some(key) => !impl_index.has_key(key) || !(exists|j: int| 0 <= j < impl_index.spec_get(key)->0@.len()
            && inferred.has_key(#[trigger] impl_index.spec_get(key)->0@[j]@)),
        None => true,
    }
}

/// The capabilities a vote selects.
pub open spec fn spec_selected(v: Option<TraitCapabilityVote>) -> Option<CapabilitySet> {
    match v {
        Some(vote) => Some(vote.selected_caps),
        None => None,
    }
}

/// `r` is what the vote over `callee`'s implementations selects.
pub open spec fn spec_majority_ok(
    callee: Seq<char>,
    impl_index: ImplIndex,
    inferred: PathMap<CapabilitySet>,
    graph: FnGraph,
    port_methods: Option<&PathSet>,
    r: Option<CapabilitySet>,
) -> bool {
    exists|inc: PathSet, v: Option<TraitCapabilityVote>| #[trigger] spec_vote_result(callee, impl_index, inferred, graph, inc, port_methods, v)
        && r == spec_selected(v)
}

/// The vote rows of the indexed implementations with an inferred entry,
/// and their propagated capabilities.
fn rvs_vote_rows(
    impl_keys: &Vec<DefPath>,
    inferred: &PathMap<CapabilitySet>,
    incomplete_paths: &PathSet,
) -> (r: (Vec<TraitVoteImplementation>, Vec<CapabilitySet>))
    requires
        inferred.wf(),
        incomplete_paths.wf(),
    ensures
        spec_vote_rows_ok(impl_keys@, *inferred, *incomplete_paths, r.0@),
        r.1@ == spec_row_caps(r.0@),
{
    let mut implementations: Vec<TraitVoteImplementation> = Vec::new();
    let mut sets: Vec<CapabilitySet> = Vec::new();
    let mut q: usize = 0;
    while q < impl_keys.len()
        invariant
            inferred.wf(),
            incomplete_paths.wf(),
            q <= impl_keys@.len(),
            sets@ == spec_row_caps(implementations@),
            forall|i: int| 0 <= i < implementations@.len() ==> {
                &&& inferred.has_key((#[trigger] implementations@[i]).path@)
                &&& implementations@[i].propagated_caps == spec_propagated(inferred.spec_get(implementations@[i].path@)->0)
                &&& implementations@[i].incomplete == incomplete_paths.has_key(implementations@[i].path@)
                &&& exists|jj: int| 0 <= jj < impl_keys@.len() && #[trigger] impl_keys@[jj]@ == implementations@[i].path@
            },
            forall|jj: int| 0 <= jj < q && inferred.has_key(#[trigger] impl_keys@[jj]@) ==> exists|i: int| 0 <= i < implementations@.len() && #[trigger] implementations@[i].path@ == impl_keys@[jj]@,
            spec_row_paths(implementations@) == spec_vote_paths(impl_keys@.subrange(0, q as int), *inferred),
        decreases impl_keys@.len() - q,
    {
        proof {
            assert(impl_keys@.subrange(0, q + 1).drop_last() =~= impl_keys@.subrange(0, q as int));
            assert(impl_keys@.subrange(0, q + 1).last() == impl_keys@[q as int]);
        }
        let ghost paths_before = spec_row_paths(implementations@);
        match inferred.rvs_get(impl_keys[q].rvs_chars()) {
            Some(caps) => {
                let row = TraitVoteImplementation {
                    path: impl_keys[q].rvs_copy(),
                    propagated_caps: caps.rvs_propagated(),
                    incomplete: rvs_set_contains(incomplete_paths, &impl_keys[q]),
                };
                let ghost n = implementations@.len();
                let ghost old_impls = implementations@;
                implementations.push(row);
                sets.push(caps.rvs_propagated());
                proof {
                    assert(implementations@[n as int].path@ == impl_keys@[q as int]@);
                    assert forall|jj: int| 0 <= jj < q + 1 && inferred.has_key(#[trigger] impl_keys@[jj]@) implies exists|i: int| 0 <= i < implementations@.len() && #[trigger] implementations@[i].path@ == impl_keys@[jj]@ by {
                        if jj < q {
                            let i = choose|i: int| 0 <= i < old_impls.len() && #[trigger] old_impls[i].path@ == impl_keys@[jj]@;
                            assert(implementations@[i] == old_impls[i]);
                        } else {
                            assert(implementations@[n as int].path@ == impl_keys@[jj]@);
                        }
                    }
                    assert(sets@ =~= spec_row_caps(implementations@));
                    assert(spec_row_paths(implementations@) =~= paths_before + seq![impl_keys@[q as int]@]);
                }
            },
            None => {
                proof {
                    assert(paths_before + Seq::<Seq<char>>::empty() =~= paths_before);
                }
            },
        }
        q = q + 1;
    }
    proof {
        assert(impl_keys@.subrange(0, impl_keys@.len() as int) =~= impl_keys@);
    }
    (implementations, sets)
}

/// Votes over the implementations of trait method `callee` (looked up as
/// `method@Trait`): `None` when it has no implementation with an inferred
/// entry; otherwise the at-least-half vote over their propagated
/// capabilities, with the port marker added when the trait method or one of
/// its implementations is a port method.
pub fn rvs_resolve_impl_capability_vote_with_ports(
    callee: &DefPath,
    impl_index: &ImplIndex,
    inferred: &PathMap<CapabilitySet>,
    graph: &FnGraph,
    incomplete_paths: &PathSet,
    port_methods: Option<&PathSet>,
) -> (r: Option<TraitCapabilityVote>)
    requires
        impl_index.wf(),
        inferred.wf(),
        graph.wf(),
        incomplete_paths.wf(),
        port_methods matches Some(p) ==> p.wf(),
    ensures
        r is None <==> (match spec_trait_method_key(callee@) {
            Some(key) => !impl_index.has_key(key) || !(exists|j: int| 0 <= j < impl_index.spec_get(key)->0@.len()
                && inferred.has_key(#[trigger] impl_index.spec_get(key)->0@[j]@)),
            None => true,
        }),
        r matches Some(v) ==> {
            &&& v.trait_method@ == callee@
            &&& spec_trait_method_key(callee@) matches Some(key)
            &&& impl_index.has_key(key)
            &&& spec_vote_rows_ok(impl_index.spec_get(key)->0@, *inferred, *incomplete_paths, v.implementations@)
            &&& v.is_port == ((port_methods is Some && spec_is_port(*graph, port_methods, callee@))
                || exists|j: int| 0 <= j < impl_index.spec_get(key)->0@.len()
                    && spec_is_port(*graph, port_methods, #[trigger] impl_index.spec_get(key)->0@[j]@))
            &&& v.threshold == spec_vote_threshold(v.implementations@.len())
            &&& forall|c: Capability| #[trigger] v.counts.get(c) == spec_count(spec_row_caps(v.implementations@), c)
            &&& forall|c: Capability| #[trigger] v.selected_caps.has(c) == (spec_count(spec_row_caps(v.implementations@), c) >= v.threshold
                || (c == Capability::P && v.is_port))
        },
        spec_vote_result(callee@, *impl_index, *inferred, *graph, *incomplete_paths, port_methods, r),
{
    let key = match rvs_trait_method_key(callee.rvs_chars()) {
        Some(k) => k,
        None => {
            return None;
        },
    };
    let impl_keys = match impl_index.rvs_get(key.as_slice()) {
        Some(v) => v,
        None => {
            return None;
        },
    };
    let mut is_port = match port_methods {
        Some(p) => rvs_set_contains(p, callee),
        None => false,
    };
    let ghost callee_port = spec_is_port(*graph, port_methods, callee@);
    let mut j: usize = 0;
    while j < impl_keys.len()
        invariant
            graph.wf(),
            port_methods matches Some(p) ==> p.wf(),
            j <= impl_keys@.len(),
            is_port == ((port_methods is Some && callee_port) || exists|q: int| 0 <= q < j && spec_is_port(*graph, port_methods, #[trigger] impl_keys@[q]@)),
        decreases impl_keys@.len() - j,
    {
        if rvs_is_port(graph, port_methods, &impl_keys[j]) {
            is_port = true;
        }
        j = j + 1;
    }
    let (implementations, sets) = rvs_vote_rows(impl_keys, inferred, incomplete_paths);
    let (voted, threshold, counts) = match rvs_at_least_half_vote(&sets) {
        Some(v) => v,
        None => {
            proof {
                assert forall|jj: int| 0 <= jj < impl_keys@.len() implies !inferred.has_key(#[trigger] impl_keys@[jj]@) by {
                    if inferred.has_key(impl_keys@[jj]@) {
                        let i = choose|i: int| 0 <= i < implementations@.len() && #[trigger] implementations@[i].path@ == impl_keys@[jj]@;
                        assert(sets@.len() == implementations@.len());
                    }
                }
            }
            return None;
        },
    };
    let mut selected = voted;
    if is_port {
        selected.rvs_insert_M(Capability::P);
    }
    proof {
        assert(sets@ == spec_row_caps(implementations@));
        assert(implementations@.len() > 0);
        let r0 = implementations@[0];
        assert(inferred.has_key(r0.path@));
        let jj = choose|jj: int| 0 <= jj < impl_keys@.len() && #[trigger] impl_keys@[jj]@ == r0.path@;
        assert(inferred.has_key(impl_keys@[jj]@));
        assert(spec_trait_method_key(callee@) == Some(key@));
        assert(impl_index.spec_get(key@) == Some(*impl_keys));
        assert(impl_index.spec_get(key@)->0@[jj]@ == impl_keys@[jj]@);
        if implementations@.len() == 0 {
            assert forall|jj: int| 0 <= jj < impl_keys@.len() implies !inferred.has_key(#[trigger] impl_keys@[jj]@) by {
                if inferred.has_key(impl_keys@[jj]@) {
                    let i = choose|i: int| 0 <= i < implementations@.len() && #[trigger] implementations@[i].path@ == impl_keys@[jj]@;
                }
            }
        }
    }
    Some(TraitCapabilityVote {
        trait_method: callee.rvs_copy(),
        selected_caps: selected,
        implementations,
        threshold,
        counts,
        is_port,
    })
}

/// The capabilities selected by the vote over a trait method's
/// implementations, if there is one.
pub fn rvs_resolve_impl_majority_caps_with_ports(
    callee: &DefPath,
    impl_index: &ImplIndex,
    inferred: &PathMap<CapabilitySet>,
    graph: &FnGraph,
    port_methods: Option<&PathSet>,
) -> (r: Option<CapabilitySet>)
    requires
        impl_index.wf(),
        inferred.wf(),
        graph.wf(),
        port_methods matches Some(p) ==> p.wf(),
    ensures
        r is None <==> spec_no_voters(callee@, *impl_index, *inferred),
        spec_majority_ok(callee@, *impl_index, *inferred, *graph, port_methods, r),
{
    let empty: PathSet = PathMap::rvs_new();
    let vote = rvs_resolve_impl_capability_vote_with_ports(callee, impl_index, inferred, graph, &empty, port_methods);
    let ghost v = vote;
    let r = match vote {
        Some(vote) => Some(vote.selected_caps),
        None => None,
    };
    assert(spec_vote_result(callee@, *impl_index, *inferred, *graph, empty, port_methods, v) && r == spec_selected(v));
    r
}

/// The capabilities selected by the vote over a trait method's
/// implementations, judging port methods by the graph's facts.
pub fn rvs_resolve_impl_majority_caps(
    callee: &DefPath,
    impl_index: &ImplIndex,
    inferred: &PathMap<CapabilitySet>,
    graph: &FnGraph,
) -> (r: Option<CapabilitySet>)
    requires
        impl_index.wf(),
        inferred.wf(),
        graph.wf(),
    ensures
        r is None <==> spec_no_voters(callee@, *impl_index, *inferred),
        spec_majority_ok(callee@, *impl_index, *inferred, *graph, None, r),
{
    rvs_resolve_impl_majority_caps_with_ports(callee, impl_index, inferred, graph, None)
}

/// The vote over a trait method's implementations, judging port methods by
/// the graph's facts.
pub fn rvs_resolve_impl_capability_vote(
    callee: &DefPath,
    impl_index: &ImplIndex,
    inferred: &PathMap<CapabilitySet>,
    graph: &FnGraph,
    incomplete_paths: &PathSet,
) -> (r: Option<TraitCapabilityVote>)
    requires
        impl_index.wf(),
        inferred.wf(),
        graph.wf(),
        incomplete_paths.wf(),
    ensures
        spec_vote_result(callee@, *impl_index, *inferred, *graph, *incomplete_paths, None, r),
{
    rvs_resolve_impl_capability_vote_with_ports(callee, impl_index, inferred, graph, incomplete_paths, None)
}


/// Where a callee's capabilities may come from.
#[derive(Debug, Clone, Copy, PartialEq, Eq, Structural)]
pub enum CalleeCapsSource {
    /// A port method: the port marker, with what the port's implementations
    /// or declaration add.
    PortMethod,
    /// A record of the capability map.
    ExactCapsMap,
    /// A bodyless declaration: the vote of its implementations, with the
    /// declaration's own signature capabilities.
    BodylessImplWithSignature,
    /// A bodyless declaration: the capabilities its name declares.
    BodylessDeclaredCaps,
    /// The inferred capabilities.
    Inferred,
    /// The capabilities the name declares.
    DeclaredCaps,
    /// The vote of the implementations of a trait method.
    ImplMajority,
}

/// Precedence when a callee's capabilities flow to its callers.
pub fn rvs_propagation_target_precedence() -> (r: Vec<CalleeCapsSource>)
    ensures
        r@ == seq![CalleeCapsSource::PortMethod, CalleeCapsSource::ExactCapsMap,
            CalleeCapsSource::BodylessImplWithSignature, CalleeCapsSource::BodylessDeclaredCaps,
            CalleeCapsSource::Inferred, CalleeCapsSource::DeclaredCaps, CalleeCapsSource::ImplMajority],
{
    let mut r: Vec<CalleeCapsSource> = Vec::new();
    r.push(CalleeCapsSource::PortMethod);
    r.push(CalleeCapsSource::ExactCapsMap);
    r.push(CalleeCapsSource::BodylessImplWithSignature);
    r.push(CalleeCapsSource::BodylessDeclaredCaps);
    r.push(CalleeCapsSource::Inferred);
    r.push(CalleeCapsSource::DeclaredCaps);
    r.push(CalleeCapsSource::ImplMajority);
    assert(r@ =~= seq![CalleeCapsSource::PortMethod, CalleeCapsSource::ExactCapsMap,
            CalleeCapsSource::BodylessImplWithSignature, CalleeCapsSource::BodylessDeclaredCaps,
            CalleeCapsSource::Inferred, CalleeCapsSource::DeclaredCaps, CalleeCapsSource::ImplMajority]);
    r
}

/// Precedence when a call is checked against the caller's contract.
pub fn rvs_contract_check_precedence() -> (r: Vec<CalleeCapsSource>)
    ensures
        r@ == seq![CalleeCapsSource::PortMethod, CalleeCapsSource::ExactCapsMap,
            CalleeCapsSource::DeclaredCaps, CalleeCapsSource::Inferred, CalleeCapsSource::ImplMajority],
{
    let mut r: Vec<CalleeCapsSource> = Vec::new();
    r.push(CalleeCapsSource::PortMethod);
    r.push(CalleeCapsSource::ExactCapsMap);
    r.push(CalleeCapsSource::DeclaredCaps);
    r.push(CalleeCapsSource::Inferred);
    r.push(CalleeCapsSource::ImplMajority);
    assert(r@ =~= seq![CalleeCapsSource::PortMethod, CalleeCapsSource::ExactCapsMap,
            CalleeCapsSource::DeclaredCaps, CalleeCapsSource::Inferred, CalleeCapsSource::ImplMajority]);
    r
}

/// Precedence when explaining a callee's capabilities.
pub fn rvs_explanation_view_precedence() -> (r: Vec<CalleeCapsSource>)
    ensures
        r@ == seq![CalleeCapsSource::Inferred, CalleeCapsSource::ExactCapsMap, CalleeCapsSource::ImplMajority],
{
    let mut r: Vec<CalleeCapsSource> = Vec::new();
    r.push(CalleeCapsSource::Inferred);
    r.push(CalleeCapsSource::ExactCapsMap);
    r.push(CalleeCapsSource::ImplMajority);
    assert(r@ =~= seq![CalleeCapsSource::Inferred, CalleeCapsSource::ExactCapsMap, CalleeCapsSource::ImplMajority]);
    r
}

/// The operation a port call reaches: the trait method of a trait impl
/// method, else the callee itself.
pub open spec fn spec_port_operation(callee: Seq<char>) -> Seq<char> {
    match spec_trait_method_path(callee) {
        Some(t) => t,
        None => callee,
    }
}

/// Decides which capabilities a callee stands for.
#[derive(Debug)]
pub struct CalleeCapsResolver<'a> {
    pub graph: &'a FnGraph,
    pub knowledge: CapabilityKnowledgeView<'a>,
    pub inferred: &'a PathMap<CapabilitySet>,
    pub impl_index: &'a ImplIndex,
    pub scoped_port_methods: Option<&'a PathSet>,
}

impl<'a> CalleeCapsResolver<'a> {
    pub open spec fn wf(self) -> bool {
        &&& self.graph.wf()
        &&& self.knowledge.wf()
        &&& self.inferred.wf()
        &&& self.impl_index.wf()
        &&& self.scoped_port_methods matches Some(p) ==> p.wf()
    }

    /// What a port call starts from: the inferred capabilities of the
    /// operation (the trait method of a trait impl method), else of the
    /// callee, else the port marker alone.
    pub open spec fn spec_port_base(self, callee: Seq<char>) -> CapabilitySet {
        let op = spec_port_operation(callee);
        match self.inferred.spec_get(op) {
            Some(c) => c,
            None => match self.inferred.spec_get(callee) {
                Some(c) => c,
                None => spec_single(Capability::P),
            },
        }
    }

    /// The port source: nothing for a callee that is not a port method;
    /// else the base raised by the vote over the operation's implementations
    /// (or, without one, by the propagated capabilities its name declares),
    /// with the port marker.
    pub open spec fn spec_port_ok(self, callee: Seq<char>, r: Option<CapabilitySet>) -> bool {
        if !spec_is_port(*self.graph, self.scoped_port_methods, callee) {
            r is None
        } else {
            let op = spec_port_operation(callee);
            exists|voted: Option<CapabilitySet>| #[trigger] spec_majority_ok(op, *self.impl_index, *self.inferred, *self.graph, self.scoped_port_methods, voted)
                && r == Some(spec_union(spec_union(self.spec_port_base(callee), match voted {
                    Some(v) => v,
                    None => match spec_declared_caps(spec_fn_name(op)) {
                        Some(d) => spec_propagated(d),
                        None => spec_empty(),
                    },
                }), spec_single(Capability::P)))
        }
    }

    /// The bodyless source: for a graph declaration without body that is not
    /// a trait impl method, the vote over its implementations raised by its
    /// non-propagated inferred capabilities.
    pub open spec fn spec_bodyless_ok(self, callee: Seq<char>, r: Option<CapabilitySet>) -> bool {
        if spec_impl_split(callee) is Some || !self.graph.nodes.has_key(callee) || self.graph.nodes.spec_get(callee)->0.has_body {
            r is None
        } else {
            exists|m: Option<CapabilitySet>| #[trigger] spec_majority_ok(callee, *self.impl_index, *self.inferred, *self.graph, self.scoped_port_methods, m)
                && r == match m {
                    Some(c) => Some(spec_union(c, match self.inferred.spec_get(callee) {
                        Some(x) => spec_non_propagated(x),
                        None => spec_empty(),
                    })),
                    None => None,
                }
        }
    }

    /// The inferred entry counts for callees outside the graph, with a body,
    /// port methods and callees whose names declare capabilities.
    pub open spec fn spec_inferred_usable(self, callee: Seq<char>) -> bool {
        match self.graph.nodes.spec_get(callee) {
            None => true,
            Some(node) => node.has_body || spec_is_port(*self.graph, self.scoped_port_methods, callee)
                || spec_declared_caps(spec_fn_name(callee)) is Some,
        }
    }

    /// What one source gives the callee.
    pub open spec fn spec_source_ok(self, callee: Seq<char>, source: CalleeCapsSource, r: Option<CapabilitySet>) -> bool {
        match source {
            CalleeCapsSource::PortMethod => self.spec_port_ok(callee, r),
            CalleeCapsSource::ExactCapsMap => r == self.knowledge.spec_caps(callee),
            CalleeCapsSource::BodylessImplWithSignature => self.spec_bodyless_ok(callee, r),
            CalleeCapsSource::BodylessDeclaredCaps => r == (if self.graph.nodes.has_key(callee) && !self.graph.nodes.spec_get(callee)->0.has_body {
                spec_declared_caps(spec_fn_name(callee))
            } else {
                None
            }),
            CalleeCapsSource::Inferred => r == (if self.spec_inferred_usable(callee) {
                self.inferred.spec_get(callee)
            } else {
                None
            }),
            CalleeCapsSource::DeclaredCaps => r == spec_declared_caps(spec_fn_name(callee)),
            CalleeCapsSource::ImplMajority => if spec_impl_split(callee) is Some {
                r is None
            } else {
                spec_majority_ok(callee, *self.impl_index, *self.inferred, *self.graph, self.scoped_port_methods, r)
            },
        }
    }

    /// `r` is what the first source of `precedence` that gives anything
    /// gives, or nothing when none does.
    pub open spec fn spec_resolved(self, callee: Seq<char>, precedence: Seq<CalleeCapsSource>, r: Option<CapabilitySet>) -> bool {
        &&& r is Some ==> exists|i: int| 0 <= i < precedence.len() && #[trigger] self.spec_source_ok(callee, precedence[i], r)
            && forall|j: int| 0 <= j < i ==> #[trigger] self.spec_source_ok(callee, precedence[j], None)
        &&& r is None ==> forall|j: int| 0 <= j < precedence.len() ==> #[trigger] self.spec_source_ok(callee, precedence[j], None)
    }

    /// A resolver over a base capability map, judging port methods by the
    /// graph's facts.
    pub fn rvs_new(
        graph: &'a FnGraph,
        caps: &'a CapsMap,
        inferred: &'a PathMap<CapabilitySet>,
        impl_index: &'a ImplIndex,
    ) -> (r: CalleeCapsResolver<'a>)
        ensures
            r.graph == graph,
            r.knowledge.base == caps,
            r.knowledge.overlay is None,
            r.inferred == inferred,
            r.impl_index == impl_index,
            r.scoped_port_methods is None,
    {
        CalleeCapsResolver { graph, knowledge: CapabilityKnowledgeView::rvs_base(caps), inferred, impl_index, scoped_port_methods: None }
    }

    /// A resolver over a base capability map with a given port method set.
    pub fn rvs_new_scoped(
        graph: &'a FnGraph,
        caps: &'a CapsMap,
        inferred: &'a PathMap<CapabilitySet>,
        impl_index: &'a ImplIndex,
        scoped_port_methods: &'a PathSet,
    ) -> (r: CalleeCapsResolver<'a>)
        ensures
            r.graph == graph,
            r.knowledge.base == caps,
            r.knowledge.overlay is None,
            r.inferred == inferred,
            r.impl_index == impl_index,
            r.scoped_port_methods == Some(scoped_port_methods),
    {
        CalleeCapsResolver {
            graph,
            knowledge: CapabilityKnowledgeView::rvs_base(caps),
            inferred,
            impl_index,
            scoped_port_methods: Some(scoped_port_methods),
        }
    }

    /// A resolver over given knowledge with a given port method set.
    pub fn rvs_new_with_knowledge(
        graph: &'a FnGraph,
        knowledge: CapabilityKnowledgeView<'a>,
        inferred: &'a PathMap<CapabilitySet>,
        impl_index: &'a ImplIndex,
        scoped_port_methods: &'a PathSet,
    ) -> (r: CalleeCapsResolver<'a>)
        ensures
            r.graph == graph,
            r.knowledge == knowledge,
            r.inferred == inferred,
            r.impl_index == impl_index,
            r.scoped_port_methods == Some(scoped_port_methods),
    {
        CalleeCapsResolver { graph, knowledge, inferred, impl_index, scoped_port_methods: Some(scoped_port_methods) }
    }

    /// Whether the callee is a port method.
    pub fn rvs_is_port_method(&self, callee: &DefPath) -> (r: bool)
        requires
            self.wf(),
        ensures
            r == spec_is_port(*self.graph, self.scoped_port_methods, callee@),
    {
        rvs_is_port(self.graph, self.scoped_port_methods, callee)
    }

    /// The capability map's record of the callee, when it is not complete
    /// (port methods excepted).
    pub fn rvs_incomplete_exact_caps_info(&self, callee: &DefPath) -> (r: Option<CapabilityInfo>)
        requires
            self.wf(),
        ensures
            r == (if spec_is_port(*self.graph, self.scoped_port_methods, callee@) {
                None
            } else {
                match self.knowledge.spec_info(callee@) {
                    Some(info) => if info.completeness != CapabilityCompleteness::Complete { Some(info) } else { None },
                    None => None,
                }
            }),
    {
        if self.rvs_is_port_method(callee) {
            return None;
        }
        match self.knowledge.rvs_lookup_info(callee) {
            Some(info) => if info.completeness != CapabilityCompleteness::Complete {
                Some(info)
            } else {
                None
            },
            None => None,
        }
    }

    /// The capability map's record of the callee.
    pub fn rvs_exact_caps_info(&self, callee: &DefPath) -> (r: Option<CapabilityInfo>)
        requires
            self.wf(),
        ensures
            r == self.knowledge.spec_info(callee@),
    {
        self.knowledge.rvs_lookup_info(callee)
    }

    /// The capability map's capabilities of the callee.
    pub fn rvs_exact_caps(&self, callee: &DefPath) -> (r: Option<CapabilitySet>)
        requires
            self.wf(),
        ensures
            r == self.knowledge.spec_caps(callee@),
    {
        self.knowledge.rvs_lookup_caps(callee)
    }

    /// For a bodyless declaration that is not a trait impl method: the vote of
    /// its implementations, raised by the declaration's non-propagated
    /// inferred capabilities.
    pub fn rvs_bodyless_impl_caps_with_signature(&self, callee: &DefPath) -> (r: Option<CapabilitySet>)
        requires
            self.wf(),
        ensures
            self.spec_bodyless_ok(callee@, r),
    {
        if callee.rvs_is_trait_impl_path() {
            return None;
        }
        match self.graph.rvs_get_path(callee) {
            Some(node) => if node.has_body {
                return None;
            },
            None => {
                return None;
            },
        }
        let voted = rvs_resolve_impl_majority_caps_with_ports(callee, self.impl_index, self.inferred, self.graph, self.scoped_port_methods);
        let mut caps = match voted {
            Some(c) => c,
            None => {
                assert(spec_majority_ok(callee@, *self.impl_index, *self.inferred, *self.graph, self.scoped_port_methods, voted));
                return None;
            },
        };
        match self.inferred.rvs_get(callee.rvs_chars()) {
            Some(signature_caps) => {
                let _ = caps.rvs_union_M(&signature_caps.rvs_non_propagated());
            },
            None => {
                proof {
                    lemma_set_ext(caps, spec_union(caps, spec_empty()));
                }
            },
        }
        assert(spec_majority_ok(callee@, *self.impl_index, *self.inferred, *self.graph, self.scoped_port_methods, voted));
        Some(caps)
    }

    /// The capabilities one source gives the callee, if any.
    pub fn rvs_resolve_source(&self, callee: &DefPath, source: CalleeCapsSource) -> (r: Option<CapabilitySet>)
        requires
            self.wf(),
        ensures
            self.spec_source_ok(callee@, source, r),
            source == CalleeCapsSource::ExactCapsMap ==> r == self.knowledge.spec_caps(callee@),
            source == CalleeCapsSource::PortMethod ==> (r is Some <==> spec_is_port(*self.graph, self.scoped_port_methods, callee@)),
            source == CalleeCapsSource::PortMethod && r is Some ==> r->0.has(Capability::P),
    {
        match source {
            CalleeCapsSource::PortMethod => {
                if !self.rvs_is_port_method(callee) {
                    return None;
                }
                let operation = match callee.rvs_trait_method_path() {
                    Some(t) => t,
                    None => callee.rvs_copy(),
                };
                let mut caps = match self.inferred.rvs_get(operation.rvs_chars()) {
                    Some(c) => *c,
                    None => match self.inferred.rvs_get(callee.rvs_chars()) {
                        Some(c) => *c,
                        None => rvs_port_method_caps(),
                    },
                };
                let ghost base = caps;
                assert(operation@ == spec_port_operation(callee@));
                assert(base == self.spec_port_base(callee@));
                let voted = rvs_resolve_impl_majority_caps_with_ports(&operation, self.impl_index, self.inferred, self.graph, self.scoped_port_methods);
                match voted {
                    Some(v) => {
                        let _ = caps.rvs_union_M(&v);
                    },
                    None => {
                        match rvs_declared_caps_from_def_path(&operation) {
                            Some(declared) => {
                                let _ = caps.rvs_union_M(&declared.rvs_propagated());
                            },
                            None => {
                                proof {
                                    lemma_set_ext(caps, spec_union(base, spec_empty()));
                                }
                            },
                        }
                    },
                }
                let ghost raised = caps;
                caps.rvs_insert_M(Capability::P);
                proof {
                    lemma_set_ext(caps, spec_union(raised, spec_single(Capability::P)));
                    assert(spec_majority_ok(operation@, *self.impl_index, *self.inferred, *self.graph, self.scoped_port_methods, voted));
                }
                Some(caps)
            },
            CalleeCapsSource::ExactCapsMap => self.knowledge.rvs_lookup_caps(callee),
            CalleeCapsSource::BodylessImplWithSignature => self.rvs_bodyless_impl_caps_with_signature(callee),
            CalleeCapsSource::BodylessDeclaredCaps => match self.graph.rvs_get_path(callee) {
                Some(node) => if !node.has_body {
                    rvs_declared_caps_from_def_path(callee)
                } else {
                    None
                },
                None => None,
            },
            CalleeCapsSource::Inferred => {
                let usable = match self.graph.rvs_get_path(callee) {
                    None => true,
                    Some(node) => node.has_body || self.rvs_is_port_method(callee)
                        || rvs_declared_caps_from_def_path(callee).is_some(),
                };
                if usable {
                    match self.inferred.rvs_get(callee.rvs_chars()) {
                        Some(c) => Some(*c),
                        None => None,
                    }
                } else {
                    None
                }
            },
            CalleeCapsSource::DeclaredCaps => rvs_declared_caps_from_def_path(callee),
            CalleeCapsSource::ImplMajority => {
                if callee.rvs_is_trait_impl_path() {
                    None
                } else {
                    rvs_resolve_impl_majority_caps_with_ports(callee, self.impl_index, self.inferred, self.graph, self.scoped_port_methods)
                }
            },
        }
    }

    /// The first source, in the given precedence, that gives the callee
    /// capabilities.
    pub fn rvs_resolve(&self, callee: &DefPath, precedence: &Vec<CalleeCapsSource>) -> (r: Option<CapabilitySet>)
        requires
            self.wf(),
        ensures
            self.spec_resolved(callee@, precedence@, r),
            precedence@.len() > 0 && precedence@[0] == CalleeCapsSource::PortMethod
                && spec_is_port(*self.graph, self.scoped_port_methods, callee@) ==> r is Some && r->0.has(Capability::P),
            precedence@.len() > 1 && precedence@[0] == CalleeCapsSource::PortMethod
                && precedence@[1] == CalleeCapsSource::ExactCapsMap
                && !spec_is_port(*self.graph, self.scoped_port_methods, callee@)
                && self.knowledge.spec_caps(callee@) is Some ==> r == self.knowledge.spec_caps(callee@),
    {
        let mut i: usize = 0;
        while i < precedence.len()
            invariant
                self.wf(),
                i <= precedence@.len(),
                i > 0 && precedence@[0] == CalleeCapsSource::PortMethod ==> !spec_is_port(*self.graph, self.scoped_port_methods, callee@),
                precedence@.len() > 1 && precedence@[0] == CalleeCapsSource::PortMethod
                    && precedence@[1] == CalleeCapsSource::ExactCapsMap
                    && !spec_is_port(*self.graph, self.scoped_port_methods, callee@)
                    && self.knowledge.spec_caps(callee@) is Some ==> i <= 1,
                forall|j: int| 0 <= j < i ==> #[trigger] self.spec_source_ok(callee@, precedence@[j], None),
            decreases precedence@.len() - i,
        {
            let found = self.rvs_resolve_source(callee, precedence[i]);
            match found {
                Some(caps) => {
                    assert(self.spec_source_ok(callee@, precedence@[i as int], Some(caps)));
                    return Some(caps);
                },
                None => {},
            }
            i = i + 1;
        }
        None
    }

    /// The callee's capabilities as they flow to its callers.
    pub fn rvs_for_propagation_target(&self, callee: &DefPath) -> (r: Option<CapabilitySet>)
        requires
            self.wf(),
        ensures
            self.spec_resolved(callee@, seq![CalleeCapsSource::PortMethod, CalleeCapsSource::ExactCapsMap,
                CalleeCapsSource::BodylessImplWithSignature, CalleeCapsSource::BodylessDeclaredCaps,
                CalleeCapsSource::Inferred, CalleeCapsSource::DeclaredCaps, CalleeCapsSource::ImplMajority], r),
            spec_is_port(*self.graph, self.scoped_port_methods, callee@) ==> r is Some && r->0.has(Capability::P),
            !spec_is_port(*self.graph, self.scoped_port_methods, callee@)
                && self.knowledge.spec_caps(callee@) is Some ==> r == self.knowledge.spec_caps(callee@),
    {
        let precedence = rvs_propagation_target_precedence();
        self.rvs_resolve(callee, &precedence)
    }

    /// The callee's capabilities as a caller's contract is checked against them.
    pub fn rvs_for_contract_check(&self, callee: &DefPath) -> (r: Option<CapabilitySet>)
        requires
            self.wf(),
        ensures
            self.spec_resolved(callee@, seq![CalleeCapsSource::PortMethod, CalleeCapsSource::ExactCapsMap,
                CalleeCapsSource::DeclaredCaps, CalleeCapsSource::Inferred, CalleeCapsSource::ImplMajority], r),
            spec_is_port(*self.graph, self.scoped_port_methods, callee@) ==> r is Some && r->0.has(Capability::P),
            !spec_is_port(*self.graph, self.scoped_port_methods, callee@)
                && self.knowledge.spec_caps(callee@) is Some ==> r == self.knowledge.spec_caps(callee@),
    {
        let precedence = rvs_contract_check_precedence();
        self.rvs_resolve(callee, &precedence)
    }

    /// The callee's capabilities as shown in explanations.
    pub fn rvs_for_explanation_view(&self, callee: &DefPath) -> (r: Option<CapabilitySet>)
        requires
            self.wf(),
        ensures
            self.spec_resolved(callee@, seq![CalleeCapsSource::Inferred, CalleeCapsSource::ExactCapsMap, CalleeCapsSource::ImplMajority], r),
    {
        let precedence = rvs_explanation_view_precedence();
        self.rvs_resolve(callee, &precedence)
    }
}

} // verus!
