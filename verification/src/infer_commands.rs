//! The computing steps of the capability-map inference commands: which
//! records the standard-library map gets, when a standard-library collection
//! is complete enough to replace that map, and which callees nothing is known
//! of.
use vstd::prelude::*;

use crate::analysis::{rvs_generate_trait_alias_infos, rvs_incomplete_inference_paths, rvs_infer_caps_with_index, spec_incomplete_ok};
use crate::artifacts::FnGraph;
use crate::capability::{CapabilityBasis, CapabilityCompleteness, CapabilityInfo, CapabilitySet};
use crate::capsmap::CapsMap;
use crate::collections::{PathSet, rvs_list_add_M, rvs_set_contains, spec_lists_have};
use crate::function_classification::{LocalScope, spec_scope_contains};
use crate::graph_index::{ImplIndex, InferenceDependents, spec_is_aggregate_ports};
use crate::inference::spec_inference_ok;
use crate::pathmap::PathMap;
use crate::resolver::CapabilityKnowledgeView;
use crate::symbols::DefPath;
use crate::text::{rvs_chars_clone, rvs_chars_of, rvs_push_all, rvs_starts_with, rvs_string_of, spec_join, spec_starts_with};

verus! {

/// A path of the standard library's own crates.
pub open spec fn spec_std_like(p: Seq<char>) -> bool {
    ||| spec_starts_with(p, "std::"@)
    ||| spec_starts_with(p, "core::"@)
    ||| spec_starts_with(p, "alloc::"@)
}

/// Whether a definition path belongs to `std`, `core` or `alloc`.
pub fn rvs_is_std_like_def_path(path: &str) -> (r: bool)
    ensures
        r == spec_std_like(path@),
{
    let p = rvs_chars_of(path);
    let std_prefix = rvs_chars_of("std::");
    let core_prefix = rvs_chars_of("core::");
    let alloc_prefix = rvs_chars_of("alloc::");
    rvs_starts_with(p.as_slice(), std_prefix.as_slice())
        || rvs_starts_with(p.as_slice(), core_prefix.as_slice())
        || rvs_starts_with(p.as_slice(), alloc_prefix.as_slice())
}

/// The record a standard-library function gets from inference: its inferred
/// capabilities, incomplete exactly when the path is among the incomplete
/// ones.
pub fn rvs_std_inferred_capability_info(path: &DefPath, caps: &CapabilitySet, incomplete_paths: &PathSet) -> (r: CapabilityInfo)
    requires
        incomplete_paths.wf(),
    ensures
        r == (CapabilityInfo {
            caps: *caps,
            basis: CapabilityBasis::Inferred,
            completeness: if incomplete_paths.has_key(path@) {
                CapabilityCompleteness::Incomplete
            } else {
                CapabilityCompleteness::Complete
            },
        }),
{
    let completeness = if rvs_set_contains(incomplete_paths, path) {
        CapabilityCompleteness::Incomplete
    } else {
        CapabilityCompleteness::Complete
    };
    CapabilityInfo::rvs_new(*caps, CapabilityBasis::Inferred, completeness)
}

/// Some non-local function of the graph lies in crate `krate`.
pub open spec fn spec_crate_collected(graph: FnGraph, prefixes: Seq<Seq<char>>, krate: Seq<char>) -> bool {
    exists|j: int| 0 <= j < graph.nodes.len_spec()
        && !spec_scope_contains(prefixes, #[trigger] graph.nodes.key(j))
        && spec_starts_with(graph.nodes.key(j), krate + "::"@)
}

/// The standard-library crates, in report order, that the graph lacks.
pub open spec fn spec_missing_std_crates(graph: FnGraph, prefixes: Seq<Seq<char>>) -> Seq<Seq<char>> {
    seq!["std"@, "core"@, "alloc"@].filter(|c: Seq<char>| !spec_crate_collected(graph, prefixes, c))
}

/// The refusal when the collection lacks standard-library crates.
pub open spec fn spec_incomplete_std_message(missing: Seq<Seq<char>>) -> Seq<char> {
    "infer-std collection missing non-local crate graphs: "@ + spec_join(missing, ", "@)
        + "; refusing to replace std capsmap"@
}

/// Whether some non-local function of the graph has a path starting with
/// `prefix`.
fn rvs_has_non_local_with_prefix(callgraph: &FnGraph, local_scope: &LocalScope, prefix: &[char]) -> (r: bool)
    requires
        callgraph.wf(),
    ensures
        r == exists|j: int| 0 <= j < callgraph.nodes.len_spec()
            && !spec_scope_contains(local_scope.prefix_views(), #[trigger] callgraph.nodes.key(j))
            && spec_starts_with(callgraph.nodes.key(j), prefix@),
{
    let mut i: usize = 0;
    while i < callgraph.rvs_len()
        invariant
            callgraph.wf(),
            i <= callgraph.nodes.len_spec(),
            forall|j: int| 0 <= j < i ==> !(!spec_scope_contains(local_scope.prefix_views(), #[trigger] callgraph.nodes.key(j))
                && spec_starts_with(callgraph.nodes.key(j), prefix@)),
        decreases callgraph.nodes.len_spec() - i,
    {
        let name = callgraph.rvs_path_at(i);
        if !local_scope.rvs_contains(name) && rvs_starts_with(name.rvs_chars(), prefix) {
            return true;
        }
        i = i + 1;
    }
    false
}

/// Refuses a standard-library collection that holds no non-local function
/// of `std`, of `core` or of `alloc`, naming the missing crates.
pub fn rvs_require_complete_std_collection(callgraph: &FnGraph, local_scope: &LocalScope) -> (r: Result<(), String>)
    requires
        callgraph.wf(),
    ensures
        ({
            let missing = spec_missing_std_crates(*callgraph, local_scope.prefix_views());
            match r {
                Ok(()) => missing.len() == 0,
                Err(message) => missing.len() > 0 && message@ == spec_incomplete_std_message(missing),
            }
        }),
{
    let ghost prefixes = local_scope.prefix_views();
    let names = vec!["std", "core", "alloc"];
    let ghost names_view = seq!["std"@, "core"@, "alloc"@];
    let ghost pred = |c: Seq<char>| !spec_crate_collected(*callgraph, prefixes, c);
    let mut missing: Vec<char> = Vec::new();
    let mut count: usize = 0;
    let ghost mut parts: Seq<Seq<char>> = Seq::empty();
    let mut k: usize = 0;
    proof {
        assert(names_view.take(0).filter(pred) =~= Seq::<Seq<char>>::empty());
    }
    while k < 3
        invariant
            k <= 3,
            names@.len() == 3,
            forall|j: int| 0 <= j < 3 ==> #[trigger] names@[j]@ == names_view[j],
            names_view == seq!["std"@, "core"@, "alloc"@],
            pred == (|c: Seq<char>| !spec_crate_collected(*callgraph, prefixes, c)),
            prefixes == local_scope.prefix_views(),
            callgraph.wf(),
            parts == names_view.take(k as int).filter(pred),
            count == parts.len(),
            missing@ == spec_join(parts, ", "@),
        decreases 3 - k,
    {
        let name = names[k];
        let mut prefix = rvs_chars_of(name);
        let sep = rvs_chars_of("::");
        rvs_push_all(&mut prefix, sep.as_slice());
        let present = rvs_has_non_local_with_prefix(callgraph, local_scope, prefix.as_slice());
        proof {
            assert(prefix@ == names_view[k as int] + "::"@);
            assert(present == spec_crate_collected(*callgraph, prefixes, names_view[k as int]));
            assert(names_view.take(k + 1).drop_last() =~= names_view.take(k as int));
            names_view.take(k as int).lemma_filter_push(names_view[k as int], pred);
            assert(names_view.take(k as int).push(names_view[k as int]) =~= names_view.take(k + 1));
        }
        if !present {
            if count > 0 {
                let comma = rvs_chars_of(", ");
                rvs_push_all(&mut missing, comma.as_slice());
            }
            rvs_push_all(&mut missing, rvs_chars_of(name).as_slice());
            proof {
                let next = parts.push(names_view[k as int]);
                assert(next.drop_last() =~= parts);
                if parts.len() == 0 {
                    assert(missing@ =~= spec_join(next, ", "@));
                } else {
                    assert(missing@ =~= spec_join(next, ", "@));
                }
                parts = next;
            }
            count = count + 1;
        }
        k = k + 1;
    }
    proof {
        assert(names_view.take(3) =~= names_view);
        assert(parts == spec_missing_std_crates(*callgraph, prefixes));
    }
    if count == 0 {
        Ok(())
    } else {
        let mut message = rvs_chars_of("infer-std collection missing non-local crate graphs: ");
        rvs_push_all(&mut message, missing.as_slice());
        let tail = rvs_chars_of("; refusing to replace std capsmap");
        rvs_push_all(&mut message, tail.as_slice());
        Err(rvs_string_of(message.as_slice()))
    }
}

/// Callee `c` of standard-library function `f` is one the standard-library
/// map cannot answer for: `f` is a non-local `std`, `core` or `alloc`
/// function, the seed holds no record of `c`, and `c` is not an inferred
/// standard-library function.
pub open spec fn spec_std_unknown_call(
    graph: FnGraph,
    prefixes: Seq<Seq<char>>,
    inferred: PathMap<CapabilitySet>,
    seed: CapsMap,
    f: Seq<char>,
    c: Seq<char>,
) -> bool {
    &&& graph.nodes.has_key(f)
    &&& spec_std_like(f)
    &&& !spec_scope_contains(prefixes, f)
    &&& exists|q: int| 0 <= q < graph.nodes.spec_get(f)->0.calls@.len()
        && #[trigger] graph.nodes.spec_get(f)->0.calls@[q].def_path@ == c
    &&& seed.spec_info(c) is None
    &&& !(spec_std_like(c) && inferred.has_key(c))
}

/// The callees of non-local standard-library functions that neither the
/// seed nor the inferred standard-library records answer for, each with its
/// callers.
pub fn rvs_collect_std_unknown_callees(
    callgraph: &FnGraph,
    inferred: &PathMap<CapabilitySet>,
    seed: &CapsMap,
    local_scope: &LocalScope,
) -> (r: PathMap<Vec<DefPath>>)
    requires
        callgraph.wf(),
        inferred.wf(),
        seed.wf(),
    ensures
        r.wf(),
        forall|c: Seq<char>, f: Seq<char>| #[trigger] spec_lists_have(r, c, f)
            == spec_std_unknown_call(*callgraph, local_scope.prefix_views(), *inferred, *seed, f, c),
        forall|c: Seq<char>| #[trigger] r.has_key(c) ==> exists|f: Seq<char>| spec_lists_have(r, c, f),
{
    let ghost prefixes = local_scope.prefix_views();
    let mut unknown: PathMap<Vec<DefPath>> = PathMap::rvs_new();
    proof {
        assert forall|c: Seq<char>, f: Seq<char>| !#[trigger] spec_lists_have(unknown, c, f) by {
            assert(!unknown.has_key(c));
        }
    }
    let mut i: usize = 0;
    while i < callgraph.rvs_len()
        invariant
            callgraph.wf(),
            inferred.wf(),
            seed.wf(),
            unknown.wf(),
            prefixes == local_scope.prefix_views(),
            i <= callgraph.nodes.len_spec(),
            forall|c: Seq<char>, f: Seq<char>| #[trigger] spec_lists_have(unknown, c, f)
                == ((exists|j: int| 0 <= j < i && #[trigger] callgraph.nodes.key(j) == f)
                    && spec_std_unknown_call(*callgraph, prefixes, *inferred, *seed, f, c)),
            forall|c: Seq<char>| #[trigger] unknown.has_key(c) ==> exists|f: Seq<char>| spec_lists_have(unknown, c, f),
        decreases callgraph.nodes.len_spec() - i,
    {
        let func = callgraph.rvs_path_at(i);
        let node = callgraph.rvs_node_at(i);
        proof {
            callgraph.nodes.lemma_index_unique(i as int);
        }
        let is_std = rvs_is_std_like_def_path(&rvs_string_of(func.rvs_chars()));
        let is_local = local_scope.rvs_contains(func);
        let ghost outer_before = unknown;
        if is_std && !is_local {
            let mut q: usize = 0;
            while q < node.calls.len()
                invariant
                    callgraph.wf(),
                    inferred.wf(),
                    seed.wf(),
                    unknown.wf(),
                    prefixes == local_scope.prefix_views(),
                    i < callgraph.nodes.len_spec(),
                    func@ == callgraph.nodes.key(i as int),
                    *node == callgraph.nodes.val(i as int),
                    callgraph.nodes.spec_get(func@) == Some(*node),
                    spec_std_like(func@),
                    !spec_scope_contains(prefixes, func@),
                    q <= node.calls@.len(),
                    forall|c: Seq<char>, f: Seq<char>| #[trigger] spec_lists_have(unknown, c, f)
                        == (((exists|j: int| 0 <= j < i && #[trigger] callgraph.nodes.key(j) == f)
                            && spec_std_unknown_call(*callgraph, prefixes, *inferred, *seed, f, c))
                        || (f == func@ && (exists|p: int| 0 <= p < q && #[trigger] node.calls@[p].def_path@ == c)
                            && spec_std_unknown_call(*callgraph, prefixes, *inferred, *seed, f, c))),
                    forall|c: Seq<char>| #[trigger] unknown.has_key(c) ==> exists|f: Seq<char>| spec_lists_have(unknown, c, f),
                decreases node.calls@.len() - q,
            {
                let callee = &node.calls[q].def_path;
                let callee_is_emitted_std = rvs_is_std_like_def_path(&rvs_string_of(callee.rvs_chars()));
                let known = seed.rvs_lookup_def_path(callee).is_some()
                    || (callee_is_emitted_std && inferred.rvs_contains(callee.rvs_chars()));
                let ghost before = unknown;
                if !known {
                    rvs_list_add_M(&mut unknown, callee, func);
                }
                proof {
                    assert(node.calls@[q as int].def_path@ == callee@);
                    assert forall|c: Seq<char>, f: Seq<char>| #[trigger] spec_lists_have(unknown, c, f)
                        == (((exists|j: int| 0 <= j < i && #[trigger] callgraph.nodes.key(j) == f)
                            && spec_std_unknown_call(*callgraph, prefixes, *inferred, *seed, f, c))
                        || (f == func@ && (exists|p: int| 0 <= p < q + 1 && #[trigger] node.calls@[p].def_path@ == c)
                            && spec_std_unknown_call(*callgraph, prefixes, *inferred, *seed, f, c))) by {
                        if f == func@ && c == callee@ {
                            if !known {
                                assert(spec_std_unknown_call(*callgraph, prefixes, *inferred, *seed, f, c));
                            }
                        }
                        if f == func@ && exists|p: int| 0 <= p < q + 1 && #[trigger] node.calls@[p].def_path@ == c {
                            let p = choose|p: int| 0 <= p < q + 1 && #[trigger] node.calls@[p].def_path@ == c;
                            if p < q {
                                assert(exists|p: int| 0 <= p < q && #[trigger] node.calls@[p].def_path@ == c);
                            }
                        }
                    }
                    assert forall|c: Seq<char>| #[trigger] unknown.has_key(c) implies exists|f: Seq<char>| spec_lists_have(unknown, c, f) by {
                        if before.has_key(c) {
                            let f = choose|f: Seq<char>| spec_lists_have(before, c, f);
                            assert(spec_lists_have(unknown, c, f));
                        } else {
                            assert(spec_lists_have(unknown, c, func@));
                        }
                    }
                }
                q = q + 1;
            }
        }
        proof {
            assert forall|c: Seq<char>, f: Seq<char>| #[trigger] spec_lists_have(unknown, c, f)
                == ((exists|j: int| 0 <= j < i + 1 && #[trigger] callgraph.nodes.key(j) == f)
                    && spec_std_unknown_call(*callgraph, prefixes, *inferred, *seed, f, c)) by {
                if !(is_std && !is_local) {
                    assert(unknown == outer_before);
                    if f == func@ {
                        assert(!spec_std_unknown_call(*callgraph, prefixes, *inferred, *seed, f, c));
                    }
                }
                if f == func@ && spec_std_unknown_call(*callgraph, prefixes, *inferred, *seed, f, c) {
                    let p = choose|p: int| 0 <= p < callgraph.nodes.spec_get(f)->0.calls@.len()
                        && #[trigger] callgraph.nodes.spec_get(f)->0.calls@[p].def_path@ == c;
                    assert(node.calls@[p].def_path@ == c);
                }
                if exists|j: int| 0 <= j < i + 1 && #[trigger] callgraph.nodes.key(j) == f {
                    let j = choose|j: int| 0 <= j < i + 1 && #[trigger] callgraph.nodes.key(j) == f;
                    if j == i {
                        assert(f == func@);
                    } else {
                        assert(exists|j: int| 0 <= j < i && #[trigger] callgraph.nodes.key(j) == f);
                    }
                }
            }
        }
        i = i + 1;
    }
    proof {
        assert forall|c: Seq<char>, f: Seq<char>| #[trigger] spec_lists_have(unknown, c, f)
            == spec_std_unknown_call(*callgraph, prefixes, *inferred, *seed, f, c) by {
            if spec_std_unknown_call(*callgraph, prefixes, *inferred, *seed, f, c) {
                let j = callgraph.nodes.index_of(f);
                callgraph.nodes.lemma_index_unique(j);
                assert(callgraph.nodes.key(j) == f);
            }
        }
    }
    unknown
}

/// The standard-library entries of an inference.
fn rvs_std_entries(inferred: &PathMap<CapabilitySet>) -> (r: PathMap<CapabilitySet>)
    requires
        inferred.wf(),
    ensures
        r.wf(),
        forall|k: Seq<char>| #[trigger] r.spec_get(k) == if spec_std_like(k) { inferred.spec_get(k) } else { None },
        forall|k: Seq<char>| #[trigger] r.has_key(k) == (spec_std_like(k) && inferred.has_key(k)),
{
    let mut r: PathMap<CapabilitySet> = PathMap::rvs_new();
    let mut i: usize = 0;
    while i < inferred.rvs_len()
        invariant
            inferred.wf(),
            r.wf(),
            i <= inferred.len_spec(),
            forall|k: Seq<char>| #[trigger] r.has_key(k) == (spec_std_like(k) && exists|j: int| 0 <= j < i && #[trigger] inferred.key(j) == k),
            forall|k: Seq<char>| #[trigger] r.has_key(k) ==> r.spec_get(k) == inferred.spec_get(k),
        decreases inferred.len_spec() - i,
    {
        let path = inferred.rvs_key_at(i);
        proof {
            inferred.lemma_index_unique(i as int);
        }
        if rvs_is_std_like_def_path(&rvs_string_of(path.rvs_chars())) {
            r.rvs_insert_M(path.rvs_copy(), *inferred.rvs_value_at(i));
        }
        proof {
            assert forall|k: Seq<char>| #[trigger] r.has_key(k) == (spec_std_like(k) && exists|j: int| 0 <= j < i + 1 && #[trigger] inferred.key(j) == k) by {
                if exists|j: int| 0 <= j < i + 1 && #[trigger] inferred.key(j) == k {
                    let j = choose|j: int| 0 <= j < i + 1 && #[trigger] inferred.key(j) == k;
                    if j < i {
                        assert(exists|j: int| 0 <= j < i && #[trigger] inferred.key(j) == k);
                    }
                }
            }
        }
        i = i + 1;
    }
    proof {
        assert forall|k: Seq<char>| #[trigger] r.has_key(k) == (spec_std_like(k) && inferred.has_key(k)) by {
            if inferred.has_key(k) {
                let j = choose|j: int| 0 <= j < inferred.len_spec() && #[trigger] inferred.key(j) == k;
                assert(inferred.key(j) == k);
            }
        }
    }
    r
}

/// The entries of `infos` whose paths the seed holds no record of.
fn rvs_without_seeded(infos: &PathMap<CapabilityInfo>, seed: &CapsMap) -> (r: PathMap<CapabilityInfo>)
    requires
        infos.wf(),
        seed.wf(),
    ensures
        r.wf(),
        forall|k: Seq<char>| #[trigger] r.spec_get(k) == if seed.spec_info(k) is None { infos.spec_get(k) } else { None },
        forall|k: Seq<char>| #[trigger] r.has_key(k) == (seed.spec_info(k) is None && infos.has_key(k)),
{
    let mut r: PathMap<CapabilityInfo> = PathMap::rvs_new();
    let mut i: usize = 0;
    while i < infos.rvs_len()
        invariant
            infos.wf(),
            seed.wf(),
            r.wf(),
            i <= infos.len_spec(),
            forall|k: Seq<char>| #[trigger] r.has_key(k) == (seed.spec_info(k) is None && exists|j: int| 0 <= j < i && #[trigger] infos.key(j) == k),
            forall|k: Seq<char>| #[trigger] r.has_key(k) ==> r.spec_get(k) == infos.spec_get(k),
        decreases infos.len_spec() - i,
    {
        let path = infos.rvs_key_at(i);
        proof {
            infos.lemma_index_unique(i as int);
        }
        if seed.rvs_lookup_def_path(path).is_none() {
            r.rvs_insert_M(path.rvs_copy(), *infos.rvs_value_at(i));
        }
        proof {
            assert forall|k: Seq<char>| #[trigger] r.has_key(k) == (seed.spec_info(k) is None && exists|j: int| 0 <= j < i + 1 && #[trigger] infos.key(j) == k) by {
                if exists|j: int| 0 <= j < i + 1 && #[trigger] infos.key(j) == k {
                    let j = choose|j: int| 0 <= j < i + 1 && #[trigger] infos.key(j) == k;
                    if j < i {
                        assert(exists|j: int| 0 <= j < i && #[trigger] infos.key(j) == k);
                    }
                }
            }
        }
        i = i + 1;
    }
    proof {
        assert forall|k: Seq<char>| #[trigger] r.has_key(k) == (seed.spec_info(k) is None && infos.has_key(k)) by {
            if infos.has_key(k) {
                let j = choose|j: int| 0 <= j < infos.len_spec() && #[trigger] infos.key(j) == k;
                assert(infos.key(j) == k);
            }
        }
    }
    r
}

/// Whether two record maps hold the same entries in the same order.
fn rvs_same_infos(a: &PathMap<CapabilityInfo>, b: &PathMap<CapabilityInfo>) -> (r: bool)
    ensures
        r == (a.len_spec() == b.len_spec() && forall|i: int| 0 <= i < a.len_spec() ==> #[trigger] a.key(i) == b.key(i) && a.val(i) == b.val(i)),
{
    if a.rvs_len() != b.rvs_len() {
        return false;
    }
    let mut i: usize = 0;
    while i < a.rvs_len()
        invariant
            a.len_spec() == b.len_spec(),
            i <= a.len_spec(),
            forall|j: int| 0 <= j < i ==> #[trigger] a.key(j) == b.key(j) && a.val(j) == b.val(j),
        decreases a.len_spec() - i,
    {
        let same_key = a.rvs_key_at(i).rvs_eq(b.rvs_key_at(i));
        let same_value = *a.rvs_value_at(i) == *b.rvs_value_at(i);
        if !same_key || !same_value {
            return false;
        }
        assert forall|j: int| 0 <= j < i + 1 implies #[trigger] a.key(j) == b.key(j) && a.val(j) == b.val(j) by {
            if j == i {
                assert(a.key(i as int) == b.key(i as int));
                assert(a.val(i as int) == b.val(i as int));
            }
        }
        i = i + 1;
    }
    true
}

/// `s` is the seed with the alias records laid over it.
pub open spec fn spec_seed_with_aliases(seed: CapsMap, aliases: PathMap<CapabilityInfo>, s: CapsMap) -> bool {
    &&& s.wf()
    &&& forall|k: Seq<char>| #[trigger] s.spec_info(k) == if aliases.has_key(k) { aliases.spec_get(k) } else { seed.spec_info(k) }
}

/// `inferred` and `incomplete` are what inference and its incompleteness
/// analysis give for the graph from the capability map `s`.
pub open spec fn spec_inference_round(graph: FnGraph, s: CapsMap, inferred: PathMap<CapabilitySet>, incomplete: PathSet) -> bool {
    &&& exists|ports: PathSet| #[trigger] spec_is_aggregate_ports(graph, ports)
        && spec_inference_ok(graph, CapabilityKnowledgeView { base: &s, overlay: None }, ports, inferred)
    &&& exists|ports: PathSet, d: InferenceDependents| #[trigger] spec_is_aggregate_ports(graph, ports) && #[trigger] d.wf()
        && spec_incomplete_ok(graph, CapabilityKnowledgeView { base: &s, overlay: None }, ports, inferred, d, incomplete)
}

/// Inference for the standard library with generated trait method aliases:
/// the inference is rerun with the alias records of its trait methods laid
/// over the seed until the aliases stop changing. Paths the seed holds keep
/// their seed records and get no alias.
///
/// The rounds are capped at `n * (8 * n + 10) + 2` for a graph of `n`
/// functions (at the largest `usize` beyond 4096 functions), more than an alias set that only grows can change: each alias
/// holds eight capabilities, a completeness and eight vote counts of at most
/// `n` implementations.
pub fn rvs_infer_std_with_trait_aliases(
    callgraph: &FnGraph,
    seed: &CapsMap,
    impl_index: &ImplIndex,
) -> (r: (PathMap<CapabilitySet>, PathSet, PathMap<CapabilityInfo>))
    requires
        callgraph.wf(),
        seed.wf(),
        impl_index.wf(),
    ensures
        r.0.wf(),
        r.1.wf(),
        r.2.wf(),
        forall|a: Seq<char>| #[trigger] r.2.has_key(a) ==> seed.spec_info(a) is None,
        exists|s: CapsMap| #[trigger] spec_seed_with_aliases(*seed, r.2, s) && spec_inference_round(*callgraph, s, r.0, r.1),
{
    let n = callgraph.rvs_len();
    let limit: usize = if n <= 4096 {
        assert(n * (8 * n + 10) + 2 <= 4096 * (8 * 4096 + 10) + 2) by (nonlinear_arith)
            requires
                n <= 4096,
        ;
        n * (8 * n + 10) + 2
    } else {
        usize::MAX
    };
    let mut aliases: PathMap<CapabilityInfo> = PathMap::rvs_new();
    let mut round: usize = 0;
    loop
        invariant
            callgraph.wf(),
            seed.wf(),
            impl_index.wf(),
            aliases.wf(),
            forall|a: Seq<char>| #[trigger] aliases.has_key(a) ==> seed.spec_info(a) is None,
            round < limit,
        decreases limit - round,
    {
        let mut alias_seed = CapsMap::rvs_new();
        alias_seed.rvs_extend_info_entries_M(&seed.entries);
        alias_seed.rvs_extend_info_entries_M(&aliases);
        proof {
            assert forall|k: Seq<char>| #[trigger] alias_seed.spec_info(k) == if aliases.has_key(k) { aliases.spec_get(k) } else { seed.spec_info(k) } by {
            }
        }
        let inferred = rvs_infer_caps_with_index(callgraph, &alias_seed, impl_index);
        let incomplete = rvs_incomplete_inference_paths(callgraph, &alias_seed, &inferred, impl_index);
        proof {
            assert(spec_seed_with_aliases(*seed, aliases, alias_seed));
            assert(spec_inference_round(*callgraph, alias_seed, inferred, incomplete));
        }
        let std_inferred = rvs_std_entries(&inferred);
        let generated = rvs_generate_trait_alias_infos(&std_inferred, impl_index, callgraph, &incomplete);
        let next_aliases = rvs_without_seeded(&generated, seed);
        round = round + 1;
        if round >= limit || rvs_same_infos(&next_aliases, &aliases) {
            return (inferred, incomplete, aliases);
        }
        aliases = next_aliases;
    }
}

/// The output path of an inference command: an absolute output path as it
/// is, a relative one under the project directory.
pub open spec fn spec_resolve_output_path(project: Seq<char>, output: Seq<char>) -> Seq<char> {
    if output.len() > 0 && output[0] == '/' {
        output
    } else if project.len() == 0 {
        output
    } else if project.last() == '/' {
        project + output
    } else {
        project + "/"@ + output
    }
}

/// Resolves the output path of an inference command against the project
/// directory.
pub fn rvs_resolve_output_path(project_path: &str, output_path: &str) -> (r: String)
    ensures
        r@ == spec_resolve_output_path(project_path@, output_path@),
{
    let project = rvs_chars_of(project_path);
    let output = rvs_chars_of(output_path);
    if output.len() > 0 && output[0] == '/' {
        return rvs_string_of(output.as_slice());
    }
    if project.len() == 0 {
        return rvs_string_of(output.as_slice());
    }
    let mut joined = rvs_chars_clone(&project);
    if project[project.len() - 1] != '/' {
        joined.push('/');
    }
    rvs_push_all(&mut joined, output.as_slice());
    proof {
        if project@.last() != '/' {
            reveal_strlit("/");
            assert(joined@ =~= project@ + "/"@ + output@);
        }
    }
    rvs_string_of(joined.as_slice())
}

} // verus!
