//! Texts produced from analysis results: capability maps keyed by user paths
//! and the report of callees nothing is known of.
use vstd::prelude::*;

use crate::analysis::{rvs_combine_capability_info, spec_combine};
use crate::capability::{CapabilityBasis, CapabilityCompleteness, CapabilityInfo, CapabilitySet, spec_letters, spec_union};
use crate::capsfile::{rvs_decimal, spec_decimal, spec_render};
use crate::capsmap::CapsMap;
use crate::collections::{PathSet, rvs_set_insert_M, rvs_set_new};
use crate::pathmap::PathMap;
use crate::symbols::{DefPath, spec_user_path};
use crate::text::{rvs_chars_of, rvs_push_all, rvs_string_of};

verus! {

/// Records merged by user path, entry by entry: the first record of a user
/// path stands as it is; each later one is combined with it over the union
/// of their capabilities.
pub open spec fn spec_normalized(entries: Seq<(DefPath, CapabilityInfo)>) -> Map<Seq<char>, CapabilityInfo>
    decreases entries.len(),
{
    if entries.len() == 0 {
        Map::empty()
    } else {
        let m = spec_normalized(entries.drop_last());
        let u = spec_user_path(entries.last().0@);
        let info = entries.last().1;
        if m.contains_key(u) {
            m.insert(u, spec_combine(m[u], info, spec_union(m[u].caps, info.caps)))
        } else {
            m.insert(u, info)
        }
    }
}

/// The records of `infos` merged by user path.
pub fn rvs_normalize_capability_info(infos: &PathMap<CapabilityInfo>) -> (r: CapsMap)
    ensures
        r.wf(),
        forall|u: Seq<char>| #[trigger] r.spec_info(u) == (if spec_normalized(infos.entries@).contains_key(u) {
            Some(spec_normalized(infos.entries@)[u])
        } else {
            None
        }),
{
    let mut map = CapsMap::rvs_new();
    let mut i: usize = 0;
    proof {
        assert(infos.entries@.subrange(0, 0) =~= Seq::<(DefPath, CapabilityInfo)>::empty());
    }
    while i < infos.rvs_len()
        invariant
            map.wf(),
            i <= infos.len_spec(),
            forall|u: Seq<char>| #[trigger] map.spec_info(u) == (if spec_normalized(infos.entries@.subrange(0, i as int)).contains_key(u) {
                Some(spec_normalized(infos.entries@.subrange(0, i as int))[u])
            } else {
                None
            }),
        decreases infos.len_spec() - i,
    {
        let key = infos.rvs_key_at(i).rvs_user_path();
        let info = *infos.rvs_value_at(i);
        let ghost prev = spec_normalized(infos.entries@.subrange(0, i as int));
        proof {
            let sub = infos.entries@.subrange(0, i + 1);
            assert(sub.drop_last() =~= infos.entries@.subrange(0, i as int));
            assert(sub.last() == infos.entries@[i as int]);
        }
        let ghost before = map;
        match map.rvs_lookup_info_def_path(&key) {
            Some(existing) => {
                let mut combined = existing.caps;
                let _ = combined.rvs_union_M(&info.caps);
                let merged = rvs_combine_capability_info(&existing, &info, combined);
                map.rvs_insert_info_M(key, merged);
            },
            None => {
                map.rvs_insert_info_M(key, info);
            },
        }
        proof {
            let next = spec_normalized(infos.entries@.subrange(0, i + 1));
            assert forall|u: Seq<char>| #[trigger] map.spec_info(u) == (if next.contains_key(u) { Some(next[u]) } else { None }) by {
                if u != key@ {
                    assert(map.spec_info(u) == before.spec_info(u));
                }
            }
        }
        i = i + 1;
    }
    proof {
        assert(infos.entries@.subrange(0, infos.len_spec() as int) =~= infos.entries@);
    }
    map
}

/// The version 2 capability map text of `infos`, merged by user path.
pub fn rvs_format_def_path_capability_info(infos: &PathMap<CapabilityInfo>) -> (r: String)
    ensures
        exists|m: CapsMap| #[trigger] spec_render(m) == r@ && m.wf()
            && forall|u: Seq<char>| #[trigger] m.spec_info(u) == (if spec_normalized(infos.entries@).contains_key(u) {
                Some(spec_normalized(infos.entries@)[u])
            } else {
                None
            }),
{
    let map = rvs_normalize_capability_info(infos);
    map.rvs_render_v2()
}

/// Inferred records of capability sets, complete.
pub open spec fn spec_inferred_infos(caps: Seq<(DefPath, CapabilitySet)>) -> Seq<(DefPath, CapabilityInfo)> {
    caps.map_values(|e: (DefPath, CapabilitySet)| (e.0, CapabilityInfo {
        caps: e.1,
        basis: CapabilityBasis::Inferred,
        completeness: CapabilityCompleteness::Complete,
    }))
}

fn rvs_inferred_infos(caps: &PathMap<CapabilitySet>) -> (r: PathMap<CapabilityInfo>)
    ensures
        r.entries@.len() == caps.entries@.len(),
        forall|i: int| 0 <= i < r.entries@.len() ==> (#[trigger] r.entries@[i]).0@ == caps.entries@[i].0@
            && r.entries@[i].1 == (CapabilityInfo { caps: caps.entries@[i].1, basis: CapabilityBasis::Inferred, completeness: CapabilityCompleteness::Complete }),
        caps.wf() ==> r.wf(),
{
    let mut entries: Vec<(DefPath, CapabilityInfo)> = Vec::new();
    let mut i: usize = 0;
    while i < caps.entries.len()
        invariant
            i <= caps.entries@.len(),
            entries@.len() == i,
            forall|j: int| 0 <= j < i ==> (#[trigger] entries@[j]).0@ == caps.entries@[j].0@
                && entries@[j].1 == (CapabilityInfo { caps: caps.entries@[j].1, basis: CapabilityBasis::Inferred, completeness: CapabilityCompleteness::Complete }),
        decreases caps.entries@.len() - i,
    {
        entries.push((caps.entries[i].0.rvs_copy(), CapabilityInfo::rvs_inferred(caps.entries[i].1)));
        i = i + 1;
    }
    let r = PathMap { entries };
    proof {
        if caps.wf() {
            assert forall|a: int, b: int| 0 <= a < b < r.len_spec() implies crate::order::spec_lt(#[trigger] r.key(a), #[trigger] r.key(b)) by {
                assert(r.key(a) == caps.key(a) && r.key(b) == caps.key(b));
            }
        }
    }
    r
}

/// The version 2 capability map text of inferred capability sets.
pub fn rvs_format_capsmap(caps: &PathMap<CapabilitySet>) -> (r: String)
    requires
        caps.wf(),
    ensures
        exists|m: CapsMap| #[trigger] spec_render(m) == r@ && m.wf()
            && forall|k: Seq<char>| #[trigger] m.spec_info(k) == match caps.spec_get(k) {
                Some(c) => Some(CapabilityInfo { caps: c, basis: CapabilityBasis::Inferred, completeness: CapabilityCompleteness::Complete }),
                None => None,
            },
{
    let infos = rvs_inferred_infos(caps);
    let mut map = CapsMap::rvs_new();
    map.rvs_extend_info_entries_M(&infos);
    proof {
        assert forall|k: Seq<char>| #[trigger] map.spec_info(k) == match caps.spec_get(k) {
            Some(c) => Some(CapabilityInfo { caps: c, basis: CapabilityBasis::Inferred, completeness: CapabilityCompleteness::Complete }),
            None => None,
        } by {
            if caps.has_key(k) {
                let j = caps.index_of(k);
                caps.lemma_index_unique(j);
                assert(infos.key(j) == k);
                infos.lemma_index_unique(j);
            } else {
                if infos.has_key(k) {
                    let j = choose|j: int| 0 <= j < infos.len_spec() && #[trigger] infos.key(j) == k;
                    assert(caps.key(j) == k);
                }
            }
        }
    }
    map.rvs_render_v2()
}

/// Capability sets merged by user path: the union of the sets of the
/// entries with that user path.
pub open spec fn spec_merged_by_user_path(entries: Seq<(DefPath, CapabilitySet)>) -> Map<Seq<char>, CapabilitySet>
    decreases entries.len(),
{
    if entries.len() == 0 {
        Map::empty()
    } else {
        let m = spec_merged_by_user_path(entries.drop_last());
        let u = spec_user_path(entries.last().0@);
        let before = if m.contains_key(u) { m[u] } else { crate::capability::spec_empty() };
        m.insert(u, spec_union(before, entries.last().1))
    }
}

/// The version 2 capability map text of capability sets merged by user path
/// (the union of the sets of one user path), each an inferred, complete
/// record.
pub fn rvs_format_def_path_capsmap(caps: &PathMap<CapabilitySet>) -> (r: String)
    requires
        caps.wf(),
    ensures
        exists|m: CapsMap| #[trigger] spec_render(m) == r@ && m.wf()
            && forall|k: Seq<char>| #[trigger] m.spec_info(k) == (if spec_merged_by_user_path(caps.entries@).contains_key(k) {
                Some(CapabilityInfo {
                    caps: spec_merged_by_user_path(caps.entries@)[k],
                    basis: CapabilityBasis::Inferred,
                    completeness: CapabilityCompleteness::Complete,
                })
            } else {
                None
            }),
{
    let mut normalized: PathMap<CapabilitySet> = PathMap::rvs_new();
    let mut i: usize = 0;
    proof {
        assert(caps.entries@.subrange(0, 0) =~= Seq::<(DefPath, CapabilitySet)>::empty());
        assert forall|k: Seq<char>| #[trigger] normalized.spec_get(k) == (if spec_merged_by_user_path(caps.entries@.subrange(0, 0)).contains_key(k) {
            Some(spec_merged_by_user_path(caps.entries@.subrange(0, 0))[k])
        } else {
            None
        }) by {
            assert(!normalized.has_key(k));
        }
    }
    while i < caps.rvs_len()
        invariant
            caps.wf(),
            normalized.wf(),
            i <= caps.len_spec(),
            forall|k: Seq<char>| #[trigger] normalized.spec_get(k) == (if spec_merged_by_user_path(caps.entries@.subrange(0, i as int)).contains_key(k) {
                Some(spec_merged_by_user_path(caps.entries@.subrange(0, i as int))[k])
            } else {
                None
            }),
        decreases caps.len_spec() - i,
    {
        let key = caps.rvs_key_at(i).rvs_user_path();
        let path_caps = *caps.rvs_value_at(i);
        let ghost before = normalized;
        let _ = crate::growth::rvs_extend_entry_M(&mut normalized, &key, &path_caps);
        proof {
            let sub = caps.entries@.subrange(0, i + 1);
            assert(sub.drop_last() =~= caps.entries@.subrange(0, i as int));
            assert(sub.last() == caps.entries@[i as int]);
            let m = spec_merged_by_user_path(caps.entries@.subrange(0, i as int));
            assert forall|k: Seq<char>| #[trigger] normalized.spec_get(k) == (if spec_merged_by_user_path(sub).contains_key(k) {
                Some(spec_merged_by_user_path(sub)[k])
            } else {
                None
            }) by {
                if k == key@ {
                    assert(crate::growth::spec_entry_or_empty(before, k) == (if m.contains_key(k) { m[k] } else { crate::capability::spec_empty() }));
                }
            }
        }
        i = i + 1;
    }
    proof {
        assert(caps.entries@.subrange(0, caps.len_spec() as int) =~= caps.entries@);
    }
    rvs_format_capsmap(&normalized)
}

/// The letters of a capability set.
pub fn rvs_caps_to_string(caps: &CapabilitySet) -> (r: String)
    ensures
        r@ == spec_letters(*caps),
{
    caps.rvs_letters()
}


/// `called by` lines for callers, one per caller.
pub open spec fn spec_called_by_lines(callers: Seq<Seq<char>>) -> Seq<char>
    decreases callers.len(),
{
    if callers.len() == 0 {
        Seq::empty()
    } else {
        spec_called_by_lines(callers.drop_last()) + "    called by: "@ + callers.last() + seq!['\n']
    }
}

/// The block of one unknown callee: its user path, its first three callers
/// and how many more there are.
pub open spec fn spec_unknown_block(u: Seq<char>, callers: Seq<Seq<char>>) -> Seq<char> {
    let shown = if callers.len() > 3 { callers.take(3) } else { callers };
    "  "@ + u + "=\n"@ + spec_called_by_lines(shown)
        + if callers.len() > 3 { "    ... and "@ + spec_decimal((callers.len() - 3) as nat) + " more\n"@ } else { Seq::empty() }
}

/// The caller paths of a set, in order.
pub open spec fn spec_set_items(set: PathSet) -> Seq<Seq<char>> {
    set.entries@.map_values(|e: (DefPath, ())| e.0@)
}

/// The blocks of all unknown callees, in user path order.
pub open spec fn spec_unknown_blocks(groups: Seq<(DefPath, PathSet)>) -> Seq<char>
    decreases groups.len(),
{
    if groups.len() == 0 {
        Seq::empty()
    } else {
        spec_unknown_blocks(groups.drop_last()) + spec_unknown_block(groups.last().0@, spec_set_items(groups.last().1))
    }
}

/// The callers of unknown callees grouped by the callees' user paths.
pub open spec fn spec_groups_ok(unknown: PathMap<Vec<DefPath>>, g: PathMap<PathSet>) -> bool {
    &&& g.wf()
    &&& forall|u: Seq<char>| #[trigger] g.has_key(u) <==> exists|c: Seq<char>| unknown.has_key(c) && #[trigger] spec_user_path(c) == u
    &&& forall|u: Seq<char>| #[trigger] g.has_key(u) ==> g.spec_get(u)->0.wf()
    &&& forall|u: Seq<char>, x: Seq<char>| g.has_key(u) ==> (#[trigger] g.spec_get(u)->0.has_key(x)
        <==> exists|c: Seq<char>| #[trigger] spec_user_path(c) == u && crate::collections::spec_lists_have(unknown, c, x))
}

fn rvs_push_unknown_block(out: &mut Vec<char>, u: &DefPath, callers: &PathSet)
    ensures
        final(out)@ == old(out)@ + spec_unknown_block(u@, spec_set_items(*callers)),
{
    let ghost items = spec_set_items(*callers);
    let ghost start = out@;
    let mut block: Vec<char> = rvs_chars_of("  ");
    rvs_push_all(&mut block, u.rvs_chars());
    let eq_nl = rvs_chars_of("=\n");
    rvs_push_all(&mut block, eq_nl.as_slice());
    let ghost head = block@;
    let n = callers.rvs_len();
    let shown: usize = if n > 3 { 3 } else { n };
    let ghost shown_items = if items.len() > 3 { items.take(3) } else { items };
    let prefix = rvs_chars_of("    called by: ");
    let mut i: usize = 0;
    proof {
        assert(items.take(0) =~= Seq::<Seq<char>>::empty());
    }
    while i < shown
        invariant
            i <= shown,
            shown <= n,
            n == callers.len_spec(),
            items == spec_set_items(*callers),
            items.len() == n,
            shown == (if n > 3 { 3 } else { n }),
            prefix@ == "    called by: "@,
            block@ == head + spec_called_by_lines(items.take(i as int)),
        decreases shown - i,
    {
        rvs_push_all(&mut block, prefix.as_slice());
        rvs_push_all(&mut block, callers.rvs_key_at(i).rvs_chars());
        block.push('\n');
        proof {
            assert(items.take(i + 1).drop_last() =~= items.take(i as int));
            assert(items.take(i + 1).last() == callers.key(i as int));
            assert(block@ =~= head + spec_called_by_lines(items.take(i + 1)));
        }
        i = i + 1;
    }
    proof {
        if n <= 3 {
            assert(items.take(n as int) =~= items);
        }
        assert(items.take(shown as int) == shown_items);
    }
    if n > 3 {
        let more = rvs_chars_of("    ... and ");
        rvs_push_all(&mut block, more.as_slice());
        let digits = rvs_decimal(n - 3);
        rvs_push_all(&mut block, digits.as_slice());
        let tail = rvs_chars_of(" more\n");
        rvs_push_all(&mut block, tail.as_slice());
    }
    proof {
        assert(block@ =~= spec_unknown_block(u@, items));
    }
    rvs_push_all(out, block.as_slice());
}

/// The report of unknown callees: the header, then per callee user path its
/// first three callers (in path order) and how many more there are.
pub fn rvs_format_unknown_callees(unknown: &PathMap<Vec<DefPath>>, header: &str) -> (r: String)
    requires
        unknown.wf(),
    ensures
        exists|g: PathMap<PathSet>| #[trigger] spec_groups_ok(*unknown, g) && r@ == header@ + spec_unknown_blocks(g.entries@),
{
    let mut groups: PathMap<PathSet> = PathMap::rvs_new();
    let mut i: usize = 0;
    while i < unknown.rvs_len()
        invariant
            unknown.wf(),
            groups.wf(),
            i <= unknown.len_spec(),
            forall|u: Seq<char>| #[trigger] groups.has_key(u) <==> exists|j: int| 0 <= j < i && #[trigger] spec_user_path(unknown.key(j)) == u,
            forall|u: Seq<char>| #[trigger] groups.has_key(u) ==> groups.spec_get(u)->0.wf(),
            forall|u: Seq<char>, x: Seq<char>| groups.has_key(u) ==> (#[trigger] groups.spec_get(u)->0.has_key(x)
                <==> exists|j: int| 0 <= j < i && #[trigger] spec_user_path(unknown.key(j)) == u
                    && crate::collections::spec_list_has(unknown.val(j)@, x)),
        decreases unknown.len_spec() - i,
    {
        let u = unknown.rvs_key_at(i).rvs_user_path();
        let callers = unknown.rvs_value_at(i);
        let mut set = match groups.rvs_get(u.rvs_chars()) {
            Some(existing) => crate::collections::rvs_set_copy(existing),
            None => rvs_set_new(),
        };
        let ghost start_set = set;
        let mut q: usize = 0;
        while q < callers.len()
            invariant
                set.wf(),
                q <= callers@.len(),
                forall|x: Seq<char>| #[trigger] set.has_key(x) <==> start_set.has_key(x)
                    || exists|p: int| 0 <= p < q && #[trigger] callers@[p]@ == x,
            decreases callers@.len() - q,
        {
            let _ = rvs_set_insert_M(&mut set, &callers[q]);
            proof {
                assert forall|x: Seq<char>| #[trigger] set.has_key(x) <==> start_set.has_key(x)
                    || exists|p: int| 0 <= p < q + 1 && #[trigger] callers@[p]@ == x by {
                    if x == callers@[q as int]@ {
                    } else if exists|p: int| 0 <= p < q + 1 && #[trigger] callers@[p]@ == x {
                        let p = choose|p: int| 0 <= p < q + 1 && #[trigger] callers@[p]@ == x;
                        assert(p < q);
                    }
                }
            }
            q = q + 1;
        }
        let ghost before = groups;
        groups.rvs_insert_M(u, set);
        proof {
            assert forall|uu: Seq<char>| #[trigger] groups.has_key(uu) <==> exists|j: int| 0 <= j < i + 1 && #[trigger] spec_user_path(unknown.key(j)) == uu by {
                if uu == spec_user_path(unknown.key(i as int)) {
                } else if exists|j: int| 0 <= j < i + 1 && #[trigger] spec_user_path(unknown.key(j)) == uu {
                    let j = choose|j: int| 0 <= j < i + 1 && #[trigger] spec_user_path(unknown.key(j)) == uu;
                    assert(j < i);
                }
            }
            assert forall|uu: Seq<char>, x: Seq<char>| groups.has_key(uu) implies (#[trigger] groups.spec_get(uu)->0.has_key(x)
                <==> exists|j: int| 0 <= j < i + 1 && #[trigger] spec_user_path(unknown.key(j)) == uu
                    && crate::collections::spec_list_has(unknown.val(j)@, x)) by {
                if uu == spec_user_path(unknown.key(i as int)) {
                    if exists|j: int| 0 <= j < i + 1 && #[trigger] spec_user_path(unknown.key(j)) == uu
                        && crate::collections::spec_list_has(unknown.val(j)@, x) {
                        let j = choose|j: int| 0 <= j < i + 1 && #[trigger] spec_user_path(unknown.key(j)) == uu
                            && crate::collections::spec_list_has(unknown.val(j)@, x);
                        if j == i {
                            let p = choose|p: int| 0 <= p < callers@.len() && #[trigger] callers@[p]@ == x;
                            assert(callers@[p]@ == x);
                        } else {
                            assert(before.has_key(uu));
                        }
                    }
                    if start_set.has_key(x) {
                        assert(before.has_key(uu));
                    }
                    if exists|p: int| 0 <= p < callers@.len() && #[trigger] callers@[p]@ == x {
                        let p = choose|p: int| 0 <= p < callers@.len() && #[trigger] callers@[p]@ == x;
                        assert(crate::collections::spec_list_has(unknown.val(i as int)@, x));
                    }
                } else {
                    assert(groups.spec_get(uu) == before.spec_get(uu));
                    if exists|j: int| 0 <= j < i + 1 && #[trigger] spec_user_path(unknown.key(j)) == uu
                        && crate::collections::spec_list_has(unknown.val(j)@, x) {
                        let j = choose|j: int| 0 <= j < i + 1 && #[trigger] spec_user_path(unknown.key(j)) == uu
                            && crate::collections::spec_list_has(unknown.val(j)@, x);
                        assert(j < i);
                    }
                }
            }
        }
        i = i + 1;
    }
    proof {
        assert forall|u: Seq<char>| #[trigger] groups.has_key(u) <==> exists|c: Seq<char>| unknown.has_key(c) && #[trigger] spec_user_path(c) == u by {
            if groups.has_key(u) {
                let j = choose|j: int| 0 <= j < unknown.len_spec() && #[trigger] spec_user_path(unknown.key(j)) == u;
                assert(unknown.has_key(unknown.key(j)));
            }
            if exists|c: Seq<char>| unknown.has_key(c) && #[trigger] spec_user_path(c) == u {
                let c = choose|c: Seq<char>| unknown.has_key(c) && #[trigger] spec_user_path(c) == u;
                let j = choose|j: int| 0 <= j < unknown.len_spec() && #[trigger] unknown.key(j) == c;
                assert(spec_user_path(unknown.key(j)) == u);
            }
        }
        assert forall|u: Seq<char>, x: Seq<char>| groups.has_key(u) implies (#[trigger] groups.spec_get(u)->0.has_key(x)
            <==> exists|c: Seq<char>| #[trigger] spec_user_path(c) == u && crate::collections::spec_lists_have(*unknown, c, x)) by {
            if groups.spec_get(u)->0.has_key(x) {
                let j = choose|j: int| 0 <= j < unknown.len_spec() && #[trigger] spec_user_path(unknown.key(j)) == u
                    && crate::collections::spec_list_has(unknown.val(j)@, x);
                unknown.lemma_index_unique(j);
                assert(crate::collections::spec_lists_have(*unknown, unknown.key(j), x));
            }
            if exists|c: Seq<char>| #[trigger] spec_user_path(c) == u && crate::collections::spec_lists_have(*unknown, c, x) {
                let c = choose|c: Seq<char>| #[trigger] spec_user_path(c) == u && crate::collections::spec_lists_have(*unknown, c, x);
                let j = unknown.index_of(c);
                unknown.lemma_index_unique(j);
                assert(spec_user_path(unknown.key(j)) == u);
            }
        }
    }
    assert(spec_groups_ok(*unknown, groups));
    let mut out = rvs_chars_of(header);
    let ghost head = out@;
    let mut g: usize = 0;
    proof {
        assert(groups.entries@.subrange(0, 0) =~= Seq::<(DefPath, PathSet)>::empty());
    }
    while g < groups.rvs_len()
        invariant
            g <= groups.len_spec(),
            spec_groups_ok(*unknown, groups),
            out@ == head + spec_unknown_blocks(groups.entries@.subrange(0, g as int)),
        decreases groups.len_spec() - g,
    {
        rvs_push_unknown_block(&mut out, groups.rvs_key_at(g), groups.rvs_value_at(g));
        proof {
            let sub = groups.entries@.subrange(0, g + 1);
            assert(sub.drop_last() =~= groups.entries@.subrange(0, g as int));
            assert(sub.last() == groups.entries@[g as int]);
        }
        g = g + 1;
    }
    proof {
        assert(groups.entries@.subrange(0, groups.len_spec() as int) =~= groups.entries@);
    }
    let r = rvs_string_of(out.as_slice());
    assert(r@ == header@ + spec_unknown_blocks(groups.entries@));
    r
}
} // verus!
