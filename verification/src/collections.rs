//! Path sets and path-list maps built on `PathMap`.
use vstd::prelude::*;

use crate::pathmap::PathMap;
use crate::symbols::DefPath;

verus! {

/// A set of definition paths, sorted.
pub type PathSet = PathMap<()>;

/// Copies a list of paths.
pub fn rvs_paths_copy(v: &Vec<DefPath>) -> (r: Vec<DefPath>)
    ensures
        r@.len() == v@.len(),
        forall|i: int| 0 <= i < v@.len() ==> #[trigger] r@[i]@ == v@[i]@,
{
    let mut r: Vec<DefPath> = Vec::new();
    let mut i: usize = 0;
    while i < v.len()
        invariant
            i <= v@.len(),
            r@.len() == i,
            forall|j: int| 0 <= j < i ==> #[trigger] r@[j]@ == v@[j]@,
        decreases v.len() - i,
    {
        r.push(v[i].rvs_copy());
        i = i + 1;
    }
    r
}

/// Whether a list of paths holds `p`.
pub open spec fn spec_list_has(v: Seq<DefPath>, p: Seq<char>) -> bool {
    exists|i: int| 0 <= i < v.len() && #[trigger] v[i]@ == p
}

/// Whether a list of paths holds `p`.
pub fn rvs_list_contains(v: &Vec<DefPath>, p: &DefPath) -> (r: bool)
    ensures
        r == spec_list_has(v@, p@),
{
    let mut i: usize = 0;
    while i < v.len()
        invariant
            i <= v@.len(),
            forall|j: int| 0 <= j < i ==> #[trigger] v@[j]@ != p@,
        decreases v.len() - i,
    {
        if v[i].rvs_eq(p) {
            return true;
        }
        i = i + 1;
    }
    false
}

/// An empty path set.
pub fn rvs_set_new() -> (r: PathSet)
    ensures
        r.wf(),
        r.len_spec() == 0,
        forall|k: Seq<char>| !#[trigger] r.has_key(k),
{
    PathMap::rvs_new()
}

/// Adds a path to a set; reports whether it was new.
#[allow(non_snake_case)]
pub fn rvs_set_insert_M(set: &mut PathSet, p: &DefPath) -> (added: bool)
    requires
        old(set).wf(),
    ensures
        final(set).wf(),
        added == !old(set).has_key(p@),
        forall|k: Seq<char>| #[trigger] final(set).has_key(k) == (old(set).has_key(k) || k == p@),
{
    if set.rvs_contains(p.rvs_chars()) {
        return false;
    }
    set.rvs_insert_M(p.rvs_copy(), ());
    true
}

/// Whether a set holds a path.
pub fn rvs_set_contains(set: &PathSet, p: &DefPath) -> (r: bool)
    requires
        set.wf(),
    ensures
        r == set.has_key(p@),
{
    set.rvs_contains(p.rvs_chars())
}

/// A copy of a path set.
pub fn rvs_set_copy(set: &PathSet) -> (r: PathSet)
    requires
        set.wf(),
    ensures
        r.wf(),
        forall|k: Seq<char>| #[trigger] r.has_key(k) == set.has_key(k),
{
    let mut r = rvs_set_new();
    let mut i: usize = 0;
    while i < set.rvs_len()
        invariant
            r.wf(),
            set.wf(),
            i <= set.len_spec(),
            forall|k: Seq<char>| #[trigger] r.has_key(k) == exists|j: int| 0 <= j < i && #[trigger] set.key(j) == k,
        decreases set.len_spec() - i,
    {
        let ghost before = r;
        rvs_set_insert_M(&mut r, set.rvs_key_at(i));
        proof {
            assert forall|k: Seq<char>| #[trigger] r.has_key(k) == exists|j: int| 0 <= j < i + 1 && #[trigger] set.key(j) == k by {
                if k == set.key(i as int) {
                    assert(set.key(i as int) == k);
                } else if exists|j: int| 0 <= j < i + 1 && #[trigger] set.key(j) == k {
                    let j = choose|j: int| 0 <= j < i + 1 && #[trigger] set.key(j) == k;
                    assert(j < i);
                }
            }
        }
        i = i + 1;
    }
    r
}

/// Whether the list stored under `k` holds `x`.
pub open spec fn spec_lists_have(map: PathMap<Vec<DefPath>>, k: Seq<char>, x: Seq<char>) -> bool {
    match map.spec_get(k) {
        Some(v) => spec_list_has(v@, x),
        None => false,
    }
}

/// Adds `item` to the list stored under `key` (once).
#[allow(non_snake_case)]
pub fn rvs_list_add_M(map: &mut PathMap<Vec<DefPath>>, key: &DefPath, item: &DefPath)
    requires
        old(map).wf(),
    ensures
        final(map).wf(),
        forall|k: Seq<char>| #[trigger] final(map).has_key(k) == (old(map).has_key(k) || k == key@),
        forall|k: Seq<char>, x: Seq<char>| #[trigger] spec_lists_have(*final(map), k, x) == (spec_lists_have(*old(map), k, x) || (k == key@ && x == item@)),
{
    match map.rvs_find(key.rvs_chars()) {
        Ok(i) => {
            proof {
                map.lemma_index_unique(i as int);
            }
            let mut list = rvs_paths_copy(map.rvs_value_at(i));
            let ghost old_list = map.val(i as int);
            if !rvs_list_contains(&list, item) {
                list.push(item.rvs_copy());
            }
            let ghost new_list = list;
            let ghost before = *map;
            map.rvs_set_value_at_M(i, list);
            proof {
                map.lemma_index_unique(i as int);
                assert forall|k: Seq<char>| #[trigger] map.has_key(k) == (before.has_key(k) || k == key@) by {
                    if before.has_key(k) {
                        let j = choose|j: int| 0 <= j < before.len_spec() && #[trigger] before.key(j) == k;
                        assert(map.key(j) == k);
                    }
                    if map.has_key(k) {
                        let j = choose|j: int| 0 <= j < map.len_spec() && #[trigger] map.key(j) == k;
                        assert(before.key(j) == k);
                    }
                }
                assert forall|k: Seq<char>, x: Seq<char>| #[trigger] spec_lists_have(*map, k, x) == (spec_lists_have(before, k, x) || (k == key@ && x == item@)) by {
                    if k == key@ {
                        assert(map.spec_get(k) == Some(new_list));
                        assert(before.spec_get(k) == Some(old_list));
                        if spec_list_has(new_list@, x) {
                            let q = choose|q: int| 0 <= q < new_list@.len() && #[trigger] new_list@[q]@ == x;
                            if q < old_list@.len() {
                                assert(old_list@[q]@ == x);
                            }
                        }
                        if spec_list_has(old_list@, x) {
                            let q = choose|q: int| 0 <= q < old_list@.len() && #[trigger] old_list@[q]@ == x;
                            assert(new_list@[q]@ == x);
                        }
                        if x == item@ && !spec_list_has(old_list@, x) {
                            assert(new_list@[old_list@.len() as int]@ == x);
                        }
                    } else if before.has_key(k) {
                        let j = before.index_of(k);
                        before.lemma_index_unique(j);
                        map.lemma_index_unique(j);
                        assert(j != i);
                    } else {
                        assert(!map.has_key(k));
                    }
                }
            }
        },
        Err(_) => {
            let mut list: Vec<DefPath> = Vec::new();
            list.push(item.rvs_copy());
            let ghost new_list = list;
            let ghost before = *map;
            map.rvs_insert_M(key.rvs_copy(), list);
            proof {
                assert forall|k: Seq<char>, x: Seq<char>| #[trigger] spec_lists_have(*map, k, x) == (spec_lists_have(before, k, x) || (k == key@ && x == item@)) by {
                    if k == key@ {
                        assert(map.spec_get(k) == Some(new_list));
                        if spec_list_has(new_list@, x) {
                            let q = choose|q: int| 0 <= q < new_list@.len() && #[trigger] new_list@[q]@ == x;
                            assert(q == 0);
                        }
                        if x == item@ {
                            assert(new_list@[0]@ == x);
                        }
                    }
                }
            }
        },
    }
}


/// A copy of a map of path lists.
pub fn rvs_copy_lists(m: &PathMap<Vec<DefPath>>) -> (r: PathMap<Vec<DefPath>>)
    ensures
        r.len_spec() == m.len_spec(),
        forall|i: int| 0 <= i < r.len_spec() ==> #[trigger] r.key(i) == m.key(i),
        m.wf() ==> r.wf(),
        m.wf() ==> forall|k: Seq<char>, x: Seq<char>| #[trigger] spec_lists_have(r, k, x) == spec_lists_have(*m, k, x),
{
    let mut entries: Vec<(DefPath, Vec<DefPath>)> = Vec::new();
    let mut i: usize = 0;
    while i < m.entries.len()
        invariant
            i <= m.entries@.len(),
            entries@.len() == i,
            forall|j: int| 0 <= j < i ==> #[trigger] entries@[j].0@ == m.entries@[j].0@
                && entries@[j].1@.len() == m.entries@[j].1@.len()
                && forall|q: int| 0 <= q < entries@[j].1@.len() ==> #[trigger] entries@[j].1@[q]@ == m.entries@[j].1@[q]@,
        decreases m.entries@.len() - i,
    {
        entries.push((m.entries[i].0.rvs_copy(), rvs_paths_copy(&m.entries[i].1)));
        i = i + 1;
    }
    let r = PathMap { entries };
    proof {
        if m.wf() {
            assert forall|i: int, j: int| 0 <= i < j < r.len_spec() implies crate::order::spec_lt(#[trigger] r.key(i), #[trigger] r.key(j)) by {
                assert(r.key(i) == m.key(i) && r.key(j) == m.key(j));
            }
            assert forall|k: Seq<char>, x: Seq<char>| #[trigger] spec_lists_have(r, k, x) == spec_lists_have(*m, k, x) by {
                assert forall|k2: Seq<char>| #[trigger] r.has_key(k2) == m.has_key(k2) by {
                    if r.has_key(k2) {
                        let j = choose|j: int| 0 <= j < r.len_spec() && #[trigger] r.key(j) == k2;
                        assert(m.key(j) == k2);
                    }
                    if m.has_key(k2) {
                        let j = choose|j: int| 0 <= j < m.len_spec() && #[trigger] m.key(j) == k2;
                        assert(r.key(j) == k2);
                    }
                }
                if m.has_key(k) {
                    let j = m.index_of(k);
                    m.lemma_index_unique(j);
                    assert(r.key(j) == k);
                    r.lemma_index_unique(j);
                    let a = r.val(j);
                    let b = m.val(j);
                    if spec_list_has(a@, x) {
                        let q = choose|q: int| 0 <= q < a@.len() && #[trigger] a@[q]@ == x;
                        assert(b@[q]@ == x);
                    }
                    if spec_list_has(b@, x) {
                        let q = choose|q: int| 0 <= q < b@.len() && #[trigger] b@[q]@ == x;
                        assert(a@[q]@ == x);
                    }
                }
            }
        }
    }
    r
}
} // verus!
