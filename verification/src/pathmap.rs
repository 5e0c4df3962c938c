//! Ordered maps and sets keyed by definition paths.
//!
//! Entries are kept sorted by path (the order of `str`), so iteration visits
//! paths in the same order as a `BTreeMap<String, _>` would.
use vstd::prelude::*;

use crate::order::{lemma_lt_props, rvs_compare_chars, spec_lt};
use crate::symbols::DefPath;

verus! {

/// A map from definition paths to values, sorted by path.
#[derive(Debug, Clone)]
pub struct PathMap<V> {
    pub entries: Vec<(DefPath, V)>,
}

impl<V> PathMap<V> {
    pub open spec fn len_spec(self) -> nat {
        self.entries@.len()
    }

    pub open spec fn key(self, i: int) -> Seq<char> {
        self.entries@[i].0@
    }

    pub open spec fn val(self, i: int) -> V {
        self.entries@[i].1
    }

    /// Keys strictly increase.
    pub open spec fn wf(self) -> bool {
        forall|i: int, j: int| 0 <= i < j < self.len_spec() ==> spec_lt(#[trigger] self.key(i), #[trigger] self.key(j))
    }

    pub open spec fn has_key(self, k: Seq<char>) -> bool {
        exists|i: int| 0 <= i < self.len_spec() && #[trigger] self.key(i) == k
    }

    pub open spec fn index_of(self, k: Seq<char>) -> int {
        choose|i: int| 0 <= i < self.len_spec() && #[trigger] self.key(i) == k
    }

    /// The value stored under `k`.
    pub open spec fn spec_get(self, k: Seq<char>) -> Option<V> {
        if self.has_key(k) {
            Some(self.val(self.index_of(k)))
        } else {
            None
        }
    }

    /// In a well-formed map a key sits at one index only.
    pub proof fn lemma_index_unique(self, i: int)
        requires
            self.wf(),
            0 <= i < self.len_spec(),
        ensures
            self.has_key(self.key(i)),
            self.index_of(self.key(i)) == i,
            self.spec_get(self.key(i)) == Some(self.val(i)),
    {
        lemma_lt_props();
        let k = self.key(i);
        assert(self.key(i) == k);
        let j = self.index_of(k);
        if j < i {
            assert(spec_lt(self.key(j), self.key(i)));
        } else if j > i {
            assert(spec_lt(self.key(i), self.key(j)));
        }
    }

    /// An empty map.
    pub fn rvs_new() -> (r: PathMap<V>)
        ensures
            r.wf(),
            r.len_spec() == 0,
            forall|k: Seq<char>| !#[trigger] r.has_key(k),
    {
        PathMap { entries: Vec::new() }
    }

    /// Number of entries.
    pub fn rvs_len(&self) -> (r: usize)
        ensures
            r == self.len_spec(),
    {
        self.entries.len()
    }

    /// The key at a position.
    pub fn rvs_key_at(&self, i: usize) -> (r: &DefPath)
        requires
            i < self.len_spec(),
        ensures
            r@ == self.key(i as int),
    {
        &self.entries[i].0
    }

    /// The value at a position.
    pub fn rvs_value_at(&self, i: usize) -> (r: &V)
        requires
            i < self.len_spec(),
        ensures
            *r == self.val(i as int),
    {
        &self.entries[i].1
    }

    /// Binary search: `Ok(i)` when `k` is the key at `i`; `Err(p)` when `k` is
    /// absent and `p` is where it would be inserted.
    pub fn rvs_find(&self, k: &[char]) -> (r: Result<usize, usize>)
        requires
            self.wf(),
        ensures
            r matches Ok(i) ==> i < self.len_spec() && self.key(i as int) == k@,
            r matches Err(p) ==> p <= self.len_spec()
                && (forall|i: int| 0 <= i < p ==> spec_lt(#[trigger] self.key(i), k@))
                && (forall|i: int| p <= i < self.len_spec() ==> spec_lt(k@, #[trigger] self.key(i)))
                && !self.has_key(k@),
    {
        proof {
            lemma_lt_props();
        }
        let mut lo: usize = 0;
        let mut hi: usize = self.entries.len();
        while lo < hi
            invariant
                self.wf(),
                lo <= hi <= self.len_spec(),
                forall|i: int| 0 <= i < lo ==> spec_lt(#[trigger] self.key(i), k@),
                forall|i: int| hi <= i < self.len_spec() ==> spec_lt(k@, #[trigger] self.key(i)),
            decreases hi - lo,
        {
            let mid = lo + (hi - lo) / 2;
            let c = rvs_compare_chars(self.entries[mid].0.chars.as_slice(), k);
            if c == 0 {
                return Ok(mid);
            } else if c < 0 {
                proof {
                    lemma_lt_props();
                    assert forall|i: int| 0 <= i <= mid implies spec_lt(#[trigger] self.key(i), k@) by {
                        if i < mid {
                            assert(spec_lt(self.key(i), self.key(mid as int)));
                        }
                    }
                }
                lo = mid + 1;
            } else {
                proof {
                    lemma_lt_props();
                    assert forall|i: int| mid <= i < self.len_spec() implies spec_lt(k@, #[trigger] self.key(i)) by {
                        if i > mid {
                            assert(spec_lt(self.key(mid as int), self.key(i)));
                        }
                    }
                }
                hi = mid;
            }
        }
        proof {
            if self.has_key(k@) {
                let i = choose|i: int| 0 <= i < self.len_spec() && #[trigger] self.key(i) == k@;
                if i < lo {
                    assert(spec_lt(self.key(i), k@));
                } else {
                    assert(spec_lt(k@, self.key(i)));
                }
            }
        }
        Err(lo)
    }

    /// The value stored under `k`.
    pub fn rvs_get(&self, k: &[char]) -> (r: Option<&V>)
        requires
            self.wf(),
        ensures
            r is Some <==> self.has_key(k@),
            r matches Some(v) ==> self.spec_get(k@) == Some(*v),
    {
        match self.rvs_find(k) {
            Ok(i) => {
                proof {
                    self.lemma_index_unique(i as int);
                }
                Some(&self.entries[i].1)
            },
            Err(_) => None,
        }
    }

    /// Whether `k` has a value.
    pub fn rvs_contains(&self, k: &[char]) -> (r: bool)
        requires
            self.wf(),
        ensures
            r == self.has_key(k@),
    {
        self.rvs_find(k).is_ok()
    }

    /// Stores `v` under `key`, replacing an earlier value.
    #[allow(non_snake_case)]
    pub fn rvs_insert_M(&mut self, key: DefPath, v: V)
        requires
            old(self).wf(),
        ensures
            final(self).wf(),
            final(self).has_key(key@),
            final(self).spec_get(key@) == Some(v),
            forall|k: Seq<char>| k != key@ ==> #[trigger] final(self).spec_get(k) == old(self).spec_get(k),
            forall|k: Seq<char>| #[trigger] final(self).has_key(k) == (old(self).has_key(k) || k == key@),
            old(self).has_key(key@) ==> final(self).len_spec() == old(self).len_spec(),
            !old(self).has_key(key@) ==> final(self).len_spec() == old(self).len_spec() + 1,
    {
        proof {
            lemma_lt_props();
        }
        let ghost k0 = key@;
        match self.rvs_find(key.chars.as_slice()) {
            Ok(i) => {
                let ghost old_map = *self;
                self.entries.set(i, (key, v));
                proof {
                    assert(self.key(i as int) == k0);
                    assert forall|a: int, b: int| 0 <= a < b < self.len_spec() implies spec_lt(#[trigger] self.key(a), #[trigger] self.key(b)) by {
                        assert(self.key(a) == old_map.key(a));
                        assert(self.key(b) == old_map.key(b));
                    }
                    self.lemma_index_unique(i as int);
                    assert forall|k: Seq<char>| #[trigger] self.has_key(k) == (old_map.has_key(k) || k == k0) by {
                        if old_map.has_key(k) {
                            let j = choose|j: int| 0 <= j < old_map.len_spec() && #[trigger] old_map.key(j) == k;
                            assert(self.key(j) == k);
                        }
                        if self.has_key(k) {
                            let j = choose|j: int| 0 <= j < self.len_spec() && #[trigger] self.key(j) == k;
                            assert(old_map.key(j) == k);
                        }
                    }
                    assert forall|k: Seq<char>| k != k0 implies #[trigger] self.spec_get(k) == old_map.spec_get(k) by {
                        if old_map.has_key(k) {
                            let j = old_map.index_of(k);
                            old_map.lemma_index_unique(j);
                            self.lemma_index_unique(j);
                            assert(self.key(j) == k);
                        }
                    }
                }
            },
            Err(p) => {
                let ghost old_map = *self;
                self.entries.insert(p, (key, v));
                proof {
                    assert(self.key(p as int) == k0);
                    assert forall|j: int| 0 <= j < p implies #[trigger] self.key(j) == old_map.key(j) by {}
                    assert forall|j: int| p < j < self.len_spec() implies #[trigger] self.key(j) == old_map.key(j - 1) by {}
                    assert forall|a: int, b: int| 0 <= a < b < self.len_spec() implies spec_lt(#[trigger] self.key(a), #[trigger] self.key(b)) by {
                        if a < p && b < p {
                            assert(self.key(a) == old_map.key(a));
                            assert(self.key(b) == old_map.key(b));
                        } else if a < p && b == p {
                            assert(self.key(a) == old_map.key(a));
                        } else if a < p && b > p {
                            assert(self.key(a) == old_map.key(a));
                            assert(self.key(b) == old_map.key(b - 1));
                            assert(spec_lt(old_map.key(a), k0));
                            assert(spec_lt(k0, old_map.key(b - 1)));
                        } else if a == p {
                            assert(self.key(b) == old_map.key(b - 1));
                        } else {
                            assert(self.key(a) == old_map.key(a - 1));
                            assert(self.key(b) == old_map.key(b - 1));
                        }
                    }
                    self.lemma_index_unique(p as int);
                    assert forall|k: Seq<char>| #[trigger] self.has_key(k) == (old_map.has_key(k) || k == k0) by {
                        if old_map.has_key(k) {
                            let j = choose|j: int| 0 <= j < old_map.len_spec() && #[trigger] old_map.key(j) == k;
                            if j < p {
                                assert(self.key(j) == k);
                            } else {
                                assert(self.key(j + 1) == k);
                            }
                        }
                        if self.has_key(k) && k != k0 {
                            let j = choose|j: int| 0 <= j < self.len_spec() && #[trigger] self.key(j) == k;
                            if j < p {
                                assert(old_map.key(j) == k);
                            } else if j > p {
                                assert(old_map.key(j - 1) == k);
                            }
                        }
                    }
                    assert forall|k: Seq<char>| k != k0 implies #[trigger] self.spec_get(k) == old_map.spec_get(k) by {
                        if old_map.has_key(k) {
                            let j = old_map.index_of(k);
                            old_map.lemma_index_unique(j);
                            if j < p {
                                self.lemma_index_unique(j);
                                assert(self.key(j) == k);
                                assert(self.val(j) == old_map.val(j));
                            } else {
                                self.lemma_index_unique(j + 1);
                                assert(self.key(j + 1) == k);
                                assert(self.val(j + 1) == old_map.val(j));
                            }
                        }
                    }
                }
            },
        }
    }

    /// Replaces the value at a position.
    #[allow(non_snake_case)]
    pub fn rvs_set_value_at_M(&mut self, i: usize, v: V)
        requires
            old(self).wf(),
            i < old(self).len_spec(),
        ensures
            final(self).wf(),
            final(self).len_spec() == old(self).len_spec(),
            forall|j: int| 0 <= j < final(self).len_spec() ==> #[trigger] final(self).key(j) == old(self).key(j),
            final(self).val(i as int) == v,
            forall|j: int| 0 <= j < final(self).len_spec() && j != i ==> #[trigger] final(self).val(j) == old(self).val(j),
    {
        let ghost old_map = *self;
        let key = self.entries[i].0.rvs_copy();
        self.entries.set(i, (key, v));
        proof {
            assert forall|a: int, b: int| 0 <= a < b < self.len_spec() implies spec_lt(#[trigger] self.key(a), #[trigger] self.key(b)) by {
                assert(self.key(a) == old_map.key(a));
                assert(self.key(b) == old_map.key(b));
            }
        }
    }
}


impl PathMap<crate::capability::CapabilitySet> {
    /// A copy of the map.
    pub fn rvs_copy(&self) -> (r: PathMap<crate::capability::CapabilitySet>)
        ensures
            r.len_spec() == self.len_spec(),
            forall|i: int| 0 <= i < r.len_spec() ==> #[trigger] r.key(i) == self.key(i) && r.val(i) == self.val(i),
            self.wf() ==> r.wf(),
            forall|k: Seq<char>| #[trigger] r.has_key(k) == self.has_key(k),
            self.wf() ==> forall|k: Seq<char>| #[trigger] r.spec_get(k) == self.spec_get(k),
    {
        let mut entries: Vec<(DefPath, crate::capability::CapabilitySet)> = Vec::new();
        let mut i: usize = 0;
        while i < self.entries.len()
            invariant
                i <= self.entries@.len(),
                entries@.len() == i,
                forall|j: int| 0 <= j < i ==> #[trigger] entries@[j].0@ == self.entries@[j].0@ && entries@[j].1 == self.entries@[j].1,
            decreases self.entries@.len() - i,
        {
            entries.push((self.entries[i].0.rvs_copy(), self.entries[i].1));
            i = i + 1;
        }
        let r = PathMap { entries };
        proof {
            if self.wf() {
                assert forall|i: int, j: int| 0 <= i < j < r.len_spec() implies spec_lt(#[trigger] r.key(i), #[trigger] r.key(j)) by {
                    assert(r.key(i) == self.key(i) && r.key(j) == self.key(j));
                }
            }
            assert forall|k: Seq<char>| #[trigger] r.has_key(k) == self.has_key(k) by {
                if r.has_key(k) {
                    let j = choose|j: int| 0 <= j < r.len_spec() && #[trigger] r.key(j) == k;
                    assert(self.key(j) == k);
                }
                if self.has_key(k) {
                    let j = choose|j: int| 0 <= j < self.len_spec() && #[trigger] self.key(j) == k;
                    assert(r.key(j) == k);
                }
            }
            if self.wf() {
                assert forall|k: Seq<char>| #[trigger] r.spec_get(k) == self.spec_get(k) by {
                    if self.has_key(k) {
                        let j = self.index_of(k);
                        self.lemma_index_unique(j);
                        assert(r.key(j) == k);
                        r.lemma_index_unique(j);
                    }
                }
            }
        }
        r
    }
}
} // verus!
