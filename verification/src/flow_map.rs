//! Small maps keyed by locals or by places of a function body, as the
//! `Result` flow analysis keeps them.
use vstd::prelude::*;

verus! {

/// A place as a plain value: a local and the steps of a projection path
/// (how each step is shown, whether sibling fields may overlap, whether its
/// index is imprecise).
pub type PlaceView = (u32, Seq<(Seq<char>, bool, bool)>);

/// A key of a flow map: it has a plain value, can be compared and copied.
pub trait FlowKey: Sized {
    spec fn spec_key(&self) -> PlaceView;

    fn rvs_same_key(&self, other: &Self) -> (r: bool)
        ensures
            r == (self.spec_key() == other.spec_key());

    fn rvs_dup(&self) -> (r: Self)
        ensures
            r.spec_key() == self.spec_key();
}

impl FlowKey for u32 {
    open spec fn spec_key(&self) -> PlaceView {
        (*self, Seq::empty())
    }

    fn rvs_same_key(&self, other: &u32) -> (r: bool) {
        *self == *other
    }

    fn rvs_dup(&self) -> (r: u32) {
        *self
    }
}

/// A map with at most one entry per key, in insertion order.
#[derive(Debug, Clone)]
pub struct FlowMap<K, V> {
    pub entries: Vec<(K, V)>,
}

impl<K: FlowKey, V> FlowMap<K, V> {
    pub open spec fn len_spec(self) -> nat {
        self.entries@.len()
    }

    pub open spec fn key(self, i: int) -> PlaceView {
        self.entries@[i].0.spec_key()
    }

    pub open spec fn val(self, i: int) -> V {
        self.entries@[i].1
    }

    /// No key appears twice.
    pub open spec fn wf(self) -> bool {
        forall|i: int, j: int| 0 <= i < j < self.len_spec() ==> #[trigger] self.key(i) != #[trigger] self.key(j)
    }

    pub open spec fn has(self, k: PlaceView) -> bool {
        exists|i: int| 0 <= i < self.len_spec() && #[trigger] self.key(i) == k
    }

    pub open spec fn index_of(self, k: PlaceView) -> int {
        choose|i: int| 0 <= i < self.len_spec() && #[trigger] self.key(i) == k
    }

    /// The value stored under `k`.
    pub open spec fn get(self, k: PlaceView) -> Option<V> {
        if self.has(k) {
            Some(self.val(self.index_of(k)))
        } else {
            None
        }
    }

    /// In a well-formed map a key sits at one index only.
    pub proof fn lemma_index_unique(self, i: int)
        requires
            self.wf(),
            0 <= i < self.len_spec(),
        ensures
            self.has(self.key(i)),
            self.index_of(self.key(i)) == i,
            self.get(self.key(i)) == Some(self.val(i)),
    {
        let k = self.key(i);
        assert(self.key(i) == k);
        let j = self.index_of(k);
        if j < i {
            assert(self.key(j) != self.key(i));
        } else if j > i {
            assert(self.key(i) != self.key(j));
        }
    }

    /// An empty map.
    pub fn rvs_new() -> (r: FlowMap<K, V>)
        ensures
            r.wf(),
            r.len_spec() == 0,
            forall|k: PlaceView| !#[trigger] r.has(k),
    {
        FlowMap { entries: Vec::new() }
    }

    /// Number of entries.
    pub fn rvs_len(&self) -> (r: usize)
        ensures
            r == self.len_spec(),
    {
        self.entries.len()
    }

    /// The key at a position.
    pub fn rvs_key_at(&self, i: usize) -> (r: &K)
        requires
            i < self.len_spec(),
        ensures
            r.spec_key() == self.key(i as int),
            *r == self.entries@[i as int].0,
    {
        &self.entries[i].0
    }

    /// The value at a position.
    pub fn rvs_value_at(&self, i: usize) -> (r: &V)
        requires
            i < self.len_spec(),
        ensures
            *r == self.val(i as int),
    {
        &self.entries[i].1
    }

    /// The position of a key.
    pub fn rvs_find(&self, k: &K) -> (r: Option<usize>)
        requires
            self.wf(),
        ensures
            r matches Some(i) ==> i < self.len_spec() && self.key(i as int) == k.spec_key() && self.index_of(k.spec_key()) == i,
            r is None ==> !self.has(k.spec_key()),
    {
        let mut i: usize = 0;
        while i < self.entries.len()
            invariant
                self.wf(),
                i <= self.len_spec(),
                forall|j: int| 0 <= j < i ==> #[trigger] self.key(j) != k.spec_key(),
            decreases self.len_spec() - i,
        {
            if self.entries[i].0.rvs_same_key(k) {
                proof {
                    self.lemma_index_unique(i as int);
                }
                return Some(i);
            }
            i = i + 1;
        }
        None
    }

    /// The value stored under a key.
    pub fn rvs_get(&self, k: &K) -> (r: Option<&V>)
        requires
            self.wf(),
        ensures
            r is Some <==> self.has(k.spec_key()),
            r matches Some(v) ==> self.get(k.spec_key()) == Some(*v),
    {
        match self.rvs_find(k) {
            Some(i) => {
                proof {
                    self.lemma_index_unique(i as int);
                }
                Some(&self.entries[i].1)
            },
            None => None,
        }
    }

    /// Whether a key has a value.
    pub fn rvs_contains(&self, k: &K) -> (r: bool)
        requires
            self.wf(),
        ensures
            r == self.has(k.spec_key()),
    {
        self.rvs_find(k).is_some()
    }

    /// Replaces the value at a position.
    #[allow(non_snake_case)]
    pub fn rvs_set_value_at_M(&mut self, i: usize, v: V)
        requires
            old(self).wf(),
            i < old(self).len_spec(),
        ensures
            final(self).wf(),
            final(self).len_spec() == old(self).len_spec(),
            forall|j: int| 0 <= j < final(self).len_spec() ==> #[trigger] final(self).key(j) == old(self).key(j),
            final(self).val(i as int) == v,
            forall|j: int| 0 <= j < final(self).len_spec() && j != i ==> #[trigger] final(self).val(j) == old(self).val(j),
            forall|k: PlaceView| #[trigger] final(self).has(k) == old(self).has(k),
            forall|k: PlaceView| k != old(self).key(i as int) ==> #[trigger] final(self).get(k) == old(self).get(k),
            final(self).get(old(self).key(i as int)) == Some(v),
    {
        let ghost old_map = *self;
        let (key, _) = self.entries.remove(i);
        self.entries.insert(i, (key, v));
        proof {
            assert forall|j: int| 0 <= j < self.len_spec() implies #[trigger] self.key(j) == old_map.key(j) by {
                if j != i {
                    assert(self.entries@[j] == old_map.entries@[j]);
                }
            }
            assert forall|a: int, b: int| 0 <= a < b < self.len_spec() implies #[trigger] self.key(a) != #[trigger] self.key(b) by {
                assert(self.key(a) == old_map.key(a));
                assert(self.key(b) == old_map.key(b));
            }
            assert forall|j: int| 0 <= j < self.len_spec() && j != i implies #[trigger] self.val(j) == old_map.val(j) by {
                assert(self.entries@[j] == old_map.entries@[j]);
            }
            assert forall|k: PlaceView| #[trigger] self.has(k) == old_map.has(k) by {
                if old_map.has(k) {
                    let j = choose|j: int| 0 <= j < old_map.len_spec() && #[trigger] old_map.key(j) == k;
                    assert(self.key(j) == k);
                }
                if self.has(k) {
                    let j = choose|j: int| 0 <= j < self.len_spec() && #[trigger] self.key(j) == k;
                    assert(old_map.key(j) == k);
                }
            }
            self.lemma_index_unique(i as int);
            assert forall|k: PlaceView| k != old_map.key(i as int) implies #[trigger] self.get(k) == old_map.get(k) by {
                if old_map.has(k) {
                    let j = old_map.index_of(k);
                    old_map.lemma_index_unique(j);
                    self.lemma_index_unique(j);
                    assert(self.key(j) == k);
                }
            }
        }
    }

    /// Replaces the value at a position, handing back the value it held.
    #[allow(non_snake_case)]
    pub fn rvs_replace_value_at_M(&mut self, i: usize, v: V) -> (previous: V)
        requires
            old(self).wf(),
            i < old(self).len_spec(),
        ensures
            previous == old(self).val(i as int),
            final(self).wf(),
            final(self).len_spec() == old(self).len_spec(),
            forall|j: int| 0 <= j < final(self).len_spec() ==> #[trigger] final(self).key(j) == old(self).key(j),
            final(self).val(i as int) == v,
            forall|j: int| 0 <= j < final(self).len_spec() && j != i ==> #[trigger] final(self).val(j) == old(self).val(j),
            forall|k: PlaceView| #[trigger] final(self).has(k) == old(self).has(k),
            forall|k: PlaceView| k != old(self).key(i as int) ==> #[trigger] final(self).get(k) == old(self).get(k),
            final(self).get(old(self).key(i as int)) == Some(v),
    {
        let ghost old_map = *self;
        let (key, previous) = self.entries.remove(i);
        self.entries.insert(i, (key, v));
        proof {
            assert forall|j: int| 0 <= j < self.len_spec() implies #[trigger] self.key(j) == old_map.key(j) by {
                if j != i {
                    assert(self.entries@[j] == old_map.entries@[j]);
                }
            }
            assert forall|a: int, b: int| 0 <= a < b < self.len_spec() implies #[trigger] self.key(a) != #[trigger] self.key(b) by {
                assert(self.key(a) == old_map.key(a));
                assert(self.key(b) == old_map.key(b));
            }
            assert forall|j: int| 0 <= j < self.len_spec() && j != i implies #[trigger] self.val(j) == old_map.val(j) by {
                assert(self.entries@[j] == old_map.entries@[j]);
            }
            assert forall|k: PlaceView| #[trigger] self.has(k) == old_map.has(k) by {
                if old_map.has(k) {
                    let j = choose|j: int| 0 <= j < old_map.len_spec() && #[trigger] old_map.key(j) == k;
                    assert(self.key(j) == k);
                }
                if self.has(k) {
                    let j = choose|j: int| 0 <= j < self.len_spec() && #[trigger] self.key(j) == k;
                    assert(old_map.key(j) == k);
                }
            }
            self.lemma_index_unique(i as int);
            assert forall|k: PlaceView| k != old_map.key(i as int) implies #[trigger] self.get(k) == old_map.get(k) by {
                if old_map.has(k) {
                    let j = old_map.index_of(k);
                    old_map.lemma_index_unique(j);
                    self.lemma_index_unique(j);
                    assert(self.key(j) == k);
                }
            }
        }
        previous
    }

    /// Stores `v` under `key`, replacing an earlier value.
    #[allow(non_snake_case)]
    pub fn rvs_insert_M(&mut self, key: K, v: V)
        requires
            old(self).wf(),
        ensures
            final(self).wf(),
            final(self).get(key.spec_key()) == Some(v),
            forall|k: PlaceView| k != key.spec_key() ==> #[trigger] final(self).get(k) == old(self).get(k),
            forall|k: PlaceView| #[trigger] final(self).has(k) == (old(self).has(k) || k == key.spec_key()),
    {
        let ghost kv = key.spec_key();
        match self.rvs_find(&key) {
            Some(i) => {
                self.rvs_set_value_at_M(i, v);
            },
            None => {
                let ghost old_map = *self;
                self.entries.push((key, v));
                proof {
                    let n = old_map.len_spec() as int;
                    assert(self.key(n) == kv);
                    assert forall|j: int| 0 <= j < n implies #[trigger] self.key(j) == old_map.key(j) && self.val(j) == old_map.val(j) by {
                        assert(self.entries@[j] == old_map.entries@[j]);
                    }
                    assert forall|a: int, b: int| 0 <= a < b < self.len_spec() implies #[trigger] self.key(a) != #[trigger] self.key(b) by {
                        assert(self.key(a) == old_map.key(a));
                        if b < n {
                            assert(self.key(b) == old_map.key(b));
                        } else {
                            assert(old_map.key(a) != kv);
                        }
                    }
                    self.lemma_index_unique(n);
                    assert forall|k: PlaceView| #[trigger] self.has(k) == (old_map.has(k) || k == kv) by {
                        if old_map.has(k) {
                            let j = choose|j: int| 0 <= j < old_map.len_spec() && #[trigger] old_map.key(j) == k;
                            assert(self.key(j) == k);
                        }
                        if self.has(k) && k != kv {
                            let j = choose|j: int| 0 <= j < self.len_spec() && #[trigger] self.key(j) == k;
                            assert(old_map.key(j) == k);
                        }
                    }
                    assert forall|k: PlaceView| k != kv implies #[trigger] self.get(k) == old_map.get(k) by {
                        if old_map.has(k) {
                            let j = old_map.index_of(k);
                            old_map.lemma_index_unique(j);
                            self.lemma_index_unique(j);
                        }
                    }
                }
            },
        }
    }

    /// Removes the entry under `key`, if there is one.
    #[allow(non_snake_case)]
    pub fn rvs_remove_M(&mut self, key: &K)
        requires
            old(self).wf(),
        ensures
            final(self).wf(),
            !final(self).has(key.spec_key()),
            forall|k: PlaceView| k != key.spec_key() ==> #[trigger] final(self).get(k) == old(self).get(k),
            forall|k: PlaceView| #[trigger] final(self).has(k) == (old(self).has(k) && k != key.spec_key()),
    {
        let ghost kv = key.spec_key();
        match self.rvs_find(key) {
            Some(i) => {
                let ghost old_map = *self;
                let _ = self.entries.remove(i);
                proof {
                    let n = old_map.len_spec() as int;
                    assert forall|j: int| 0 <= j < n - 1 implies #[trigger] self.key(j) == old_map.key(if j < i { j } else { j + 1 })
                        && self.val(j) == old_map.val(if j < i { j } else { j + 1 }) by {
                        assert(self.entries@[j] == old_map.entries@[if j < i { j } else { j + 1 }]);
                    }
                    assert forall|a: int, b: int| 0 <= a < b < self.len_spec() implies #[trigger] self.key(a) != #[trigger] self.key(b) by {
                        let oa = if a < i { a } else { a + 1 };
                        let ob = if b < i { b } else { b + 1 };
                        assert(self.key(a) == old_map.key(oa));
                        assert(self.key(b) == old_map.key(ob));
                    }
                    old_map.lemma_index_unique(i as int);
                    assert forall|k: PlaceView| #[trigger] self.has(k) == (old_map.has(k) && k != kv) by {
                        if self.has(k) {
                            let j = choose|j: int| 0 <= j < self.len_spec() && #[trigger] self.key(j) == k;
                            let oj = if j < i { j } else { j + 1 };
                            assert(old_map.key(oj) == k);
                            assert(old_map.key(oj) != old_map.key(i as int));
                        }
                        if old_map.has(k) && k != kv {
                            let j = choose|j: int| 0 <= j < old_map.len_spec() && #[trigger] old_map.key(j) == k;
                            assert(j != i);
                            let nj = if j < i { j } else { j - 1 };
                            assert(self.key(nj) == k);
                        }
                    }
                    assert forall|k: PlaceView| k != kv implies #[trigger] self.get(k) == old_map.get(k) by {
                        if old_map.has(k) {
                            let j = old_map.index_of(k);
                            old_map.lemma_index_unique(j);
                            assert(j != i);
                            let nj = if j < i { j } else { j - 1 };
                            assert(self.key(nj) == k);
                            self.lemma_index_unique(nj);
                        }
                    }
                }
            },
            None => {},
        }
    }
}

} // verus!
