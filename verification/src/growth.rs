//! Growth of capability maps: entries only gain capabilities, and a measure
//! of how much they can still gain, which bounds any process that keeps
//! growing them.
use vstd::prelude::*;

use crate::capability::{Capability, CapabilitySet, spec_empty, spec_includes, spec_union};
use crate::pathmap::PathMap;
use crate::symbols::DefPath;

verus! {

/// One for a present capability, zero otherwise.
pub open spec fn spec_bit(b: bool) -> nat {
    if b { 1 } else { 0 }
}

/// Number of capabilities in a set.
pub open spec fn spec_popcount(c: CapabilitySet) -> nat {
    spec_bit(c.a) + spec_bit(c.b) + spec_bit(c.i) + spec_bit(c.m) + spec_bit(c.p) + spec_bit(c.s)
        + spec_bit(c.t) + spec_bit(c.u)
}

/// How much an entry of a capability map can still grow: nine steps for a
/// missing entry, then one per capability not yet in it.
pub open spec fn spec_room(m: PathMap<CapabilitySet>, k: Seq<char>) -> nat {
    if m.has_key(k) {
        (8 - spec_popcount(m.spec_get(k)->0)) as nat
    } else {
        9
    }
}

/// The room of the entries under the given keys.
pub open spec fn spec_total_room(keys: Seq<Seq<char>>, m: PathMap<CapabilitySet>) -> nat
    decreases keys.len(),
{
    if keys.len() == 0 {
        0
    } else {
        spec_total_room(keys.drop_last(), m) + spec_room(m, keys.last())
    }
}

/// `m2` keeps every entry of `m1`, each with at least its capabilities.
pub open spec fn spec_grows(m1: PathMap<CapabilitySet>, m2: PathMap<CapabilitySet>) -> bool {
    forall|k: Seq<char>| #[trigger] m1.has_key(k) ==> m2.has_key(k) && spec_includes(m2.spec_get(k)->0, m1.spec_get(k)->0)
}

pub proof fn lemma_popcount_includes(x: CapabilitySet, y: CapabilitySet)
    requires
        spec_includes(x, y),
    ensures
        spec_popcount(x) >= spec_popcount(y),
        x != y ==> spec_popcount(x) > spec_popcount(y),
        spec_popcount(x) <= 8,
{
    assert(y.a ==> x.a) by { assert(y.has(Capability::A) ==> x.has(Capability::A)); }
    assert(y.b ==> x.b) by { assert(y.has(Capability::B) ==> x.has(Capability::B)); }
    assert(y.i ==> x.i) by { assert(y.has(Capability::I) ==> x.has(Capability::I)); }
    assert(y.m ==> x.m) by { assert(y.has(Capability::M) ==> x.has(Capability::M)); }
    assert(y.p ==> x.p) by { assert(y.has(Capability::P) ==> x.has(Capability::P)); }
    assert(y.s ==> x.s) by { assert(y.has(Capability::S) ==> x.has(Capability::S)); }
    assert(y.t ==> x.t) by { assert(y.has(Capability::T) ==> x.has(Capability::T)); }
    assert(y.u ==> x.u) by { assert(y.has(Capability::U) ==> x.has(Capability::U)); }
    lemma_popcount_fields(x, y);
}

#[verifier::rlimit(30)]
pub proof fn lemma_popcount_fields(x: CapabilitySet, y: CapabilitySet)
    requires
        y.a ==> x.a,
        y.b ==> x.b,
        y.i ==> x.i,
        y.m ==> x.m,
        y.p ==> x.p,
        y.s ==> x.s,
        y.t ==> x.t,
        y.u ==> x.u,
    ensures
        spec_popcount(x) >= spec_popcount(y),
        spec_popcount(x) <= 8,
        x != y ==> spec_popcount(x) > spec_popcount(y),
{
    if x != y {
        assert(x.a != y.a || x.b != y.b || x.i != y.i || x.m != y.m || x.p != y.p || x.s != y.s || x.t != y.t || x.u != y.u);
    }
}

pub proof fn lemma_room_mono(m1: PathMap<CapabilitySet>, m2: PathMap<CapabilitySet>, k: Seq<char>)
    requires
        spec_grows(m1, m2),
    ensures
        spec_room(m2, k) <= spec_room(m1, k),
{
    if m1.has_key(k) {
        lemma_popcount_includes(m2.spec_get(k)->0, m1.spec_get(k)->0);
    } else if m2.has_key(k) {
        lemma_popcount_includes(m2.spec_get(k)->0, m2.spec_get(k)->0);
    }
}

pub proof fn lemma_total_room_mono(keys: Seq<Seq<char>>, m1: PathMap<CapabilitySet>, m2: PathMap<CapabilitySet>)
    requires
        spec_grows(m1, m2),
    ensures
        spec_total_room(keys, m2) <= spec_total_room(keys, m1),
    decreases keys.len(),
{
    if keys.len() > 0 {
        lemma_total_room_mono(keys.drop_last(), m1, m2);
        lemma_room_mono(m1, m2, keys.last());
    }
}

pub proof fn lemma_total_room_strict(keys: Seq<Seq<char>>, m1: PathMap<CapabilitySet>, m2: PathMap<CapabilitySet>, x: Seq<char>)
    requires
        spec_grows(m1, m2),
        keys.contains(x),
        spec_room(m2, x) < spec_room(m1, x),
    ensures
        spec_total_room(keys, m2) < spec_total_room(keys, m1),
    decreases keys.len(),
{
    lemma_room_mono(m1, m2, keys.last());
    if keys.last() == x {
        lemma_total_room_mono(keys.drop_last(), m1, m2);
    } else {
        let i = choose|i: int| 0 <= i < keys.len() && keys[i] == x;
        assert(keys.drop_last()[i] == x);
        lemma_total_room_strict(keys.drop_last(), m1, m2, x);
    }
}

pub proof fn lemma_grows_refl(m: PathMap<CapabilitySet>)
    ensures
        spec_grows(m, m),
{
}

pub proof fn lemma_grows_trans(m1: PathMap<CapabilitySet>, m2: PathMap<CapabilitySet>, m3: PathMap<CapabilitySet>)
    requires
        spec_grows(m1, m2),
        spec_grows(m2, m3),
    ensures
        spec_grows(m1, m3),
{
    assert forall|k: Seq<char>| #[trigger] m1.has_key(k) implies m3.has_key(k) && spec_includes(m3.spec_get(k)->0, m1.spec_get(k)->0) by {
        assert(m2.has_key(k));
    }
}

/// The entry under `k` or the empty set.
pub open spec fn spec_entry_or_empty(m: PathMap<CapabilitySet>, k: Seq<char>) -> CapabilitySet {
    match m.spec_get(k) {
        Some(c) => c,
        None => spec_empty(),
    }
}

/// Adding the same set twice adds it once.
pub proof fn lemma_union_again(x: CapabilitySet, y: CapabilitySet)
    ensures
        spec_union(spec_union(x, y), y) == spec_union(x, y),
{
    assert(spec_union(spec_union(x, y), y).a == spec_union(x, y).a);
    assert(spec_union(spec_union(x, y), y).b == spec_union(x, y).b);
    assert(spec_union(spec_union(x, y), y).i == spec_union(x, y).i);
    assert(spec_union(spec_union(x, y), y).m == spec_union(x, y).m);
    assert(spec_union(spec_union(x, y), y).p == spec_union(x, y).p);
    assert(spec_union(spec_union(x, y), y).s == spec_union(x, y).s);
    assert(spec_union(spec_union(x, y), y).t == spec_union(x, y).t);
    assert(spec_union(spec_union(x, y), y).u == spec_union(x, y).u);
}

/// Adds `caps` to the entry under `k`, creating an empty entry first when
/// there is none; reports whether the entry's capabilities grew.
#[allow(non_snake_case)]
pub fn rvs_extend_entry_M(m: &mut PathMap<CapabilitySet>, k: &DefPath, caps: &CapabilitySet) -> (changed: bool)
    requires
        old(m).wf(),
    ensures
        final(m).wf(),
        final(m).spec_get(k@) == Some(spec_union(spec_entry_or_empty(*old(m), k@), *caps)),
        forall|j: Seq<char>| j != k@ ==> #[trigger] final(m).spec_get(j) == old(m).spec_get(j),
        forall|j: Seq<char>| #[trigger] final(m).has_key(j) == (old(m).has_key(j) || j == k@),
        changed == (spec_union(spec_entry_or_empty(*old(m), k@), *caps) != spec_entry_or_empty(*old(m), k@)),
        spec_grows(*old(m), *final(m)),
        changed ==> spec_room(*final(m), k@) < spec_room(*old(m), k@),
        !old(m).has_key(k@) ==> spec_room(*final(m), k@) < spec_room(*old(m), k@),
{
    let mut current = match m.rvs_get(k.rvs_chars()) {
        Some(c) => *c,
        None => CapabilitySet::rvs_new(),
    };
    let changed = current.rvs_union_M(caps);
    let ghost before = *m;
    m.rvs_insert_M(k.rvs_copy(), current);
    proof {
        assert forall|j: Seq<char>| #[trigger] before.has_key(j) implies m.has_key(j) && spec_includes(m.spec_get(j)->0, before.spec_get(j)->0) by {
            if j != k@ {
                assert(m.spec_get(j) == before.spec_get(j));
            }
        }
        lemma_popcount_includes(current, spec_entry_or_empty(before, k@));
    }
    changed
}

} // verus!
