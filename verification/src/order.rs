//! Lexicographic order on character sequences.
use vstd::prelude::*;

verus! {

/// `a` sorts before `b`, comparing from position `i` on.
pub open spec fn spec_lt_at(a: Seq<char>, b: Seq<char>, i: int) -> bool
    decreases a.len() - i,
{
    if i < 0 || i >= a.len() {
        i >= 0 && i < b.len()
    } else if i >= b.len() {
        false
    } else if (a[i] as u32) < (b[i] as u32) {
        true
    } else if (a[i] as u32) > (b[i] as u32) {
        false
    } else {
        spec_lt_at(a, b, i + 1)
    }
}

/// Lexicographic order by character code (the order of `str`'s `Ord`).
pub open spec fn spec_lt(a: Seq<char>, b: Seq<char>) -> bool {
    spec_lt_at(a, b, 0)
}

proof fn lemma_char_u32_injective(x: char, y: char)
    ensures
        (x as u32) == (y as u32) ==> x == y,
{
}

pub proof fn lemma_lt_at_irreflexive(a: Seq<char>, i: int)
    requires
        0 <= i,
    ensures
        !spec_lt_at(a, a, i),
    decreases a.len() - i,
{
    if i < a.len() {
        lemma_lt_at_irreflexive(a, i + 1);
    }
}

pub proof fn lemma_lt_at_asym(a: Seq<char>, b: Seq<char>, i: int)
    requires
        0 <= i,
        spec_lt_at(a, b, i),
    ensures
        !spec_lt_at(b, a, i),
    decreases a.len() - i,
{
    if i < a.len() && i < b.len() && (a[i] as u32) == (b[i] as u32) {
        lemma_lt_at_asym(a, b, i + 1);
    }
}

pub proof fn lemma_lt_at_total(a: Seq<char>, b: Seq<char>, i: int)
    requires
        0 <= i <= a.len(),
        i <= b.len(),
        a.subrange(0, i) == b.subrange(0, i),
        !spec_lt_at(a, b, i),
        !spec_lt_at(b, a, i),
    ensures
        a == b,
    decreases a.len() - i,
{
    if i < a.len() && i < b.len() {
        lemma_char_u32_injective(a[i], b[i]);
        assert(a.subrange(0, i + 1) =~= a.subrange(0, i).push(a[i]));
        assert(b.subrange(0, i + 1) =~= b.subrange(0, i).push(b[i]));
        lemma_lt_at_total(a, b, i + 1);
    } else {
        assert(a.len() == i && b.len() == i);
        assert(a =~= a.subrange(0, i));
        assert(b =~= b.subrange(0, i));
    }
}

pub proof fn lemma_lt_at_trans(a: Seq<char>, b: Seq<char>, c: Seq<char>, i: int)
    requires
        0 <= i,
        spec_lt_at(a, b, i),
        spec_lt_at(b, c, i),
    ensures
        spec_lt_at(a, c, i),
    decreases a.len() - i,
{
    if i < a.len() && i < b.len() && i < c.len() && (a[i] as u32) == (b[i] as u32) && (b[i] as u32) == (c[i] as u32) {
        lemma_lt_at_trans(a, b, c, i + 1);
    }
}

/// `lt` is a strict total order.
pub proof fn lemma_lt_props()
    ensures
        forall|a: Seq<char>| !#[trigger] spec_lt(a, a),
        forall|a: Seq<char>, b: Seq<char>| #[trigger] spec_lt(a, b) ==> !spec_lt(b, a),
        forall|a: Seq<char>, b: Seq<char>| a != b ==> #[trigger] spec_lt(a, b) || #[trigger] spec_lt(b, a),
        forall|a: Seq<char>, b: Seq<char>, c: Seq<char>| #[trigger] spec_lt(a, b) && #[trigger] spec_lt(b, c) ==> spec_lt(a, c),
{
    assert forall|a: Seq<char>| !#[trigger] spec_lt(a, a) by {
        lemma_lt_at_irreflexive(a, 0);
    }
    assert forall|a: Seq<char>, b: Seq<char>| #[trigger] spec_lt(a, b) implies !spec_lt(b, a) by {
        lemma_lt_at_asym(a, b, 0);
    }
    assert forall|a: Seq<char>, b: Seq<char>| a != b implies #[trigger] spec_lt(a, b) || #[trigger] spec_lt(b, a) by {
        if !spec_lt(a, b) && !spec_lt(b, a) {
            assert(a.subrange(0, 0) =~= b.subrange(0, 0));
            lemma_lt_at_total(a, b, 0);
        }
    }
    assert forall|a: Seq<char>, b: Seq<char>, c: Seq<char>| #[trigger] spec_lt(a, b) && #[trigger] spec_lt(b, c) implies spec_lt(a, c) by {
        lemma_lt_at_trans(a, b, c, 0);
    }
}

/// Three-way comparison: negative when `a` sorts first, zero when equal,
/// positive when `b` sorts first.
pub fn rvs_compare_chars(a: &[char], b: &[char]) -> (r: i8)
    ensures
        (r < 0) == spec_lt(a@, b@),
        (r == 0) == (a@ == b@),
        (r > 0) == spec_lt(b@, a@),
{
    let mut i: usize = 0;
    while i < a.len() && i < b.len()
        invariant
            i <= a@.len(),
            i <= b@.len(),
            a@.subrange(0, i as int) == b@.subrange(0, i as int),
            spec_lt(a@, b@) == spec_lt_at(a@, b@, i as int),
            spec_lt(b@, a@) == spec_lt_at(b@, a@, i as int),
        decreases a.len() - i,
    {
        let x = a[i];
        let y = b[i];
        if (x as u32) < (y as u32) {
            proof {
                lemma_lt_at_asym(a@, b@, i as int);
                if a@ == b@ {
                    lemma_lt_at_irreflexive(a@, 0);
                }
            }
            return -1;
        }
        if (x as u32) > (y as u32) {
            proof {
                lemma_lt_at_asym(b@, a@, i as int);
                if a@ == b@ {
                    lemma_lt_at_irreflexive(a@, 0);
                }
            }
            return 1;
        }
        proof {
            lemma_char_u32_injective(x, y);
            assert(a@.subrange(0, i + 1) =~= a@.subrange(0, i as int).push(x));
            assert(b@.subrange(0, i + 1) =~= b@.subrange(0, i as int).push(y));
        }
        i = i + 1;
    }
    if a.len() < b.len() {
        proof {
            lemma_lt_at_asym(a@, b@, i as int);
        }
        -1
    } else if a.len() > b.len() {
        proof {
            lemma_lt_at_asym(b@, a@, i as int);
        }
        1
    } else {
        proof {
            assert(a@ =~= a@.subrange(0, i as int));
            assert(b@ =~= b@.subrange(0, i as int));
            lemma_lt_at_irreflexive(a@, 0);
        }
        0
    }
}

} // verus!
