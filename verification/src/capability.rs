//! Capabilities, capability sets and the policy that relates them.
use vstd::prelude::*;

use crate::text::rvs_string_of;
use crate::text::rvs_chars_of;

verus! {

/// One effect a function may have.
///
/// `A` async, `B` blocking, `I` I/O, `M` mutation through a parameter,
/// `P` port (a call through an abstract client trait), `S` side effect on
/// shared state, `T` thread-local state, `U` unsafe.
#[derive(Debug, Clone, Copy, PartialEq, Eq, Structural)]
pub enum Capability {
    A,
    B,
    I,
    M,
    P,
    S,
    T,
    U,
}

/// The letter that names a capability in function suffixes.
pub open spec fn spec_letter(cap: Capability) -> char {
    match cap {
        Capability::A => 'A',
        Capability::B => 'B',
        Capability::I => 'I',
        Capability::M => 'M',
        Capability::P => 'P',
        Capability::S => 'S',
        Capability::T => 'T',
        Capability::U => 'U',
    }
}

/// The capability that a letter names, if any.
pub open spec fn spec_capability_of(c: char) -> Option<Capability> {
    if c == 'A' {
        Some(Capability::A)
    } else if c == 'B' {
        Some(Capability::B)
    } else if c == 'I' {
        Some(Capability::I)
    } else if c == 'M' {
        Some(Capability::M)
    } else if c == 'P' {
        Some(Capability::P)
    } else if c == 'S' {
        Some(Capability::S)
    } else if c == 'T' {
        Some(Capability::T)
    } else if c == 'U' {
        Some(Capability::U)
    } else {
        None
    }
}

/// Capabilities that a caller inherits from its callees: blocking, I/O, port,
/// side effect and thread-local state.  Async, mutation and unsafety belong to
/// a function's own signature and do not travel along call edges.
pub open spec fn spec_is_propagated(cap: Capability) -> bool {
    cap == Capability::B || cap == Capability::I || cap == Capability::P || cap == Capability::S
        || cap == Capability::T
}

pub proof fn lemma_letter_roundtrip(cap: Capability)
    ensures
        spec_capability_of(spec_letter(cap)) == Some(cap),
{
}

impl Capability {
    /// The capability's letter.
    pub fn rvs_letter(self) -> (c: char)
        ensures
            c == spec_letter(self),
    {
        match self {
            Capability::A => 'A',
            Capability::B => 'B',
            Capability::I => 'I',
            Capability::M => 'M',
            Capability::P => 'P',
            Capability::S => 'S',
            Capability::T => 'T',
            Capability::U => 'U',
        }
    }

    /// Reads a capability letter.
    pub fn rvs_from_char(c: char) -> (r: Option<Capability>)
        ensures
            r == spec_capability_of(c),
    {
        if c == 'A' {
            Some(Capability::A)
        } else if c == 'B' {
            Some(Capability::B)
        } else if c == 'I' {
            Some(Capability::I)
        } else if c == 'M' {
            Some(Capability::M)
        } else if c == 'P' {
            Some(Capability::P)
        } else if c == 'S' {
            Some(Capability::S)
        } else if c == 'T' {
            Some(Capability::T)
        } else if c == 'U' {
            Some(Capability::U)
        } else {
            None
        }
    }

    /// Whether the capability travels from callee to caller.
    pub fn rvs_is_propagated(self) -> (r: bool)
        ensures
            r == spec_is_propagated(self),
    {
        match self {
            Capability::B | Capability::I | Capability::P | Capability::S | Capability::T => true,
            _ => false,
        }
    }
}

/// A set of capabilities.
#[derive(Debug, Clone, Copy, PartialEq, Eq, Structural)]
pub struct CapabilitySet {
    pub a: bool,
    pub b: bool,
    pub i: bool,
    pub m: bool,
    pub p: bool,
    pub s: bool,
    pub t: bool,
    pub u: bool,
}

/// The set that holds exactly the capabilities satisfying `f`.
pub open spec fn spec_set_of(f: spec_fn(Capability) -> bool) -> CapabilitySet {
    CapabilitySet {
        a: f(Capability::A),
        b: f(Capability::B),
        i: f(Capability::I),
        m: f(Capability::M),
        p: f(Capability::P),
        s: f(Capability::S),
        t: f(Capability::T),
        u: f(Capability::U),
    }
}

/// Union of two sets.
pub open spec fn spec_union(x: CapabilitySet, y: CapabilitySet) -> CapabilitySet {
    spec_set_of(|c: Capability| x.has(c) || y.has(c))
}

/// The capabilities of `x` that propagate along call edges.
pub open spec fn spec_propagated(x: CapabilitySet) -> CapabilitySet {
    spec_set_of(|c: Capability| x.has(c) && spec_is_propagated(c))
}

/// The capabilities of `x` that stay with the function itself.
pub open spec fn spec_non_propagated(x: CapabilitySet) -> CapabilitySet {
    spec_set_of(|c: Capability| x.has(c) && !spec_is_propagated(c))
}

/// The capabilities of `x` not in `y`.
pub open spec fn spec_difference(x: CapabilitySet, y: CapabilitySet) -> CapabilitySet {
    spec_set_of(|c: Capability| x.has(c) && !y.has(c))
}

/// `x` holds every capability of `y`.
pub open spec fn spec_includes(x: CapabilitySet, y: CapabilitySet) -> bool {
    forall|c: Capability| #[trigger] y.has(c) ==> x.has(c)
}

/// The empty set.
pub open spec fn spec_empty() -> CapabilitySet {
    CapabilitySet { a: false, b: false, i: false, m: false, p: false, s: false, t: false, u: false }
}

/// The set holding one capability.
pub open spec fn spec_single(cap: Capability) -> CapabilitySet {
    spec_set_of(|c: Capability| c == cap)
}

/// `c` when `present`, nothing otherwise.
pub open spec fn spec_opt_letter(present: bool, c: char) -> Seq<char> {
    if present {
        seq![c]
    } else {
        Seq::empty()
    }
}

/// The letters of a set, in the canonical order `ABIMPSTU`.
pub open spec fn spec_letters(x: CapabilitySet) -> Seq<char> {
    Seq::<char>::empty() + spec_opt_letter(x.a, 'A') + spec_opt_letter(x.b, 'B') + spec_opt_letter(x.i, 'I')
        + spec_opt_letter(x.m, 'M') + spec_opt_letter(x.p, 'P') + spec_opt_letter(x.s, 'S')
        + spec_opt_letter(x.t, 'T') + spec_opt_letter(x.u, 'U')
}

fn rvs_push_letter_if(r: &mut Vec<char>, present: bool, c: char)
    ensures
        final(r)@ == old(r)@ + spec_opt_letter(present, c),
{
    if present {
        r.push(c);
    }
    assert(r@ =~= old(r)@ + spec_opt_letter(present, c));
}

/// Two sets with the same members are the same set.
pub proof fn lemma_set_ext(x: CapabilitySet, y: CapabilitySet)
    requires
        forall|c: Capability| #[trigger] x.has(c) == y.has(c),
    ensures
        x == y,
{
    assert(x.has(Capability::A) == y.has(Capability::A));
    assert(x.has(Capability::B) == y.has(Capability::B));
    assert(x.has(Capability::I) == y.has(Capability::I));
    assert(x.has(Capability::M) == y.has(Capability::M));
    assert(x.has(Capability::P) == y.has(Capability::P));
    assert(x.has(Capability::S) == y.has(Capability::S));
    assert(x.has(Capability::T) == y.has(Capability::T));
    assert(x.has(Capability::U) == y.has(Capability::U));
}

impl CapabilitySet {
    /// Membership.
    pub open spec fn has(self, cap: Capability) -> bool {
        match cap {
            Capability::A => self.a,
            Capability::B => self.b,
            Capability::I => self.i,
            Capability::M => self.m,
            Capability::P => self.p,
            Capability::S => self.s,
            Capability::T => self.t,
            Capability::U => self.u,
        }
    }

    pub open spec fn is_empty_spec(self) -> bool {
        self == spec_empty()
    }

    /// The empty set.
    pub fn rvs_new() -> (r: CapabilitySet)
        ensures
            r == spec_empty(),
    {
        CapabilitySet { a: false, b: false, i: false, m: false, p: false, s: false, t: false, u: false }
    }

    /// The set holding one capability.
    pub fn rvs_single(cap: Capability) -> (r: CapabilitySet)
        ensures
            r == spec_single(cap),
    {
        let mut r = CapabilitySet::rvs_new();
        r.rvs_insert_M(cap);
        proof {
            lemma_set_ext(r, spec_single(cap));
        }
        r
    }

    /// Membership.
    pub fn rvs_contains(&self, cap: Capability) -> (r: bool)
        ensures
            r == self.has(cap),
    {
        match cap {
            Capability::A => self.a,
            Capability::B => self.b,
            Capability::I => self.i,
            Capability::M => self.m,
            Capability::P => self.p,
            Capability::S => self.s,
            Capability::T => self.t,
            Capability::U => self.u,
        }
    }

    /// No capability at all.
    pub fn rvs_is_empty(&self) -> (r: bool)
        ensures
            r == (*self == spec_empty()),
            r == (forall|c: Capability| !#[trigger] self.has(c)),
    {
        let r = !(self.a || self.b || self.i || self.m || self.p || self.s || self.t || self.u);
        proof {
            if !r {
                if self.a { assert(self.has(Capability::A)); }
                if self.b { assert(self.has(Capability::B)); }
                if self.i { assert(self.has(Capability::I)); }
                if self.m { assert(self.has(Capability::M)); }
                if self.p { assert(self.has(Capability::P)); }
                if self.s { assert(self.has(Capability::S)); }
                if self.t { assert(self.has(Capability::T)); }
                if self.u { assert(self.has(Capability::U)); }
            }
        }
        r
    }

    /// Adds one capability.
    #[allow(non_snake_case)]
    pub fn rvs_insert_M(&mut self, cap: Capability)
        ensures
            forall|c: Capability| #[trigger] final(self).has(c) == (old(self).has(c) || c == cap),
    {
        match cap {
            Capability::A => self.a = true,
            Capability::B => self.b = true,
            Capability::I => self.i = true,
            Capability::M => self.m = true,
            Capability::P => self.p = true,
            Capability::S => self.s = true,
            Capability::T => self.t = true,
            Capability::U => self.u = true,
        }
    }

    /// Adds every capability of `other`; reports whether the set grew.
    #[allow(non_snake_case)]
    pub fn rvs_union_M(&mut self, other: &CapabilitySet) -> (changed: bool)
        ensures
            *final(self) == spec_union(*old(self), *other),
            changed == (*final(self) != *old(self)),
    {
        let before = *self;
        self.a = self.a || other.a;
        self.b = self.b || other.b;
        self.i = self.i || other.i;
        self.m = self.m || other.m;
        self.p = self.p || other.p;
        self.s = self.s || other.s;
        self.t = self.t || other.t;
        self.u = self.u || other.u;
        *self != before
    }

    /// The propagated part of the set.
    pub fn rvs_propagated(&self) -> (r: CapabilitySet)
        ensures
            r == spec_propagated(*self),
    {
        CapabilitySet {
            a: false,
            b: self.b,
            i: self.i,
            m: false,
            p: self.p,
            s: self.s,
            t: self.t,
            u: false,
        }
    }

    /// The non-propagated part of the set.
    pub fn rvs_non_propagated(&self) -> (r: CapabilitySet)
        ensures
            r == spec_non_propagated(*self),
    {
        CapabilitySet {
            a: self.a,
            b: false,
            i: false,
            m: self.m,
            p: false,
            s: false,
            t: false,
            u: self.u,
        }
    }

    /// The members of `self` not in `other`.
    pub fn rvs_difference(&self, other: &CapabilitySet) -> (r: CapabilitySet)
        ensures
            r == spec_difference(*self, *other),
    {
        CapabilitySet {
            a: self.a && !other.a,
            b: self.b && !other.b,
            i: self.i && !other.i,
            m: self.m && !other.m,
            p: self.p && !other.p,
            s: self.s && !other.s,
            t: self.t && !other.t,
            u: self.u && !other.u,
        }
    }

    /// The letters of the set in canonical order, as characters.
    pub fn rvs_letter_chars(&self) -> (r: Vec<char>)
        ensures
            r@ == spec_letters(*self),
    {
        let mut r: Vec<char> = Vec::new();
        rvs_push_letter_if(&mut r, self.a, 'A');
        rvs_push_letter_if(&mut r, self.b, 'B');
        rvs_push_letter_if(&mut r, self.i, 'I');
        rvs_push_letter_if(&mut r, self.m, 'M');
        rvs_push_letter_if(&mut r, self.p, 'P');
        rvs_push_letter_if(&mut r, self.s, 'S');
        rvs_push_letter_if(&mut r, self.t, 'T');
        rvs_push_letter_if(&mut r, self.u, 'U');
        r
    }

    /// The letters of the set in canonical order (`ABIMPSTU`).
    pub fn rvs_letters(&self) -> (r: String)
        ensures
            r@ == spec_letters(*self),
    {
        let chars = self.rvs_letter_chars();
        rvs_string_of(chars.as_slice())
    }

    /// Reads a set from capability letters; `None` when a character is not a
    /// capability letter.
    pub fn rvs_from_chars(s: &[char]) -> (r: Option<CapabilitySet>)
        ensures
            r is Some <==> (forall|j: int| 0 <= j < s@.len() ==> spec_capability_of(#[trigger] s@[j]) is Some),
            r matches Some(x) ==> forall|c: Capability| #[trigger] x.has(c) <==> s@.contains(spec_letter(c)),
    {
        let mut x = CapabilitySet::rvs_new();
        let mut i: usize = 0;
        while i < s.len()
            invariant
                i <= s@.len(),
                forall|j: int| 0 <= j < i ==> spec_capability_of(#[trigger] s@[j]) is Some,
                forall|c: Capability| #[trigger] x.has(c) <==> s@.subrange(0, i as int).contains(spec_letter(c)),
            decreases s.len() - i,
        {
            match Capability::rvs_from_char(s[i]) {
                Some(cap) => {
                    let ghost old_x = x;
                    x.rvs_insert_M(cap);
                    proof {
                        assert forall|c: Capability| #[trigger] x.has(c) <==> s@.subrange(0, i + 1).contains(spec_letter(c)) by {
                            let pre = s@.subrange(0, i as int);
                            let post = s@.subrange(0, i + 1);
                            assert(post =~= pre.push(s@[i as int]));
                            if c == cap {
                                assert(post[i as int] == spec_letter(c));
                            }
                            if pre.contains(spec_letter(c)) {
                                let k = choose|k: int| 0 <= k < pre.len() && pre[k] == spec_letter(c);
                                assert(post[k] == spec_letter(c));
                            }
                            if post.contains(spec_letter(c)) {
                                let k = choose|k: int| 0 <= k < post.len() && post[k] == spec_letter(c);
                                if k < i {
                                    assert(pre[k] == spec_letter(c));
                                } else {
                                    lemma_letter_roundtrip(c);
                                }
                            }
                        }
                    }
                },
                None => {
                    return None;
                },
            }
            i = i + 1;
        }
        assert(s@.subrange(0, s@.len() as int) =~= s@);
        Some(x)
    }

    /// Reads a set from capability letters; `None` when a character is not a
    /// capability letter.
    pub fn rvs_from_str(s: &str) -> (r: Option<CapabilitySet>)
        ensures
            r is Some <==> (forall|j: int| 0 <= j < s@.len() ==> spec_capability_of(#[trigger] s@[j]) is Some),
            r matches Some(x) ==> forall|c: Capability| #[trigger] x.has(c) <==> s@.contains(spec_letter(c)),
    {
        let chars = rvs_chars_of(s);
        CapabilitySet::rvs_from_chars(chars.as_slice())
    }

    /// Reads a set from letters known to be capability letters.
    pub fn rvs_from_validated(s: &str) -> (r: CapabilitySet)
        requires
            forall|j: int| 0 <= j < s@.len() ==> spec_capability_of(#[trigger] s@[j]) is Some,
        ensures
            forall|c: Capability| #[trigger] r.has(c) <==> s@.contains(spec_letter(c)),
    {
        match CapabilitySet::rvs_from_str(s) {
            Some(x) => x,
            None => CapabilitySet::rvs_new(),
        }
    }
}


/// What a call edge hands to the caller: a port call contributes only the
/// port marker (the port hides what its implementations do); any other call
/// contributes the callee's propagated capabilities.
pub open spec fn spec_call_edge_caps(callee: CapabilitySet) -> CapabilitySet {
    if callee.p {
        spec_single(Capability::P)
    } else {
        spec_propagated(callee)
    }
}

/// A set holding two sets holds their union.
pub proof fn lemma_union_within(z: CapabilitySet, x: CapabilitySet, y: CapabilitySet)
    requires
        spec_includes(z, x),
        spec_includes(z, y),
    ensures
        spec_includes(z, spec_union(x, y)),
{
    assert forall|c: Capability| #[trigger] spec_union(x, y).has(c) implies z.has(c) by {
        match c {
            Capability::A => {}, Capability::B => {}, Capability::I => {}, Capability::M => {},
            Capability::P => {}, Capability::S => {}, Capability::T => {}, Capability::U => {},
        }
        if x.has(c) {
            assert(z.has(c));
        } else {
            assert(y.has(c));
        }
    }
}

/// What a call hands on lies within the callee's propagated capabilities,
/// and those grow with the callee's capabilities.
pub proof fn lemma_edge_within_propagated(y: CapabilitySet, x: CapabilitySet)
    requires
        spec_includes(x, y),
    ensures
        spec_includes(spec_propagated(x), spec_call_edge_caps(y)),
{
    assert forall|c: Capability| #[trigger] spec_call_edge_caps(y).has(c) implies spec_propagated(x).has(c) by {
        match c {
            Capability::A => {}, Capability::B => {}, Capability::I => {}, Capability::M => {},
            Capability::P => {}, Capability::S => {}, Capability::T => {}, Capability::U => {},
        }
        assert(y.has(c));
        assert(x.has(c));
    }
}

/// A union holds both of its sides.
pub proof fn lemma_union_includes(x: CapabilitySet, y: CapabilitySet)
    ensures
        spec_includes(spec_union(x, y), x),
        spec_includes(spec_union(x, y), y),
{
    assert forall|c: Capability| #[trigger] x.has(c) implies spec_union(x, y).has(c) by {
        match c {
            Capability::A => {}, Capability::B => {}, Capability::I => {}, Capability::M => {},
            Capability::P => {}, Capability::S => {}, Capability::T => {}, Capability::U => {},
        }
    }
    assert forall|c: Capability| #[trigger] y.has(c) implies spec_union(x, y).has(c) by {
        match c {
            Capability::A => {}, Capability::B => {}, Capability::I => {}, Capability::M => {},
            Capability::P => {}, Capability::S => {}, Capability::T => {}, Capability::U => {},
        }
    }
}

/// Two sets that hold each other are equal.
pub proof fn lemma_includes_antisym(x: CapabilitySet, y: CapabilitySet)
    requires
        spec_includes(x, y),
        spec_includes(y, x),
    ensures
        x == y,
{
    assert(x.has(Capability::A) == y.has(Capability::A));
    assert(x.has(Capability::B) == y.has(Capability::B));
    assert(x.has(Capability::I) == y.has(Capability::I));
    assert(x.has(Capability::M) == y.has(Capability::M));
    assert(x.has(Capability::P) == y.has(Capability::P));
    assert(x.has(Capability::S) == y.has(Capability::S));
    assert(x.has(Capability::T) == y.has(Capability::T));
    assert(x.has(Capability::U) == y.has(Capability::U));
}

/// Inclusion is transitive.
pub proof fn lemma_includes_trans(x: CapabilitySet, y: CapabilitySet, z: CapabilitySet)
    requires
        spec_includes(x, y),
        spec_includes(y, z),
    ensures
        spec_includes(x, z),
{
}

/// The propagated part grows with the set.
pub proof fn lemma_propagated_mono(x: CapabilitySet, y: CapabilitySet)
    requires
        spec_includes(x, y),
    ensures
        spec_includes(spec_propagated(x), spec_propagated(y)),
{
    assert forall|c: Capability| #[trigger] spec_propagated(y).has(c) implies spec_propagated(x).has(c) by {
        match c {
            Capability::A => {}, Capability::B => {}, Capability::I => {}, Capability::M => {},
            Capability::P => {}, Capability::S => {}, Capability::T => {}, Capability::U => {},
        }
        assert(y.has(c));
    }
}

/// A call hands on the same from a set as from its propagated part, and
/// nothing when that part is empty.
pub proof fn lemma_edge_of_propagated(x: CapabilitySet)
    ensures
        spec_call_edge_caps(spec_propagated(x)) == spec_call_edge_caps(x),
        spec_propagated(spec_propagated(x)) == spec_propagated(x),
        spec_propagated(x) == spec_empty() ==> spec_call_edge_caps(x) == spec_empty(),
        spec_includes(spec_propagated(x), spec_call_edge_caps(x)),
        spec_includes(x, spec_propagated(x)),
{
    lemma_edge_within_propagated(x, x);
    assert(spec_propagated(x).p == x.p);
    if x.p {
        assert(spec_call_edge_caps(spec_propagated(x)) == spec_call_edge_caps(x));
    } else {
        assert(spec_propagated(spec_propagated(x)) =~= spec_propagated(x)) by {
            assert(spec_propagated(spec_propagated(x)).b == spec_propagated(x).b);
        }
    }
    assert(spec_propagated(spec_propagated(x)).a == spec_propagated(x).a);
    assert(spec_propagated(spec_propagated(x)).i == spec_propagated(x).i);
    assert(spec_propagated(spec_propagated(x)).s == spec_propagated(x).s);
    assert(spec_propagated(spec_propagated(x)).t == spec_propagated(x).t);
    assert(spec_includes(x, spec_propagated(x))) by {
        assert forall|c: Capability| #[trigger] spec_propagated(x).has(c) implies x.has(c) by {
            match c {
                Capability::A => {}, Capability::B => {}, Capability::I => {}, Capability::M => {},
                Capability::P => {}, Capability::S => {}, Capability::T => {}, Capability::U => {},
            }
        }
    }
}

/// The propagated part of a set keeps exactly the capabilities that travel
/// along calls (blocking, I/O, the port marker, shared state and thread-local
/// state) and drops the signature-only ones (async, `&mut`, unsafe); the
/// rest stays with the function.
pub proof fn lemma_propagated_parts(x: CapabilitySet)
    ensures
        spec_propagated(x) == (CapabilitySet { a: false, b: x.b, i: x.i, m: false, p: x.p, s: x.s, t: x.t, u: false }),
        spec_non_propagated(x) == (CapabilitySet { a: x.a, b: false, i: false, m: x.m, p: false, s: false, t: false, u: x.u }),
        spec_propagated(x).has(Capability::T) == x.has(Capability::T),
        !x.p ==> spec_call_edge_caps(x).has(Capability::T) == x.has(Capability::T),
{
}

/// What a caller lacks to call a callee.
pub open spec fn spec_missing_for(caller: CapabilitySet, callee: CapabilitySet) -> CapabilitySet {
    spec_difference(spec_call_edge_caps(callee), caller)
}

/// The capabilities a call edge hands to the caller.
pub fn rvs_call_edge_caps(callee: &CapabilitySet) -> (r: CapabilitySet)
    ensures
        r == spec_call_edge_caps(*callee),
{
    if callee.p {
        CapabilitySet::rvs_single(Capability::P)
    } else {
        callee.rvs_propagated()
    }
}

/// The capabilities a caller lacks to call `callee`.
pub fn rvs_missing_for(caller: &CapabilitySet, callee: &CapabilitySet) -> (r: CapabilitySet)
    ensures
        r == spec_missing_for(*caller, *callee),
{
    rvs_call_edge_caps(callee).rvs_difference(caller)
}

/// Whether a caller with `caller` may call a callee with `callee`.
pub fn rvs_can_call(caller: &CapabilitySet, callee: &CapabilitySet) -> (r: bool)
    ensures
        r == (spec_missing_for(*caller, *callee) == spec_empty()),
        r == spec_includes(*caller, spec_call_edge_caps(*callee)),
{
    let missing = rvs_missing_for(caller, callee);
    let r = missing.rvs_is_empty();
    proof {
        if !r {
            let c = choose|c: Capability| missing.has(c);
            assert(spec_call_edge_caps(*callee).has(c) && !caller.has(c));
        }
    }
    r
}

/// Facts about a function's signature and body, gathered by the compiler pass.
#[derive(Debug, Clone, Copy, PartialEq, Eq, Structural)]
pub struct CapabilityFacts {
    pub has_async: bool,
    pub has_mut_param: bool,
    pub is_unsafe_fn: bool,
    pub has_static_ref: bool,
    pub has_static_mut_ref: bool,
    pub has_thread_local_ref: bool,
    pub is_port_method: bool,
}

impl Default for CapabilityFacts {
    fn default() -> (r: Self)
        ensures
            r == spec_no_facts(),
    {
        CapabilityFacts {
            has_async: false,
            has_mut_param: false,
            is_unsafe_fn: false,
            has_static_ref: false,
            has_static_mut_ref: false,
            has_thread_local_ref: false,
            is_port_method: false,
        }
    }
}

/// No fact set.
pub open spec fn spec_no_facts() -> CapabilityFacts {
    CapabilityFacts {
        has_async: false,
        has_mut_param: false,
        is_unsafe_fn: false,
        has_static_ref: false,
        has_static_mut_ref: false,
        has_thread_local_ref: false,
        is_port_method: false,
    }
}

/// The capabilities a function has by its own signature and body facts:
/// async `A`, mutable parameter `M`, unsafe fn `U`, static state `S`,
/// thread-local state `T`, port method `P`.
pub open spec fn spec_signature_caps(f: CapabilityFacts) -> CapabilitySet {
    CapabilitySet {
        a: f.has_async,
        b: false,
        i: false,
        m: f.has_mut_param,
        p: f.is_port_method,
        s: f.has_static_ref || f.has_static_mut_ref,
        t: f.has_thread_local_ref,
        u: f.is_unsafe_fn,
    }
}

/// The capabilities a port operation (the declaration a port's callers call)
/// has by its signature: its async and unsafe markers and the port marker.
pub open spec fn spec_port_operation_caps(f: CapabilityFacts) -> CapabilitySet {
    CapabilitySet {
        a: f.has_async,
        b: false,
        i: false,
        m: false,
        p: true,
        s: false,
        t: false,
        u: f.is_unsafe_fn,
    }
}

/// Capabilities from the signature and body facts alone.
pub fn rvs_signature_caps(f: CapabilityFacts) -> (r: CapabilitySet)
    ensures
        r == spec_signature_caps(f),
{
    CapabilitySet {
        a: f.has_async,
        b: false,
        i: false,
        m: f.has_mut_param,
        p: f.is_port_method,
        s: f.has_static_ref || f.has_static_mut_ref,
        t: f.has_thread_local_ref,
        u: f.is_unsafe_fn,
    }
}

/// Capabilities of a port operation from its signature.
pub fn rvs_port_operation_signature_caps(f: CapabilityFacts) -> (r: CapabilitySet)
    ensures
        r == spec_port_operation_caps(f),
{
    CapabilitySet {
        a: f.has_async,
        b: false,
        i: false,
        m: false,
        p: true,
        s: false,
        t: false,
        u: f.is_unsafe_fn,
    }
}

/// The capabilities a port method has when nothing else is known of it.
pub fn rvs_port_method_caps() -> (r: CapabilitySet)
    ensures
        r == spec_single(Capability::P),
{
    CapabilitySet::rvs_single(Capability::P)
}

/// Per-capability vote counts.
#[derive(Debug, Clone, Copy, PartialEq, Eq, Structural)]
pub struct CapabilityCounts {
    pub a: usize,
    pub b: usize,
    pub i: usize,
    pub m: usize,
    pub p: usize,
    pub s: usize,
    pub t: usize,
    pub u: usize,
}

impl CapabilityCounts {
    pub open spec fn get(self, cap: Capability) -> usize {
        match cap {
            Capability::A => self.a,
            Capability::B => self.b,
            Capability::I => self.i,
            Capability::M => self.m,
            Capability::P => self.p,
            Capability::S => self.s,
            Capability::T => self.t,
            Capability::U => self.u,
        }
    }

    /// All counts zero.
    pub fn rvs_zero() -> (r: CapabilityCounts)
        ensures
            forall|c: Capability| #[trigger] r.get(c) == 0,
    {
        CapabilityCounts { a: 0, b: 0, i: 0, m: 0, p: 0, s: 0, t: 0, u: 0 }
    }

    /// The count of one capability.
    pub fn rvs_count(&self, cap: Capability) -> (r: usize)
        ensures
            r == self.get(cap),
    {
        match cap {
            Capability::A => self.a,
            Capability::B => self.b,
            Capability::I => self.i,
            Capability::M => self.m,
            Capability::P => self.p,
            Capability::S => self.s,
            Capability::T => self.t,
            Capability::U => self.u,
        }
    }

    /// Counts one more vote for every capability of `x`.
    fn rvs_plus(&self, x: &CapabilitySet, bound: usize) -> (r: CapabilityCounts)
        requires
            self.a < bound, self.b < bound, self.i < bound, self.m < bound,
            self.p < bound, self.s < bound, self.t < bound, self.u < bound,
        ensures
            forall|c: Capability| #[trigger] r.get(c) == self.get(c) + (if x.has(c) { 1int } else { 0int }),
    {
        CapabilityCounts {
            a: if x.a { self.a + 1 } else { self.a },
            b: if x.b { self.b + 1 } else { self.b },
            i: if x.i { self.i + 1 } else { self.i },
            m: if x.m { self.m + 1 } else { self.m },
            p: if x.p { self.p + 1 } else { self.p },
            s: if x.s { self.s + 1 } else { self.s },
            t: if x.t { self.t + 1 } else { self.t },
            u: if x.u { self.u + 1 } else { self.u },
        }
    }
}

/// How many of the sets hold `cap`.
pub open spec fn spec_count(sets: Seq<CapabilitySet>, cap: Capability) -> nat
    decreases sets.len(),
{
    if sets.len() == 0 {
        0
    } else {
        spec_count(sets.drop_last(), cap) + (if sets.last().has(cap) { 1nat } else { 0nat })
    }
}

pub proof fn lemma_count_bound(sets: Seq<CapabilitySet>, cap: Capability)
    ensures
        spec_count(sets, cap) <= sets.len(),
    decreases sets.len(),
{
    if sets.len() > 0 {
        lemma_count_bound(sets.drop_last(), cap);
    }
}

/// The at-least-half threshold for `n` implementations.
pub open spec fn spec_vote_threshold(n: nat) -> nat {
    ((n + 1) / 2) as nat
}

/// The outcome of an at-least-half vote over implementation capability sets:
/// `None` when there is nothing to vote on; otherwise the selected set (every
/// capability held by at least half of the sets), the threshold and the
/// per-capability counts.
pub open spec fn spec_vote_ok(sets: Seq<CapabilitySet>, r: (CapabilitySet, usize, CapabilityCounts)) -> bool {
    &&& r.1 == spec_vote_threshold(sets.len())
    &&& forall|c: Capability| #[trigger] r.2.get(c) == spec_count(sets, c)
    &&& forall|c: Capability| #[trigger] r.0.has(c) == (spec_count(sets, c) >= r.1)
}

/// An at-least-half vote over `n > 0` implementation sets selects a
/// capability exactly when twice its count reaches `n`, and its threshold is
/// the least count that does: `ceil(n / 2)`.
pub proof fn lemma_vote_selects_at_least_half(sets: Seq<CapabilitySet>, r: (CapabilitySet, usize, CapabilityCounts), c: Capability)
    requires
        sets.len() > 0,
        spec_vote_ok(sets, r),
    ensures
        r.0.has(c) <==> 2 * spec_count(sets, c) >= sets.len(),
        2 * r.1 >= sets.len(),
        2 * (r.1 - 1) < sets.len(),
        r.2.get(c) == spec_count(sets, c),
{
    let n = sets.len();
    let k = spec_count(sets, c);
    assert(r.0.has(c) == (k >= r.1));
    assert(r.1 == (n + 1) / 2);
    assert(k >= (n + 1) / 2 <==> 2 * k >= n);
}

/// At-least-half vote over implementation capability sets.
pub fn rvs_at_least_half_vote(sets: &Vec<CapabilitySet>) -> (r: Option<(CapabilitySet, usize, CapabilityCounts)>)
    ensures
        r is None <==> sets@.len() == 0,
        r matches Some(v) ==> spec_vote_ok(sets@, v),
{
    if sets.len() == 0 {
        return None;
    }
    let mut counts = CapabilityCounts::rvs_zero();
    let mut i: usize = 0;
    while i < sets.len()
        invariant
            i <= sets@.len(),
            forall|c: Capability| #[trigger] counts.get(c) == spec_count(sets@.subrange(0, i as int), c),
        decreases sets.len() - i,
    {
        proof {
            assert forall|c: Capability| #[trigger] counts.get(c) < sets@.len() by {
                lemma_count_bound(sets@.subrange(0, i as int), c);
            }
            assert(counts.get(Capability::A) < sets@.len());
            assert(counts.get(Capability::B) < sets@.len());
            assert(counts.get(Capability::I) < sets@.len());
            assert(counts.get(Capability::M) < sets@.len());
            assert(counts.get(Capability::P) < sets@.len());
            assert(counts.get(Capability::S) < sets@.len());
            assert(counts.get(Capability::T) < sets@.len());
            assert(counts.get(Capability::U) < sets@.len());
        }
        counts = counts.rvs_plus(&sets[i], sets.len());
        proof {
            let pre = sets@.subrange(0, i as int);
            let post = sets@.subrange(0, i + 1);
            assert(post.drop_last() =~= pre);
            assert forall|c: Capability| #[trigger] counts.get(c) == spec_count(post, c) by {
                assert(spec_count(post, c) == spec_count(pre, c) + (if post.last().has(c) { 1nat } else { 0nat }));
            }
        }
        i = i + 1;
    }
    assert(sets@.subrange(0, sets@.len() as int) =~= sets@);
    let threshold = (sets.len() - 1) / 2 + 1;
    assert(threshold == spec_vote_threshold(sets@.len()));
    let selected = CapabilitySet {
        a: counts.a >= threshold,
        b: counts.b >= threshold,
        i: counts.i >= threshold,
        m: counts.m >= threshold,
        p: counts.p >= threshold,
        s: counts.s >= threshold,
        t: counts.t >= threshold,
        u: counts.u >= threshold,
    };
    proof {
        assert forall|c: Capability| #[trigger] selected.has(c) == (spec_count(sets@, c) >= threshold) by {
            assert(counts.get(c) == spec_count(sets@, c));
        }
    }
    Some((selected, threshold, counts))
}


/// How much is known about a function's capabilities.
#[derive(Debug, Clone, Copy, PartialEq, Eq, Structural)]
pub enum CapabilityCompleteness {
    /// Every callee was known: the set is exact.
    Complete,
    /// Some callee was unknown: the set is a lower bound.
    Incomplete,
    /// Recorded without knowing whether the set is exact.
    Unknown,
}

impl CapabilityCompleteness {
    /// The name used in capability maps.
    pub fn rvs_name(self) -> (r: &'static str)
        ensures
            self == CapabilityCompleteness::Complete ==> r@ == "complete"@,
            self == CapabilityCompleteness::Incomplete ==> r@ == "incomplete"@,
            self == CapabilityCompleteness::Unknown ==> r@ == "unknown"@,
    {
        match self {
            CapabilityCompleteness::Complete => "complete",
            CapabilityCompleteness::Incomplete => "incomplete",
            CapabilityCompleteness::Unknown => "unknown",
        }
    }
}

/// Where a capability record comes from.
#[derive(Debug, Clone, Copy, PartialEq, Eq, Structural)]
pub enum CapabilityBasis {
    /// Written by a person.
    Explicit,
    /// Computed from the call graph.
    Inferred,
    /// Carried over from the first capability-map format.
    MigratedV1,
    /// Chosen by an at-least-half vote over trait implementations.
    TraitVote { implementations: usize, threshold: usize, votes: CapabilityCounts },
}

/// A capability set with its provenance and completeness.
#[derive(Debug, Clone, Copy, PartialEq, Eq, Structural)]
pub struct CapabilityInfo {
    pub caps: CapabilitySet,
    pub basis: CapabilityBasis,
    pub completeness: CapabilityCompleteness,
}

impl CapabilityInfo {
    pub open spec fn spec_explicit(caps: CapabilitySet) -> CapabilityInfo {
        CapabilityInfo { caps, basis: CapabilityBasis::Explicit, completeness: CapabilityCompleteness::Complete }
    }

    pub fn rvs_new(caps: CapabilitySet, basis: CapabilityBasis, completeness: CapabilityCompleteness) -> (r: CapabilityInfo)
        ensures
            r == (CapabilityInfo { caps, basis, completeness }),
    {
        CapabilityInfo { caps, basis, completeness }
    }

    /// A complete, inferred record.
    pub fn rvs_inferred(caps: CapabilitySet) -> (r: CapabilityInfo)
        ensures
            r == (CapabilityInfo { caps, basis: CapabilityBasis::Inferred, completeness: CapabilityCompleteness::Complete }),
    {
        CapabilityInfo { caps, basis: CapabilityBasis::Inferred, completeness: CapabilityCompleteness::Complete }
    }

    /// A complete, hand-written record.
    pub fn rvs_explicit(caps: CapabilitySet) -> (r: CapabilityInfo)
        ensures
            r == (CapabilityInfo { caps, basis: CapabilityBasis::Explicit, completeness: CapabilityCompleteness::Complete }),
    {
        CapabilityInfo { caps, basis: CapabilityBasis::Explicit, completeness: CapabilityCompleteness::Complete }
    }

    /// A record carried over from the first map format.
    pub fn rvs_migrated_v1(caps: CapabilitySet, completeness: CapabilityCompleteness) -> (r: CapabilityInfo)
        ensures
            r == (CapabilityInfo { caps, basis: CapabilityBasis::MigratedV1, completeness }),
    {
        CapabilityInfo { caps, basis: CapabilityBasis::MigratedV1, completeness }
    }

    /// A record chosen by a trait-implementation vote.
    pub fn rvs_trait_vote(
        caps: CapabilitySet,
        implementations: usize,
        threshold: usize,
        votes: CapabilityCounts,
        completeness: CapabilityCompleteness,
    ) -> (r: CapabilityInfo)
        ensures
            r == (CapabilityInfo { caps, basis: CapabilityBasis::TraitVote { implementations, threshold, votes }, completeness }),
    {
        CapabilityInfo { caps, basis: CapabilityBasis::TraitVote { implementations, threshold, votes }, completeness }
    }

    pub fn rvs_caps(&self) -> (r: CapabilitySet)
        ensures
            r == self.caps,
    {
        self.caps
    }

    pub fn rvs_basis(&self) -> (r: CapabilityBasis)
        ensures
            r == self.basis,
    {
        self.basis
    }

    pub fn rvs_completeness(&self) -> (r: CapabilityCompleteness)
        ensures
            r == self.completeness,
    {
        self.completeness
    }
}

} // verus!
