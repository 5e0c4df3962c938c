//! Definition paths and the names derived from them.
//!
//! A definition path is the compiler's path of a function, such as
//! `demo::Adapter::rvs_fetch_BI@demo::ApiClient`: the text after `@` names
//! the trait that an impl method implements.  Specialised impls carry a
//! marker `{impl#<hex>}` after the type name.
use vstd::prelude::*;

use crate::order::{rvs_compare_chars, spec_lt};
use crate::text::{
    lemma_first_index_of, lemma_last_index_of, rvs_chars_clone, rvs_chars_eq, rvs_chars_of,
    rvs_first_index_of, rvs_last_index_of, rvs_push_all, rvs_slice_chars, rvs_starts_with,
    rvs_string_of, spec_first_index_of, spec_last_index_of, spec_starts_with,
};

verus! {

/// A function's definition path.
#[derive(Debug, Clone, PartialEq, Eq, PartialOrd, Ord, Hash)]
pub struct DefPath {
    pub chars: Vec<char>,
}

impl View for DefPath {
    type V = Seq<char>;

    open spec fn view(&self) -> Seq<char> {
        self.chars@
    }
}

impl DefPath {
    /// The path spelled by `s`.
    pub fn rvs_new(s: &str) -> (r: DefPath)
        ensures
            r@ == s@,
    {
        DefPath { chars: rvs_chars_of(s) }
    }

    /// The path spelled by `chars`.
    pub fn rvs_from_chars(chars: Vec<char>) -> (r: DefPath)
        ensures
            r@ == chars@,
    {
        DefPath { chars }
    }

    /// The path's characters.
    pub fn rvs_chars(&self) -> (r: &[char])
        ensures
            r@ == self@,
    {
        self.chars.as_slice()
    }

    /// The path as a string.
    pub fn rvs_to_string(&self) -> (r: String)
        ensures
            r@ == self@,
    {
        rvs_string_of(self.chars.as_slice())
    }

    /// A copy of the path.
    pub fn rvs_copy(&self) -> (r: DefPath)
        ensures
            r@ == self@,
    {
        DefPath { chars: rvs_chars_clone(&self.chars) }
    }

    /// Whether two paths are equal.
    pub fn rvs_eq(&self, other: &DefPath) -> (r: bool)
        ensures
            r == (self@ == other@),
    {
        rvs_chars_eq(self.chars.as_slice(), other.chars.as_slice())
    }

    /// Whether the path is spelled `s`.
    pub fn rvs_is(&self, s: &str) -> (r: bool)
        ensures
            r == (self@ == s@),
    {
        let other = rvs_chars_of(s);
        rvs_chars_eq(self.chars.as_slice(), other.as_slice())
    }

    /// Three-way comparison in path order.
    pub fn rvs_compare(&self, other: &DefPath) -> (r: i8)
        ensures
            (r < 0) == spec_lt(self@, other@),
            (r == 0) == (self@ == other@),
            (r > 0) == spec_lt(other@, self@),
    {
        rvs_compare_chars(self.chars.as_slice(), other.chars.as_slice())
    }
}

/// The impl method part and the trait part of a trait impl method path
/// `impl_path@trait_path`, split at the first `@`; both must be non-empty.
pub open spec fn spec_impl_split(p: Seq<char>) -> Option<(Seq<char>, Seq<char>)> {
    match spec_first_index_of(p, '@') {
        Some(k) => if k > 0 && k + 1 < p.len() {
            Some((p.subrange(0, k), p.subrange(k + 1, p.len() as int)))
        } else {
            None
        },
        None => None,
    }
}

/// The last `::`-separated segment of a path.
pub open spec fn spec_last_segment(p: Seq<char>) -> Seq<char> {
    match spec_last_index_of(p, ':') {
        Some(k) => p.subrange(k + 1, p.len() as int),
        None => p,
    }
}

/// The path without its last segment and the `::` before it, if it has one.
pub open spec fn spec_parent(p: Seq<char>) -> Option<Seq<char>> {
    match spec_last_index_of(p, ':') {
        Some(k) => if k >= 1 && p[k - 1] == ':' {
            Some(p.subrange(0, k - 1))
        } else {
            None
        },
        None => None,
    }
}

/// The function name of a path: the last segment of its method part.
pub open spec fn spec_fn_name(p: Seq<char>) -> Seq<char> {
    match spec_first_index_of(p, '@') {
        Some(k) => spec_last_segment(p.subrange(0, k)),
        None => spec_last_segment(p),
    }
}

/// For a trait impl method `T::m@Tr`, the trait method path `Tr::m`.
pub open spec fn spec_trait_method_path(p: Seq<char>) -> Option<Seq<char>> {
    match spec_impl_split(p) {
        Some((imp, tr)) => Some(tr + seq![':', ':'] + spec_last_segment(imp)),
        None => None,
    }
}

/// For a trait impl method `T::m@Tr`, the index key `m@Tr`.
pub open spec fn spec_impl_lookup_key(p: Seq<char>) -> Option<Seq<char>> {
    match spec_impl_split(p) {
        Some((imp, tr)) => Some(spec_last_segment(imp) + seq!['@'] + tr),
        None => None,
    }
}

/// For a trait method path `Tr::m` (no `@`), the index key `m@Tr`.
pub open spec fn spec_trait_method_key(p: Seq<char>) -> Option<Seq<char>> {
    if spec_first_index_of(p, '@') is Some {
        None
    } else {
        match spec_parent(p) {
            Some(parent) => Some(spec_last_segment(p) + seq!['@'] + parent),
            None => None,
        }
    }
}

/// The last segment of a path.
pub fn rvs_last_segment(p: &[char]) -> (r: Vec<char>)
    ensures
        r@ == spec_last_segment(p@),
{
    proof {
        lemma_last_index_of(p@, ':');
    }
    match rvs_last_index_of(p, ':') {
        Some(k) => {
            assert(spec_last_index_of(p@, ':') == Some(k as int));
            assert(k < p.len());
            rvs_slice_chars(p, k + 1, p.len())
        },
        None => rvs_slice_chars(p, 0, p.len()),
    }
}

/// Splits a trait impl method path at its `@`.
pub fn rvs_impl_split(p: &[char]) -> (r: Option<(Vec<char>, Vec<char>)>)
    ensures
        match spec_impl_split(p@) {
            Some(parts) => r matches Some(q) && q.0@ == parts.0 && q.1@ == parts.1,
            None => r is None,
        },
{
    proof {
        lemma_first_index_of(p@, '@');
    }
    match rvs_first_index_of(p, '@') {
        Some(k) => {
            assert(spec_first_index_of(p@, '@') == Some(k as int));
            assert(k < p.len());
            if k > 0 && k + 1 < p.len() {
                Some((rvs_slice_chars(p, 0, k), rvs_slice_chars(p, k + 1, p.len())))
            } else {
                None
            }
        },
        None => None,
    }
}

/// The function name of a path.
pub fn rvs_fn_name_chars(p: &[char]) -> (r: Vec<char>)
    ensures
        r@ == spec_fn_name(p@),
{
    proof {
        lemma_first_index_of(p@, '@');
    }
    match rvs_first_index_of(p, '@') {
        Some(k) => {
            assert(spec_first_index_of(p@, '@') == Some(k as int));
            let head = rvs_slice_chars(p, 0, k);
            rvs_last_segment(head.as_slice())
        },
        None => rvs_last_segment(p),
    }
}

/// The trait method path of a trait impl method path.
pub fn rvs_trait_method_path(p: &[char]) -> (r: Option<Vec<char>>)
    ensures
        match spec_trait_method_path(p@) {
            Some(t) => r matches Some(q) && q@ == t,
            None => r is None,
        },
{
    match rvs_impl_split(p) {
        Some((imp, tr)) => {
            let method = rvs_last_segment(imp.as_slice());
            let mut r = tr;
            r.push(':');
            r.push(':');
            rvs_push_all(&mut r, method.as_slice());
            Some(r)
        },
        None => None,
    }
}

/// The index key of a trait impl method path.
pub fn rvs_impl_lookup_key(p: &[char]) -> (r: Option<Vec<char>>)
    ensures
        match spec_impl_lookup_key(p@) {
            Some(t) => r matches Some(q) && q@ == t,
            None => r is None,
        },
{
    match rvs_impl_split(p) {
        Some((imp, tr)) => {
            let mut r = rvs_last_segment(imp.as_slice());
            r.push('@');
            rvs_push_all(&mut r, tr.as_slice());
            Some(r)
        },
        None => None,
    }
}

/// The index key of a trait method path.
pub fn rvs_trait_method_key(p: &[char]) -> (r: Option<Vec<char>>)
    ensures
        match spec_trait_method_key(p@) {
            Some(t) => r matches Some(q) && q@ == t,
            None => r is None,
        },
{
    if rvs_first_index_of(p, '@').is_some() {
        return None;
    }
    proof {
        lemma_last_index_of(p@, ':');
    }
    match rvs_last_index_of(p, ':') {
        Some(k) => {
            assert(spec_last_index_of(p@, ':') == Some(k as int));
            if k >= 1 && p[k - 1] == ':' {
                let mut r = rvs_last_segment(p);
                r.push('@');
                let parent = rvs_slice_chars(p, 0, k - 1);
                rvs_push_all(&mut r, parent.as_slice());
                Some(r)
            } else {
                None
            }
        },
        None => None,
    }
}

/// The marker that opens a specialised-impl identity: `{impl#`.
pub open spec fn spec_impl_marker() -> Seq<char> {
    seq!['{', 'i', 'm', 'p', 'l', '#']
}

/// The path with every `{impl#…}` identity marker removed.
pub open spec fn spec_user_path(s: Seq<char>) -> Seq<char>
    decreases s.len(),
{
    if s.len() == 0 {
        Seq::empty()
    } else if spec_starts_with(s, spec_impl_marker()) {
        match spec_first_index_of(s, '}') {
            Some(k) => {
                proof {
                    lemma_first_index_of(s, '}');
                }
                spec_user_path(s.subrange(k + 1, s.len() as int))
            },
            None => s,
        }
    } else {
        seq![s[0]] + spec_user_path(s.subrange(1, s.len() as int))
    }
}

fn rvs_impl_marker_chars() -> (r: Vec<char>)
    ensures
        r@ == spec_impl_marker(),
{
    let mut r: Vec<char> = Vec::new();
    r.push('{');
    r.push('i');
    r.push('m');
    r.push('p');
    r.push('l');
    r.push('#');
    assert(r@ =~= spec_impl_marker());
    r
}

/// Removes the `{impl#…}` identity markers of a path.
pub fn rvs_user_path_chars(s: &[char]) -> (r: Vec<char>)
    ensures
        r@ == spec_user_path(s@),
{
    let marker = rvs_impl_marker_chars();
    let mut out: Vec<char> = Vec::new();
    let mut rest = rvs_slice_chars(s, 0, s.len());
    assert(rest@ =~= s@);
    assert(out@ + spec_user_path(rest@) =~= spec_user_path(s@));
    while rest.len() > 0
        invariant
            out@ + spec_user_path(rest@) == spec_user_path(s@),
            marker@ == spec_impl_marker(),
        decreases rest.len(),
    {
        if rvs_starts_with(rest.as_slice(), marker.as_slice()) {
            proof {
                lemma_first_index_of(rest@, '}');
            }
            match rvs_first_index_of(rest.as_slice(), '}') {
                Some(k) => {
                    assert(spec_first_index_of(rest@, '}') == Some(k as int));
                    rest = rvs_slice_chars(rest.as_slice(), k + 1, rest.len());
                },
                None => {
                    let ghost before = out@;
                    rvs_push_all(&mut out, rest.as_slice());
                    proof {
                        assert(spec_user_path(rest@) == rest@);
                    }
                    return out;
                },
            }
        } else {
            let ghost r0 = rest@;
            out.push(rest[0]);
            rest = rvs_slice_chars(rest.as_slice(), 1, rest.len());
            proof {
                assert(spec_user_path(r0) == seq![r0[0]] + spec_user_path(rest@));
                assert(out@ + spec_user_path(rest@) =~= (out@.drop_last()) + (seq![r0[0]] + spec_user_path(rest@)));
            }
        }
    }
    proof {
        assert(out@ + Seq::<char>::empty() =~= out@);
    }
    out
}

impl DefPath {
    /// The path without identity markers.
    pub fn rvs_user_path(&self) -> (r: DefPath)
        ensures
            r@ == spec_user_path(self@),
    {
        DefPath { chars: rvs_user_path_chars(self.chars.as_slice()) }
    }

    /// The function name.
    pub fn rvs_fn_name(&self) -> (r: Vec<char>)
        ensures
            r@ == spec_fn_name(self@),
    {
        rvs_fn_name_chars(self.chars.as_slice())
    }

    /// For a trait impl method, the trait method path.
    pub fn rvs_trait_method_path(&self) -> (r: Option<DefPath>)
        ensures
            match spec_trait_method_path(self@) {
                Some(t) => r matches Some(q) && q@ == t,
                None => r is None,
            },
    {
        match rvs_trait_method_path(self.chars.as_slice()) {
            Some(v) => Some(DefPath { chars: v }),
            None => None,
        }
    }

    /// Whether the path is a trait impl method.
    pub fn rvs_is_trait_impl_path(&self) -> (r: bool)
        ensures
            r == (spec_impl_split(self@) is Some),
    {
        rvs_impl_split(self.chars.as_slice()).is_some()
    }
}

/// The name of a crate as given to cargo (`-` and `_` both allowed).
#[derive(Debug, Clone, PartialEq, Eq, PartialOrd, Ord)]
pub struct CrateName {
    pub chars: Vec<char>,
}

/// The path prefix of a crate: its name with `-` read as `_`, then `::`.
pub open spec fn spec_crate_prefix(name: Seq<char>) -> Seq<char> {
    name.map_values(|c: char| if c == '-' { '_' } else { c }) + seq![':', ':']
}

impl CrateName {
    pub fn rvs_new(s: &str) -> (r: CrateName)
        ensures
            r.chars@ == s@,
    {
        CrateName { chars: rvs_chars_of(s) }
    }

    /// The path prefix of the crate.
    pub fn rvs_prefix(&self) -> (r: Vec<char>)
        ensures
            r@ == spec_crate_prefix(self.chars@),
    {
        let mut r: Vec<char> = Vec::new();
        let mut i: usize = 0;
        while i < self.chars.len()
            invariant
                i <= self.chars@.len(),
                r@ == self.chars@.subrange(0, i as int).map_values(|c: char| if c == '-' { '_' } else { c }),
            decreases self.chars.len() - i,
        {
            let c = self.chars[i];
            r.push(if c == '-' { '_' } else { c });
            i = i + 1;
            assert(r@ =~= self.chars@.subrange(0, i as int).map_values(|c: char| if c == '-' { '_' } else { c }));
        }
        assert(self.chars@.subrange(0, self.chars@.len() as int) =~= self.chars@);
        r.push(':');
        r.push(':');
        assert(r@ =~= spec_crate_prefix(self.chars@));
        r
    }
}

} // verus!
