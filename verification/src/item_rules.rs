//! The item rules of the lint pass over plain names: banned error crates in
//! imports, wildcard imports, catch-all variants of error enums and the
//! discouraged trait impls.
use vstd::prelude::*;

use crate::text::{
    rvs_chars_eq, rvs_chars_of, rvs_contains_text, rvs_join_parts, rvs_push_all, rvs_string_of,
    spec_contains_text, spec_join,
};

verus! {

/// An error-handling crate whose import is banned.
pub open spec fn spec_is_banned_crate(n: Seq<char>) -> bool {
    n == "anyhow"@ || n == "eyre"@ || n == "color_eyre"@
}

/// Whether importing `n` is banned.
pub fn rvs_is_banned_crate(n: &[char]) -> (r: bool)
    ensures
        r == spec_is_banned_crate(n@),
{
    rvs_chars_eq(n, rvs_chars_of("anyhow").as_slice()) || rvs_chars_eq(n, rvs_chars_of("eyre").as_slice())
        || rvs_chars_eq(n, rvs_chars_of("color_eyre").as_slice())
}

/// The segments of an import path that name a banned crate, in order.
pub open spec fn spec_banned_segments(path: Seq<Seq<char>>) -> Seq<Seq<char>>
    decreases path.len(),
{
    if path.len() == 0 {
        Seq::empty()
    } else {
        let before = spec_banned_segments(path.drop_last());
        if spec_is_banned_crate(path.last()) {
            before.push(path.last())
        } else {
            before
        }
    }
}

/// The segments of an import path that name a banned crate, each reported
/// once per occurrence.
pub fn rvs_banned_segments(path: &Vec<Vec<char>>) -> (r: Vec<Vec<char>>)
    ensures
        r@.map_values(|v: Vec<char>| v@) == spec_banned_segments(path@.map_values(|v: Vec<char>| v@)),
{
    let ghost ps = path@.map_values(|v: Vec<char>| v@);
    let mut r: Vec<Vec<char>> = Vec::new();
    let mut i: usize = 0;
    while i < path.len()
        invariant
            i <= path@.len(),
            ps == path@.map_values(|v: Vec<char>| v@),
            r@.map_values(|v: Vec<char>| v@) == spec_banned_segments(ps.subrange(0, i as int)),
        decreases path@.len() - i,
    {
        let ghost before = r@;
        assert(ps.subrange(0, i + 1).drop_last() =~= ps.subrange(0, i as int));
        if rvs_is_banned_crate(path[i].as_slice()) {
            let mut seg: Vec<char> = Vec::new();
            rvs_push_all(&mut seg, path[i].as_slice());
            r.push(seg);
            assert(r@.map_values(|v: Vec<char>| v@) =~= before.map_values(|v: Vec<char>| v@).push(ps[i as int]));
        }
        i = i + 1;
    }
    assert(ps.subrange(0, path@.len() as int) =~= ps);
    r
}

/// The message for a banned import of `n`.
pub fn rvs_banned_import_message(n: &[char]) -> (r: String)
    ensures
        r@ == "banned import: "@ + n@,
{
    let mut out = rvs_chars_of("banned import: ");
    rvs_push_all(&mut out, n);
    rvs_string_of(out.as_slice())
}

/// The message for a glob import of `path`, when the rule flags it: a glob
/// of a prelude or of the parent module is fine.
pub open spec fn spec_wildcard_message(path: Seq<Seq<char>>, is_glob: bool) -> Option<Seq<char>> {
    if !is_glob {
        None
    } else if path.len() > 0 && path.last() == "prelude"@ {
        None
    } else if path.len() == 1 && path[0] == "super"@ {
        None
    } else {
        Some("wildcard import: "@ + spec_join(path, "::"@) + "::*"@)
    }
}

/// The message for an import of `path`, when it is a flagged glob import.
pub fn rvs_wildcard_message(path: &Vec<Vec<char>>, is_glob: bool) -> (r: Option<String>)
    ensures
        r matches Some(m) ==> spec_wildcard_message(path@.map_values(|v: Vec<char>| v@), is_glob) == Some(m@),
        r is None ==> spec_wildcard_message(path@.map_values(|v: Vec<char>| v@), is_glob) is None,
{
    let ghost ps = path@.map_values(|v: Vec<char>| v@);
    if !is_glob {
        return None;
    }
    let n = path.len();
    if n > 0 && rvs_chars_eq(path[n - 1].as_slice(), rvs_chars_of("prelude").as_slice()) {
        assert(ps.last() == path@[n - 1]@);
        return None;
    }
    if n == 1 && rvs_chars_eq(path[0].as_slice(), rvs_chars_of("super").as_slice()) {
        assert(ps[0] == path@[0]@);
        return None;
    }
    proof {
        if n > 0 {
            assert(ps.last() == path@[n - 1]@);
        }
        if n == 1 {
            assert(ps[0] == path@[0]@);
        }
    }
    let sep = rvs_chars_of("::");
    let joined = rvs_join_parts(path, sep.as_slice());
    let mut out = rvs_chars_of("wildcard import: ");
    rvs_push_all(&mut out, joined.as_slice());
    let tail = rvs_chars_of("::*");
    rvs_push_all(&mut out, tail.as_slice());
    Some(rvs_string_of(out.as_slice()))
}

/// A variant name that catches every other error.
pub open spec fn spec_is_catch_all(v: Seq<char>) -> bool {
    v == "Unknown"@ || v == "Other"@ || v == "UnknownError"@ || v == "OtherError"@
}

/// Whether `v` is a catch-all variant name.
pub fn rvs_is_catch_all(v: &[char]) -> (r: bool)
    ensures
        r == spec_is_catch_all(v@),
{
    rvs_chars_eq(v, rvs_chars_of("Unknown").as_slice()) || rvs_chars_eq(v, rvs_chars_of("Other").as_slice())
        || rvs_chars_eq(v, rvs_chars_of("UnknownError").as_slice())
        || rvs_chars_eq(v, rvs_chars_of("OtherError").as_slice())
}

/// The catch-all variants of `variants`, in order.
pub open spec fn spec_catch_all_of(variants: Seq<Seq<char>>) -> Seq<Seq<char>>
    decreases variants.len(),
{
    if variants.len() == 0 {
        Seq::empty()
    } else {
        let before = spec_catch_all_of(variants.drop_last());
        if spec_is_catch_all(variants.last()) {
            before.push(variants.last())
        } else {
            before
        }
    }
}

/// The flagged variants of an enum: its catch-all variants when it is an
/// error enum (its name holds `Error`, or it carries an `error` attribute),
/// else none.
pub open spec fn spec_flagged_variants(enum_name: Seq<char>, has_error_attr: bool, variants: Seq<Seq<char>>) -> Seq<Seq<char>> {
    if spec_contains_text(enum_name, "Error"@) || has_error_attr {
        spec_catch_all_of(variants)
    } else {
        Seq::empty()
    }
}

/// The catch-all variants that the rule flags in an enum.
pub fn rvs_flagged_variants(enum_name: &[char], has_error_attr: bool, variants: &Vec<Vec<char>>) -> (r: Vec<Vec<char>>)
    ensures
        r@.map_values(|v: Vec<char>| v@) == spec_flagged_variants(enum_name@, has_error_attr, variants@.map_values(|v: Vec<char>| v@)),
{
    let ghost vs = variants@.map_values(|v: Vec<char>| v@);
    let mut r: Vec<Vec<char>> = Vec::new();
    let error_marker = rvs_chars_of("Error");
    if !rvs_contains_text(enum_name, error_marker.as_slice()) && !has_error_attr {
        assert(r@.map_values(|v: Vec<char>| v@) =~= Seq::<Seq<char>>::empty());
        return r;
    }
    let mut i: usize = 0;
    while i < variants.len()
        invariant
            i <= variants@.len(),
            vs == variants@.map_values(|v: Vec<char>| v@),
            r@.map_values(|v: Vec<char>| v@) == spec_catch_all_of(vs.subrange(0, i as int)),
        decreases variants@.len() - i,
    {
        let ghost before = r@;
        assert(vs.subrange(0, i + 1).drop_last() =~= vs.subrange(0, i as int));
        if rvs_is_catch_all(variants[i].as_slice()) {
            let mut name: Vec<char> = Vec::new();
            rvs_push_all(&mut name, variants[i].as_slice());
            r.push(name);
            assert(r@.map_values(|v: Vec<char>| v@) =~= before.map_values(|v: Vec<char>| v@).push(vs[i as int]));
        }
        i = i + 1;
    }
    assert(vs.subrange(0, variants@.len() as int) =~= vs);
    r
}

/// The message for a catch-all variant `v` of the enum `enum_name`.
pub fn rvs_catch_all_message(v: &[char], enum_name: &[char]) -> (r: String)
    ensures
        r@ == "catch-all variant '"@ + v@ + "' in "@ + enum_name@,
{
    let mut out = rvs_chars_of("catch-all variant '");
    rvs_push_all(&mut out, v);
    let mid = rvs_chars_of("' in ");
    rvs_push_all(&mut out, mid.as_slice());
    rvs_push_all(&mut out, enum_name);
    rvs_string_of(out.as_slice())
}

/// The discouraged trait impls and their messages.
pub open spec fn spec_trait_impl_message(trait_name: Seq<char>) -> Option<Seq<char>> {
    if trait_name == "Into"@ {
        Some("impl Into \u{2014} implement From instead (Into is auto-provided)"@)
    } else if trait_name == "Deref"@ {
        Some("impl Deref \u{2014} use composition instead of Deref polymorphism"@)
    } else {
        None
    }
}

/// The message for an impl of the trait `trait_name`, when the rules
/// discourage it.
pub fn rvs_trait_impl_message(trait_name: &[char]) -> (r: Option<String>)
    ensures
        r matches Some(m) ==> spec_trait_impl_message(trait_name@) == Some(m@),
        r is None ==> spec_trait_impl_message(trait_name@) is None,
{
    if rvs_chars_eq(trait_name, rvs_chars_of("Into").as_slice()) {
        return Some(rvs_string_of(rvs_chars_of("impl Into \u{2014} implement From instead (Into is auto-provided)").as_slice()));
    }
    if rvs_chars_eq(trait_name, rvs_chars_of("Deref").as_slice()) {
        return Some(rvs_string_of(rvs_chars_of("impl Deref \u{2014} use composition instead of Deref polymorphism").as_slice()));
    }
    None
}

} // verus!
