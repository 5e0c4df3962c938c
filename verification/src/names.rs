//! Function names and the capability suffixes they declare.
//!
//! A checked function is named `rvs_<base>_<SUFFIX>`, where the suffix lists
//! the capability letters it declares (`rvs_read_config_BI`).  A name without
//! an upper-case suffix declares no capability.
use vstd::prelude::*;

use crate::capability::{
    Capability, CapabilitySet, lemma_set_ext, spec_capability_of, spec_empty, spec_letter, spec_letters,
    spec_set_of,
};
use crate::text::{
    lemma_last_index_of, rvs_last_index_of, rvs_push_all, rvs_slice_chars, rvs_starts_with,
    spec_is_upper, spec_last_index_of, spec_starts_with,
};

verus! {

/// The prefix of checked functions.
pub open spec fn spec_rvs_prefix() -> Seq<char> {
    seq!['r', 'v', 's', '_']
}

/// All characters are ASCII upper-case letters.
pub open spec fn spec_all_upper(s: Seq<char>) -> bool {
    forall|j: int| 0 <= j < s.len() ==> spec_is_upper(#[trigger] s[j])
}

/// Splits `s` at its last `_` when what follows is a non-empty run of
/// upper-case letters: `(base, suffix)`.  Otherwise `(s, "")`.
pub open spec fn spec_split_suffix(s: Seq<char>) -> (Seq<char>, Seq<char>) {
    match spec_last_index_of(s, '_') {
        Some(k) => {
            let suffix = s.subrange(k + 1, s.len() as int);
            if suffix.len() > 0 && spec_all_upper(suffix) {
                (s.subrange(0, k), suffix)
            } else {
                (s, Seq::empty())
            }
        },
        None => (s, Seq::empty()),
    }
}

/// The upper-case suffix of a name (empty when there is none).
pub open spec fn spec_raw_suffix(name: Seq<char>) -> Seq<char> {
    spec_split_suffix(name).1
}

/// The capabilities whose letters occur in `s`.
pub open spec fn spec_caps_of_letters(s: Seq<char>, x: CapabilitySet) -> bool {
    forall|c: Capability| #[trigger] x.has(c) <==> s.contains(spec_letter(c))
}

/// Some character of `s` is not a capability letter.
pub open spec fn spec_has_unknown_letter(s: Seq<char>) -> bool {
    exists|j: int| 0 <= j < s.len() && spec_capability_of(#[trigger] s[j]) is None
}

/// Parses a checked function name `rvs_<base>[_<SUFFIX>]` into its base and
/// the capabilities its suffix names (unknown letters are ignored).
pub open spec fn spec_parse_function_ok(name: Seq<char>, r: Option<(Seq<char>, CapabilitySet)>) -> bool {
    if spec_starts_with(name, spec_rvs_prefix()) {
        let rest = name.subrange(4, name.len() as int);
        let (base, suffix) = spec_split_suffix(rest);
        match r {
            Some(p) => p.0 == base && spec_caps_of_letters(suffix, p.1),
            None => false,
        }
    } else {
        r is None
    }
}

/// Splits off the upper-case suffix of `s`.
pub fn rvs_split_suffix(s: &[char]) -> (r: (Vec<char>, Vec<char>))
    ensures
        r.0@ == spec_split_suffix(s@).0,
        r.1@ == spec_split_suffix(s@).1,
{
    proof {
        lemma_last_index_of(s@, '_');
    }
    match rvs_last_index_of(s, '_') {
        Some(k) => {
            assert(spec_last_index_of(s@, '_') == Some(k as int));
            assert(k < s@.len());
            assert(k < s.len());
            let suffix = rvs_slice_chars(s, k + 1, s.len());
            let mut all_upper = suffix.len() > 0;
            let mut j: usize = 0;
            while j < suffix.len()
                invariant
                    j <= suffix@.len(),
                    all_upper == (suffix@.len() > 0 && forall|q: int| 0 <= q < j ==> spec_is_upper(#[trigger] suffix@[q])),
                decreases suffix.len() - j,
            {
                let c = suffix[j];
                if !('A' <= c && c <= 'Z') {
                    all_upper = false;
                }
                j = j + 1;
            }
            if all_upper {
                (rvs_slice_chars(s, 0, k), suffix)
            } else {
                (rvs_slice_chars(s, 0, s.len()), Vec::new())
            }
        },
        None => (rvs_slice_chars(s, 0, s.len()), Vec::new()),
    }
}

/// Reads the capability letters of `s`, ignoring other characters.
pub fn rvs_caps_of_letters(s: &[char]) -> (r: CapabilitySet)
    ensures
        spec_caps_of_letters(s@, r),
{
    let mut x = CapabilitySet::rvs_new();
    let mut i: usize = 0;
    while i < s.len()
        invariant
            i <= s@.len(),
            spec_caps_of_letters(s@.subrange(0, i as int), x),
        decreases s.len() - i,
    {
        let ghost old_x = x;
        let ghost ch = s@[i as int];
        match Capability::rvs_from_char(s[i]) {
            Some(cap) => {
                x.rvs_insert_M(cap);
            },
            None => {},
        }
        proof {
            let pre = s@.subrange(0, i as int);
            let post = s@.subrange(0, i + 1);
            assert(post =~= pre.push(ch));
            assert forall|c: Capability| #[trigger] x.has(c) <==> post.contains(spec_letter(c)) by {
                if pre.contains(spec_letter(c)) {
                    let k = choose|k: int| 0 <= k < pre.len() && pre[k] == spec_letter(c);
                    assert(post[k] == spec_letter(c));
                }
                if spec_letter(c) == ch {
                    assert(post[i as int] == ch);
                    assert(spec_capability_of(ch) == Some(c));
                    assert(x.has(c));
                }
                if x.has(c) && !old_x.has(c) {
                    assert(spec_capability_of(ch) == Some(c));
                    assert(spec_letter(c) == ch);
                    assert(post[i as int] == ch);
                }
                if post.contains(spec_letter(c)) {
                    let k = choose|k: int| 0 <= k < post.len() && post[k] == spec_letter(c);
                    if k < i {
                        assert(pre[k] == spec_letter(c));
                    }
                }
            }
        }
        i = i + 1;
    }
    assert(s@.subrange(0, s@.len() as int) =~= s@);
    x
}

/// Whether some character of `s` is not a capability letter.
pub fn rvs_has_unknown_letter(s: &[char]) -> (r: bool)
    ensures
        r == spec_has_unknown_letter(s@),
{
    let mut i: usize = 0;
    while i < s.len()
        invariant
            i <= s@.len(),
            forall|j: int| 0 <= j < i ==> spec_capability_of(#[trigger] s@[j]) is Some,
        decreases s.len() - i,
    {
        if Capability::rvs_from_char(s[i]).is_none() {
            return true;
        }
        i = i + 1;
    }
    false
}

/// The upper-case suffix of a name.
pub fn rvs_extract_raw_suffix(name: &[char]) -> (r: Vec<char>)
    ensures
        r@ == spec_raw_suffix(name@),
{
    let (_, suffix) = rvs_split_suffix(name);
    suffix
}

fn rvs_prefix_chars() -> (r: Vec<char>)
    ensures
        r@ == spec_rvs_prefix(),
{
    let mut r: Vec<char> = Vec::new();
    r.push('r');
    r.push('v');
    r.push('s');
    r.push('_');
    assert(r@ =~= spec_rvs_prefix());
    r
}

/// The capabilities the suffix of a checked name names (unknown letters
/// ignored); `None` for a name without the `rvs_` prefix.
pub open spec fn spec_parsed_caps(name: Seq<char>) -> Option<CapabilitySet> {
    if spec_starts_with(name, spec_rvs_prefix()) {
        let suffix = spec_split_suffix(name.subrange(4, name.len() as int)).1;
        Some(spec_set_of(|c: Capability| suffix.contains(spec_letter(c))))
    } else {
        None
    }
}

/// Parses a checked function name into its base and declared capabilities.
pub fn rvs_parse_function(name: &[char]) -> (r: Option<(Vec<char>, CapabilitySet)>)
    ensures
        spec_parse_function_ok(name@, match r {
            Some(p) => Some((p.0@, p.1)),
            None => None,
        }),
        match r {
            Some(p) => spec_parsed_caps(name@) == Some(p.1),
            None => spec_parsed_caps(name@) is None,
        },
{
    let prefix = rvs_prefix_chars();
    if !rvs_starts_with(name, prefix.as_slice()) {
        return None;
    }
    let rest = rvs_slice_chars(name, 4, name.len());
    let (base, suffix) = rvs_split_suffix(rest.as_slice());
    let caps = rvs_caps_of_letters(suffix.as_slice());
    proof {
        let d = spec_set_of(|c: Capability| suffix@.contains(spec_letter(c)));
        assert forall|c: Capability| #[trigger] caps.has(c) == d.has(c) by {}
        lemma_set_ext(caps, d);
    }
    Some((base, caps))
}

/// The capabilities a name declares: `None` when it is not a checked name, or
/// when its suffix has only letters that name no capability.
pub open spec fn spec_declared_caps_ok(name: Seq<char>, r: Option<CapabilitySet>) -> bool {
    if spec_starts_with(name, spec_rvs_prefix()) {
        let suffix = spec_split_suffix(name.subrange(4, name.len() as int)).1;
        if spec_has_unknown_letter(suffix) && !(exists|j: int| 0 <= j < suffix.len() && spec_capability_of(#[trigger] suffix[j]) is Some) {
            r is None
        } else {
            &&& r is Some
            &&& spec_caps_of_letters(suffix, r->0)
        }
    } else {
        r is None
    }
}

/// The capabilities a name declares, as a value.
pub open spec fn spec_declared_caps(name: Seq<char>) -> Option<CapabilitySet> {
    if spec_starts_with(name, spec_rvs_prefix()) {
        let suffix = spec_split_suffix(name.subrange(4, name.len() as int)).1;
        if spec_has_unknown_letter(suffix) && !(exists|j: int| 0 <= j < suffix.len() && spec_capability_of(#[trigger] suffix[j]) is Some) {
            None
        } else {
            Some(spec_set_of(|c: Capability| suffix.contains(spec_letter(c))))
        }
    } else {
        None
    }
}

/// The capabilities a function name declares.
pub fn rvs_declared_caps_of_name(name: &[char]) -> (r: Option<CapabilitySet>)
    ensures
        spec_declared_caps_ok(name@, r),
        r == spec_declared_caps(name@),
{
    let prefix = rvs_prefix_chars();
    if !rvs_starts_with(name, prefix.as_slice()) {
        return None;
    }
    let rest = rvs_slice_chars(name, 4, name.len());
    let (_, suffix) = rvs_split_suffix(rest.as_slice());
    let caps = rvs_caps_of_letters(suffix.as_slice());
    let unknown = rvs_has_unknown_letter(suffix.as_slice());
    let empty = caps.rvs_is_empty();
    proof {
        if empty {
            assert forall|j: int| 0 <= j < suffix@.len() implies spec_capability_of(#[trigger] suffix@[j]) is None by {
                if let Some(c) = spec_capability_of(suffix@[j]) {
                    assert(spec_letter(c) == suffix@[j]);
                    assert(suffix@.contains(spec_letter(c)));
                    assert(caps.has(c));
                }
            }
        } else {
            let c = choose|c: Capability| caps.has(c);
            assert(caps.has(c));
            assert(suffix@.contains(spec_letter(c)));
            let k = choose|k: int| 0 <= k < suffix@.len() && suffix@[k] == spec_letter(c);
            assert(spec_capability_of(suffix@[k]) is Some);
        }
    }
    if unknown && empty {
        None
    } else {
        proof {
            let d = spec_set_of(|c: Capability| suffix@.contains(spec_letter(c)));
            assert forall|c: Capability| #[trigger] caps.has(c) == d.has(c) by {}
            lemma_set_ext(caps, d);
        }
        Some(caps)
    }
}

/// The base of a name when its contract is rewritten: the base of a checked
/// name; the part before an all-capability-letter suffix of another name when
/// capabilities are expected; the whole name otherwise.
pub open spec fn spec_contract_base_name(name: Seq<char>, expected_caps: Seq<char>) -> Seq<char> {
    if spec_starts_with(name, spec_rvs_prefix()) {
        spec_split_suffix(name.subrange(4, name.len() as int)).0
    } else {
        match spec_last_index_of(name, '_') {
            Some(k) => {
                let suffix = name.subrange(k + 1, name.len() as int);
                if suffix.len() > 0 && expected_caps.len() > 0 && spec_all_upper(suffix)
                    && !spec_has_unknown_letter(suffix) {
                    name.subrange(0, k)
                } else {
                    name
                }
            },
            None => name,
        }
    }
}

/// The base of a name for its expected contract name.
pub fn rvs_contract_base_name(name: &[char], expected_caps: &[char]) -> (r: Vec<char>)
    ensures
        r@ == spec_contract_base_name(name@, expected_caps@),
{
    if let Some((base, _)) = rvs_parse_function(name) {
        return base;
    }
    proof {
        lemma_last_index_of(name@, '_');
    }
    match rvs_last_index_of(name, '_') {
        Some(k) => {
            assert(spec_last_index_of(name@, '_') == Some(k as int));
            assert(k < name@.len());
            assert(k < name.len());
            let suffix = rvs_slice_chars(name, k + 1, name.len());
            let mut ok = suffix.len() > 0 && expected_caps.len() > 0;
            let mut j: usize = 0;
            while j < suffix.len()
                invariant
                    j <= suffix@.len(),
                    ok == (suffix@.len() > 0 && expected_caps@.len() > 0 && forall|q: int| 0 <= q < j ==> spec_is_upper(#[trigger] suffix@[q]) && spec_capability_of(suffix@[q]) is Some),
                decreases suffix.len() - j,
            {
                let c = suffix[j];
                if !('A' <= c && c <= 'Z') || Capability::rvs_from_char(c).is_none() {
                    ok = false;
                }
                j = j + 1;
            }
            if ok {
                rvs_slice_chars(name, 0, k)
            } else {
                rvs_slice_chars(name, 0, name.len())
            }
        },
        None => rvs_slice_chars(name, 0, name.len()),
    }
}

/// The name a function should carry: `rvs_<base>` followed by `_<LETTERS>`
/// when it has capabilities.
pub open spec fn spec_expected_contract_name(name: Seq<char>, caps: CapabilitySet) -> Seq<char> {
    let letters = spec_letters(caps);
    let base = spec_contract_base_name(name, letters);
    if letters.len() == 0 {
        spec_rvs_prefix() + base
    } else {
        spec_rvs_prefix() + base + seq!['_'] + letters
    }
}

/// The name a function with `caps` should carry.
pub fn rvs_expected_contract_name(name: &[char], caps: &CapabilitySet) -> (r: Vec<char>)
    ensures
        r@ == spec_expected_contract_name(name@, *caps),
{
    let letters = caps.rvs_letter_chars();
    let base = rvs_contract_base_name(name, letters.as_slice());
    let mut r = rvs_prefix_chars();
    rvs_push_all(&mut r, base.as_slice());
    if letters.len() > 0 {
        r.push('_');
        rvs_push_all(&mut r, letters.as_slice());
    }
    r
}

} // verus!
