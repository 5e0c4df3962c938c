//! The checks a function's capability suffix gets against its signature
//! and attributes: the suffix needs `#[allow(non_snake_case)]`, an `rvs_`
//! function may not allow dead code, `async`, `unsafe` and `&mut`
//! parameters need `A`, `U` and `M`, and the suffix letters must be in
//! alphabetical order, without repeats, and all capability letters.
use vstd::prelude::*;

use crate::capability::{Capability, CapabilitySet, spec_capability_of};
use crate::text::{rvs_chars_of, rvs_push_all, rvs_string_of};

verus! {

/// What a suffix check reports.
#[derive(Debug, Clone, Copy, PartialEq, Eq, Structural)]
pub enum SuffixFindingKind {
    /// An upper-case suffix without `#[allow(non_snake_case)]`.
    MissingAllow,
    /// An `rvs_` function marked `#[allow(dead_code)]` or `#[allow(unused)]`.
    DeadCodeAllowed,
    /// An `async` function whose suffix lacks `A`.
    MissingAsync,
    /// An `unsafe` function whose suffix lacks `U`.
    MissingUnsafe,
    /// A `&mut` parameter while the suffix lacks `M`.
    MissingMutable,
    /// Suffix letters out of alphabetical order.
    NotAlphabetical,
    /// A repeated suffix letter (the first one repeated).
    Duplicate,
    /// Suffix letters that name no capability.
    UnknownLetters,
}

/// A finding: its kind and the letters it names (the repeated letter, or
/// the unknown letters; none otherwise).
#[derive(Debug, Clone)]
pub struct SuffixFinding {
    pub kind: SuffixFindingKind,
    pub letters: Vec<char>,
}

/// A finding as a plain value.
pub open spec fn spec_finding_view(f: SuffixFinding) -> (SuffixFindingKind, Seq<char>) {
    (f.kind, f.letters@)
}

/// The letters are in alphabetical order.
pub open spec fn spec_sorted(s: Seq<char>) -> bool {
    forall|i: int, j: int| 0 <= i < j < s.len() ==> s[i] <= s[j]
}

/// The first letter, scanning from the left, that already appeared.
pub open spec fn spec_first_repeat(s: Seq<char>) -> Option<char>
    decreases s.len(),
{
    if s.len() == 0 {
        None
    } else {
        match spec_first_repeat(s.drop_last()) {
            Some(c) => Some(c),
            None => if s.drop_last().contains(s.last()) { Some(s.last()) } else { None },
        }
    }
}

/// The letters that name no capability, each once, in the order they first
/// appear.
pub open spec fn spec_unknown_letters(s: Seq<char>) -> Seq<char>
    decreases s.len(),
{
    if s.len() == 0 {
        Seq::empty()
    } else {
        let before = spec_unknown_letters(s.drop_last());
        if spec_capability_of(s.last()) is None && !before.contains(s.last()) {
            before.push(s.last())
        } else {
            before
        }
    }
}

/// One finding of a kind, with no letters.
pub open spec fn spec_one(kind: SuffixFindingKind, cond: bool) -> Seq<(SuffixFindingKind, Seq<char>)> {
    if cond { seq![(kind, Seq::<char>::empty())] } else { Seq::empty() }
}

/// The findings, in the order they are reported.
pub open spec fn spec_suffix_findings(
    raw: Seq<char>,
    caps: CapabilitySet,
    is_async: bool,
    is_unsafe: bool,
    has_mut_param: bool,
    allows_non_snake_case: bool,
    allows_dead_code: bool,
) -> Seq<(SuffixFindingKind, Seq<char>)> {
    spec_one(SuffixFindingKind::MissingAllow, raw.len() > 0 && !allows_non_snake_case)
        + spec_one(SuffixFindingKind::DeadCodeAllowed, allows_dead_code)
        + spec_one(SuffixFindingKind::MissingAsync, is_async && !caps.a)
        + spec_one(SuffixFindingKind::MissingUnsafe, is_unsafe && !caps.u)
        + spec_one(SuffixFindingKind::MissingMutable, has_mut_param && !caps.m)
        + spec_one(SuffixFindingKind::NotAlphabetical, raw.len() > 0 && !spec_sorted(raw))
        + match spec_first_repeat(raw) {
            Some(c) => seq![(SuffixFindingKind::Duplicate, seq![c])],
            None => Seq::empty(),
        }
        + if spec_unknown_letters(raw).len() > 0 {
            seq![(SuffixFindingKind::UnknownLetters, spec_unknown_letters(raw))]
        } else {
            Seq::empty()
        }
}

fn rvs_is_sorted(s: &[char]) -> (r: bool)
    ensures
        r == spec_sorted(s@),
{
    let mut i: usize = 1;
    if s.len() == 0 {
        return true;
    }
    while i < s.len()
        invariant
            1 <= i <= s@.len(),
            forall|a: int, b: int| 0 <= a < b < i ==> s@[a] <= s@[b],
        decreases s@.len() - i,
    {
        if s[i - 1] > s[i] {
            return false;
        }
        i = i + 1;
    }
    true
}

fn rvs_contains_char(s: &[char], n: usize, c: char) -> (r: bool)
    requires
        n <= s@.len(),
    ensures
        r == s@.subrange(0, n as int).contains(c),
{
    let mut i: usize = 0;
    while i < n
        invariant
            i <= n <= s@.len(),
            forall|j: int| 0 <= j < i ==> s@[j] != c,
        decreases n - i,
    {
        if s[i] == c {
            assert(s@.subrange(0, n as int)[i as int] == c);
            return true;
        }
        i = i + 1;
    }
    false
}

fn rvs_first_repeat(s: &[char]) -> (r: Option<char>)
    ensures
        r == spec_first_repeat(s@),
{
    let mut i: usize = 0;
    proof {
        assert(s@.subrange(0, 0) =~= Seq::<char>::empty());
    }
    while i < s.len()
        invariant
            i <= s@.len(),
            spec_first_repeat(s@.subrange(0, i as int)) is None,
        decreases s@.len() - i,
    {
        let seen = rvs_contains_char(s, i, s[i]);
        proof {
            assert(s@.subrange(0, i + 1).drop_last() =~= s@.subrange(0, i as int));
        }
        if seen {
            proof {
                lemma_first_repeat_extends(s@, i as int + 1);
            }
            return Some(s[i]);
        }
        i = i + 1;
    }
    proof {
        assert(s@.subrange(0, s@.len() as int) =~= s@);
    }
    None
}

proof fn lemma_first_repeat_extends(s: Seq<char>, n: int)
    requires
        0 < n <= s.len(),
        spec_first_repeat(s.subrange(0, n)) is Some,
    ensures
        spec_first_repeat(s) == spec_first_repeat(s.subrange(0, n)),
    decreases s.len() - n,
{
    if n < s.len() {
        assert(s.subrange(0, n + 1).drop_last() =~= s.subrange(0, n));
        lemma_first_repeat_extends(s, n + 1);
    } else {
        assert(s.subrange(0, n) =~= s);
    }
}

fn rvs_unknown_letters(s: &[char]) -> (r: Vec<char>)
    ensures
        r@ == spec_unknown_letters(s@),
{
    let mut out: Vec<char> = Vec::new();
    let mut i: usize = 0;
    proof {
        assert(s@.subrange(0, 0) =~= Seq::<char>::empty());
    }
    while i < s.len()
        invariant
            i <= s@.len(),
            out@ == spec_unknown_letters(s@.subrange(0, i as int)),
        decreases s@.len() - i,
    {
        let c = s[i];
        proof {
            assert(s@.subrange(0, i + 1).drop_last() =~= s@.subrange(0, i as int));
            assert(s@.subrange(0, i + 1).last() == c);
        }
        if Capability::rvs_from_char(c).is_none() {
            let n = out.len();
            if !rvs_contains_char(out.as_slice(), n, c) {
                proof {
                    assert(out@.subrange(0, n as int) =~= out@);
                }
                out.push(c);
            } else {
                proof {
                    assert(out@.subrange(0, n as int) =~= out@);
                }
            }
        }
        i = i + 1;
    }
    proof {
        assert(s@.subrange(0, s@.len() as int) =~= s@);
    }
    out
}

fn rvs_push_one(r: &mut Vec<SuffixFinding>, kind: SuffixFindingKind, cond: bool)
    ensures
        final(r)@.map_values(|f: SuffixFinding| spec_finding_view(f))
            == old(r)@.map_values(|f: SuffixFinding| spec_finding_view(f)) + spec_one(kind, cond),
{
    let ghost before = r@.map_values(|f: SuffixFinding| spec_finding_view(f));
    if cond {
        r.push(SuffixFinding { kind, letters: Vec::new() });
        assert(r@.map_values(|f: SuffixFinding| spec_finding_view(f)) =~= before + spec_one(kind, cond));
    } else {
        assert(before + spec_one(kind, cond) =~= before);
    }
}

/// The suffix checks of a function, in the order they are reported: the
/// suffix `raw`, the capabilities it names, whether the function is
/// `async`, `unsafe` or takes a `&mut` parameter, and whether it allows
/// `non_snake_case` and dead code.
pub fn rvs_suffix_findings(
    raw: &[char],
    caps: CapabilitySet,
    is_async: bool,
    is_unsafe: bool,
    has_mut_param: bool,
    allows_non_snake_case: bool,
    allows_dead_code: bool,
) -> (r: Vec<SuffixFinding>)
    ensures
        r@.map_values(|f: SuffixFinding| spec_finding_view(f))
            == spec_suffix_findings(raw@, caps, is_async, is_unsafe, has_mut_param, allows_non_snake_case, allows_dead_code),
{
    let mut r: Vec<SuffixFinding> = Vec::new();
    proof {
        assert(r@.map_values(|f: SuffixFinding| spec_finding_view(f)) =~= Seq::<(SuffixFindingKind, Seq<char>)>::empty());
    }
    rvs_push_one(&mut r, SuffixFindingKind::MissingAllow, raw.len() > 0 && !allows_non_snake_case);
    rvs_push_one(&mut r, SuffixFindingKind::DeadCodeAllowed, allows_dead_code);
    rvs_push_one(&mut r, SuffixFindingKind::MissingAsync, is_async && !caps.a);
    rvs_push_one(&mut r, SuffixFindingKind::MissingUnsafe, is_unsafe && !caps.u);
    rvs_push_one(&mut r, SuffixFindingKind::MissingMutable, has_mut_param && !caps.m);
    let sorted = rvs_is_sorted(raw);
    rvs_push_one(&mut r, SuffixFindingKind::NotAlphabetical, raw.len() > 0 && !sorted);
    let ghost before = r@.map_values(|f: SuffixFinding| spec_finding_view(f));
    match rvs_first_repeat(raw) {
        Some(c) => {
            let mut letters: Vec<char> = Vec::new();
            letters.push(c);
            r.push(SuffixFinding { kind: SuffixFindingKind::Duplicate, letters });
            assert(r@.map_values(|f: SuffixFinding| spec_finding_view(f)) =~= before + seq![(SuffixFindingKind::Duplicate, seq![c])]);
        },
        None => {
            assert(before + Seq::<(SuffixFindingKind, Seq<char>)>::empty() =~= before);
        },
    }
    let ghost mid = r@.map_values(|f: SuffixFinding| spec_finding_view(f));
    let unknown = rvs_unknown_letters(raw);
    if unknown.len() > 0 {
        let ghost u = unknown@;
        r.push(SuffixFinding { kind: SuffixFindingKind::UnknownLetters, letters: unknown });
        assert(r@.map_values(|f: SuffixFinding| spec_finding_view(f)) =~= mid + seq![(SuffixFindingKind::UnknownLetters, u)]);
    } else {
        assert(mid + Seq::<(SuffixFindingKind, Seq<char>)>::empty() =~= mid);
    }
    r
}

/// The letters joined by `", "`.
pub open spec fn spec_comma_joined(s: Seq<char>) -> Seq<char>
    decreases s.len(),
{
    if s.len() == 0 {
        Seq::empty()
    } else if s.len() == 1 {
        seq![s[0]]
    } else {
        spec_comma_joined(s.drop_last()) + seq![',', ' ', s.last()]
    }
}

/// The message of a finding.
pub open spec fn spec_finding_message(kind: SuffixFindingKind, letters: Seq<char>) -> Seq<char> {
    match kind {
        SuffixFindingKind::MissingAllow => "uppercase suffix without #[allow(non_snake_case)]"@,
        SuffixFindingKind::DeadCodeAllowed => "rvs_ function marked #[allow(dead_code/unused)]"@,
        SuffixFindingKind::MissingAsync => "async but suffix lacks A"@,
        SuffixFindingKind::MissingUnsafe => "unsafe code but suffix lacks U"@,
        SuffixFindingKind::MissingMutable => "&mut param but suffix lacks M"@,
        SuffixFindingKind::NotAlphabetical => "suffix not alphabetical"@,
        SuffixFindingKind::Duplicate => "duplicate '"@ + letters + "'"@,
        SuffixFindingKind::UnknownLetters => "unknown letters: "@ + spec_comma_joined(letters),
    }
}

impl SuffixFinding {
    /// The message reported for the finding.
    pub fn rvs_message(&self) -> (r: String)
        ensures
            r@ == spec_finding_message(self.kind, self.letters@),
    {
        match self.kind {
            SuffixFindingKind::MissingAllow => rvs_string_of(rvs_chars_of("uppercase suffix without #[allow(non_snake_case)]").as_slice()),
            SuffixFindingKind::DeadCodeAllowed => rvs_string_of(rvs_chars_of("rvs_ function marked #[allow(dead_code/unused)]").as_slice()),
            SuffixFindingKind::MissingAsync => rvs_string_of(rvs_chars_of("async but suffix lacks A").as_slice()),
            SuffixFindingKind::MissingUnsafe => rvs_string_of(rvs_chars_of("unsafe code but suffix lacks U").as_slice()),
            SuffixFindingKind::MissingMutable => rvs_string_of(rvs_chars_of("&mut param but suffix lacks M").as_slice()),
            SuffixFindingKind::NotAlphabetical => rvs_string_of(rvs_chars_of("suffix not alphabetical").as_slice()),
            SuffixFindingKind::Duplicate => {
                let mut out = rvs_chars_of("duplicate '");
                rvs_push_all(&mut out, self.letters.as_slice());
                rvs_push_all(&mut out, rvs_chars_of("'").as_slice());
                rvs_string_of(out.as_slice())
            },
            SuffixFindingKind::UnknownLetters => {
                let mut out = rvs_chars_of("unknown letters: ");
                let ghost head = out@;
                let mut i: usize = 0;
                proof {
                    assert(self.letters@.subrange(0, 0) =~= Seq::<char>::empty());
                    assert(head + spec_comma_joined(Seq::<char>::empty()) =~= head);
                }
                while i < self.letters.len()
                    invariant
                        i <= self.letters@.len(),
                        out@ == head + spec_comma_joined(self.letters@.subrange(0, i as int)),
                    decreases self.letters@.len() - i,
                {
                    let ghost prev = out@;
                    proof {
                        assert(self.letters@.subrange(0, i + 1).drop_last() =~= self.letters@.subrange(0, i as int));
                        assert(self.letters@.subrange(0, i + 1).last() == self.letters@[i as int]);
                    }
                    if i > 0 {
                        out.push(',');
                        out.push(' ');
                    }
                    out.push(self.letters[i]);
                    proof {
                        if i == 0 {
                            assert(self.letters@.subrange(0, 1) =~= seq![self.letters@[0]]);
                            assert(out@ =~= head + spec_comma_joined(self.letters@.subrange(0, 1)));
                        } else {
                            assert(out@ =~= head + spec_comma_joined(self.letters@.subrange(0, i + 1)));
                        }
                    }
                    i = i + 1;
                }
                proof {
                    assert(self.letters@.subrange(0, self.letters@.len() as int) =~= self.letters@);
                }
                rvs_string_of(out.as_slice())
            },
        }
    }
}

} // verus!
