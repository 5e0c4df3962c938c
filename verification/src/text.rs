//! Character-sequence helpers shared by the name and path logic.
use vstd::prelude::*;

verus! {

/// Converts a string slice into its characters.
pub fn rvs_chars_of(s: &str) -> (r: Vec<char>)
    ensures
        r@ == s@,
{
    broadcast use vstd::string::axiom_spec_iter;
    let mut r: Vec<char> = Vec::new();
    for c in it: s.chars()
        invariant
            it.seq() == s@,
            r@ == it.seq().take(it.index() as int),
    {
        r.push(c);
    }
    r
}

/// Builds a `String` from characters.
///
/// Trusted: collects the characters with `String::from_iter`; the contract
/// claims that the string holds exactly these characters, in order.
#[verifier::external_body]
pub fn rvs_string_of(v: &[char]) -> (r: String)
    ensures
        r@ == v@,
{
    v.iter().collect()
}

/// Copies a vector of characters.
pub fn rvs_chars_clone(v: &Vec<char>) -> (r: Vec<char>)
    ensures
        r@ == v@,
{
    let mut r: Vec<char> = Vec::new();
    let mut i: usize = 0;
    while i < v.len()
        invariant
            i <= v.len(),
            r@ == v@.subrange(0, i as int),
        decreases v.len() - i,
    {
        r.push(v[i]);
        i = i + 1;
        assert(r@ =~= v@.subrange(0, i as int));
    }
    assert(r@ =~= v@);
    r
}

/// Whether two character sequences are equal.
pub fn rvs_chars_eq(a: &[char], b: &[char]) -> (r: bool)
    ensures
        r == (a@ == b@),
{
    if a.len() != b.len() {
        return false;
    }
    let mut i: usize = 0;
    while i < a.len()
        invariant
            a@.len() == b@.len(),
            i <= a.len(),
            forall|j: int| 0 <= j < i ==> a@[j] == b@[j],
        decreases a.len() - i,
    {
        if a[i] != b[i] {
            return false;
        }
        i = i + 1;
    }
    assert(a@ =~= b@);
    true
}

/// `pre` is a prefix of `s`.
pub open spec fn spec_starts_with(s: Seq<char>, pre: Seq<char>) -> bool {
    pre.len() <= s.len() && s.subrange(0, pre.len() as int) == pre
}

/// `suf` is a suffix of `s`.
pub open spec fn spec_ends_with(s: Seq<char>, suf: Seq<char>) -> bool {
    suf.len() <= s.len() && s.subrange(s.len() - suf.len(), s.len() as int) == suf
}

/// Whether `s` starts with `pre`.
pub fn rvs_starts_with(s: &[char], pre: &[char]) -> (r: bool)
    ensures
        r == spec_starts_with(s@, pre@),
{
    if pre.len() > s.len() {
        return false;
    }
    let mut i: usize = 0;
    while i < pre.len()
        invariant
            pre@.len() <= s@.len(),
            i <= pre.len(),
            forall|j: int| 0 <= j < i ==> s@[j] == pre@[j],
        decreases pre.len() - i,
    {
        if s[i] != pre[i] {
            assert(s@.subrange(0, pre@.len() as int)[i as int] != pre@[i as int]);
            return false;
        }
        i = i + 1;
    }
    assert(s@.subrange(0, pre@.len() as int) =~= pre@);
    true
}

/// Whether `s` ends with `suf`.
pub fn rvs_ends_with(s: &[char], suf: &[char]) -> (r: bool)
    ensures
        r == spec_ends_with(s@, suf@),
{
    if suf.len() > s.len() {
        return false;
    }
    let off = s.len() - suf.len();
    let mut i: usize = 0;
    while i < suf.len()
        invariant
            suf@.len() <= s@.len(),
            off == s@.len() - suf@.len(),
            off as int + suf@.len() == s@.len(),
            s@.len() == s.len(),
            suf@.len() == suf.len(),
            i <= suf.len(),
            forall|j: int| 0 <= j < i ==> s@[off + j] == suf@[j],
        decreases suf.len() - i,
    {
        if s[off + i] != suf[i] {
            assert(s@.subrange(off as int, s@.len() as int)[i as int] != suf@[i as int]);
            return false;
        }
        i = i + 1;
    }
    assert(s@.subrange(off as int, s@.len() as int) =~= suf@);
    true
}

/// Copies `s[from..to]`.
pub fn rvs_slice_chars(s: &[char], from: usize, to: usize) -> (r: Vec<char>)
    requires
        from <= to <= s@.len(),
    ensures
        r@ == s@.subrange(from as int, to as int),
{
    let mut r: Vec<char> = Vec::new();
    let mut i: usize = from;
    while i < to
        invariant
            from <= i <= to,
            to <= s@.len(),
            r@ == s@.subrange(from as int, i as int),
        decreases to - i,
    {
        r.push(s[i]);
        i = i + 1;
        assert(r@ =~= s@.subrange(from as int, i as int));
    }
    r
}

/// Appends `b` to `a`.
pub fn rvs_push_all(a: &mut Vec<char>, b: &[char])
    ensures
        final(a)@ == old(a)@ + b@,
{
    let ghost start = a@;
    let mut i: usize = 0;
    while i < b.len()
        invariant
            i <= b.len(),
            a@ == start + b@.subrange(0, i as int),
        decreases b.len() - i,
    {
        a.push(b[i]);
        i = i + 1;
        assert(a@ =~= start + b@.subrange(0, i as int));
    }
    assert(b@.subrange(0, b@.len() as int) =~= b@);
}

/// Index of the last occurrence of `c` in `s`, if any.
pub open spec fn spec_last_index_of(s: Seq<char>, c: char) -> Option<int>
    decreases s.len(),
{
    if s.len() == 0 {
        None
    } else if s.last() == c {
        Some(s.len() - 1)
    } else {
        spec_last_index_of(s.drop_last(), c)
    }
}

pub proof fn lemma_last_index_of(s: Seq<char>, c: char)
    ensures
        spec_last_index_of(s, c) matches Some(k) ==> {
            &&& 0 <= k < s.len()
            &&& s[k] == c
            &&& forall|j: int| k < j < s.len() ==> s[j] != c
        },
        spec_last_index_of(s, c) is None ==> forall|j: int| 0 <= j < s.len() ==> s[j] != c,
    decreases s.len(),
{
    if s.len() > 0 && s.last() != c {
        lemma_last_index_of(s.drop_last(), c);
        assert forall|j: int| 0 <= j < s.len() - 1 implies s[j] == s.drop_last()[j] by {}
    }
}

/// Finds the last occurrence of `c` in `s`.
pub fn rvs_last_index_of(s: &[char], c: char) -> (r: Option<usize>)
    ensures
        r matches Some(k) ==> spec_last_index_of(s@, c) == Some(k as int),
        r is None ==> spec_last_index_of(s@, c) is None,
{
    proof {
        lemma_last_index_of(s@, c);
    }
    let mut i: usize = s.len();
    while i > 0
        invariant
            i <= s@.len(),
            forall|j: int| i <= j < s@.len() ==> s@[j] != c,
        decreases i,
    {
        if s[i - 1] == c {
            proof {
                lemma_last_index_of(s@, c);
                if let Some(k) = spec_last_index_of(s@, c) {
                    if k < i - 1 {
                        assert(s@[i - 1] != c);
                    }
                } else {
                    assert(s@[i - 1] != c);
                }
            }
            return Some(i - 1);
        }
        i = i - 1;
    }
    proof {
        if let Some(k) = spec_last_index_of(s@, c) {
            assert(s@[k] == c);
        }
    }
    None
}

/// Index of the first occurrence of `c` in `s`, if any.
pub open spec fn spec_first_index_of(s: Seq<char>, c: char) -> Option<int>
    decreases s.len(),
{
    if s.len() == 0 {
        None
    } else if s[0] == c {
        Some(0)
    } else {
        match spec_first_index_of(s.drop_first(), c) {
            Some(k) => Some(k + 1),
            None => None,
        }
    }
}

pub proof fn lemma_first_index_of(s: Seq<char>, c: char)
    ensures
        spec_first_index_of(s, c) matches Some(k) ==> {
            &&& 0 <= k < s.len()
            &&& s[k] == c
            &&& forall|j: int| 0 <= j < k ==> s[j] != c
        },
        spec_first_index_of(s, c) is None ==> forall|j: int| 0 <= j < s.len() ==> s[j] != c,
    decreases s.len(),
{
    if s.len() > 0 && s[0] != c {
        lemma_first_index_of(s.drop_first(), c);
        assert forall|j: int| 1 <= j < s.len() implies s[j] == s.drop_first()[j - 1] by {}
    }
}

/// Finds the first occurrence of `c` in `s`.
pub fn rvs_first_index_of(s: &[char], c: char) -> (r: Option<usize>)
    ensures
        r matches Some(k) ==> spec_first_index_of(s@, c) == Some(k as int),
        r is None ==> spec_first_index_of(s@, c) is None,
{
    proof {
        lemma_first_index_of(s@, c);
    }
    let mut i: usize = 0;
    while i < s.len()
        invariant
            i <= s@.len(),
            forall|j: int| 0 <= j < i ==> s@[j] != c,
        decreases s.len() - i,
    {
        if s[i] == c {
            proof {
                lemma_first_index_of(s@, c);
                if let Some(k) = spec_first_index_of(s@, c) {
                    if k > i {
                        assert(s@[i as int] != c);
                    }
                } else {
                    assert(s@[i as int] != c);
                }
            }
            return Some(i);
        }
        i = i + 1;
    }
    proof {
        if let Some(k) = spec_first_index_of(s@, c) {
            assert(s@[k] == c);
        }
    }
    None
}

/// ASCII upper-case letter.
pub open spec fn spec_is_upper(c: char) -> bool {
    'A' <= c && c <= 'Z'
}

/// ASCII decimal digit.
pub open spec fn spec_is_digit(c: char) -> bool {
    '0' <= c && c <= '9'
}

/// ASCII letter or digit.
pub open spec fn spec_is_alnum(c: char) -> bool {
    ('A' <= c && c <= 'Z') || ('a' <= c && c <= 'z') || spec_is_digit(c)
}


/// Unicode `White_Space`, as `char::is_whitespace` documents it.
pub open spec fn spec_is_whitespace(c: char) -> bool {
    ||| c == ' '
    ||| ('\u{9}' <= c && c <= '\u{d}')
    ||| c == '\u{85}'
    ||| c == '\u{a0}'
    ||| c == '\u{1680}'
    ||| ('\u{2000}' <= c && c <= '\u{200a}')
    ||| c == '\u{2028}'
    ||| c == '\u{2029}'
    ||| c == '\u{202f}'
    ||| c == '\u{205f}'
    ||| c == '\u{3000}'
}

/// Whether `c` is white space.
pub fn rvs_is_whitespace(c: char) -> (r: bool)
    ensures
        r == spec_is_whitespace(c),
{
    c == ' ' || ('\u{9}' <= c && c <= '\u{d}') || c == '\u{85}' || c == '\u{a0}' || c == '\u{1680}'
        || ('\u{2000}' <= c && c <= '\u{200a}') || c == '\u{2028}' || c == '\u{2029}'
        || c == '\u{202f}' || c == '\u{205f}' || c == '\u{3000}'
}

/// `s` without its leading white space.
pub open spec fn spec_trim_start(s: Seq<char>) -> Seq<char>
    decreases s.len(),
{
    if s.len() > 0 && spec_is_whitespace(s[0]) {
        spec_trim_start(s.subrange(1, s.len() as int))
    } else {
        s
    }
}

/// `s` without its trailing occurrences of `c`.
pub open spec fn spec_trim_end_char(s: Seq<char>, c: char) -> Seq<char>
    decreases s.len(),
{
    if s.len() > 0 && s.last() == c {
        spec_trim_end_char(s.drop_last(), c)
    } else {
        s
    }
}

/// `s` without its trailing white space.
pub open spec fn spec_trim_end(s: Seq<char>) -> Seq<char>
    decreases s.len(),
{
    if s.len() > 0 && spec_is_whitespace(s.last()) {
        spec_trim_end(s.drop_last())
    } else {
        s
    }
}

/// `s` without leading and trailing white space.
pub open spec fn spec_trim(s: Seq<char>) -> Seq<char> {
    spec_trim_end(spec_trim_start(s))
}

/// `s` without its leading white space.
pub fn rvs_trim_start(s: &[char]) -> (r: Vec<char>)
    ensures
        r@ == spec_trim_start(s@),
{
    let mut i: usize = 0;
    assert(s@.subrange(0, s@.len() as int) =~= s@);
    while i < s.len() && rvs_is_whitespace(s[i])
        invariant
            i <= s@.len(),
            spec_trim_start(s@) == spec_trim_start(s@.subrange(i as int, s@.len() as int)),
        decreases s@.len() - i,
    {
        assert(s@.subrange(i as int, s@.len() as int).subrange(1, s@.len() - i) =~= s@.subrange(i + 1, s@.len() as int));
        i = i + 1;
    }
    rvs_slice_chars(s, i, s.len())
}

/// `s` without its trailing occurrences of `c`.
pub fn rvs_trim_end_char(s: &[char], c: char) -> (r: Vec<char>)
    ensures
        r@ == spec_trim_end_char(s@, c),
{
    let mut j: usize = s.len();
    assert(s@.subrange(0, s@.len() as int) =~= s@);
    while j > 0 && s[j - 1] == c
        invariant
            j <= s@.len(),
            spec_trim_end_char(s@, c) == spec_trim_end_char(s@.subrange(0, j as int), c),
        decreases j,
    {
        assert(s@.subrange(0, j as int).drop_last() =~= s@.subrange(0, j - 1));
        j = j - 1;
    }
    rvs_slice_chars(s, 0, j)
}

/// `s` without its trailing white space.
pub fn rvs_trim_end(s: &[char]) -> (r: Vec<char>)
    ensures
        r@ == spec_trim_end(s@),
{
    let mut j: usize = s.len();
    assert(s@.subrange(0, s@.len() as int) =~= s@);
    while j > 0 && rvs_is_whitespace(s[j - 1])
        invariant
            j <= s@.len(),
            spec_trim_end(s@) == spec_trim_end(s@.subrange(0, j as int)),
        decreases j,
    {
        assert(s@.subrange(0, j as int).drop_last() =~= s@.subrange(0, j - 1));
        j = j - 1;
    }
    rvs_slice_chars(s, 0, j)
}

/// `s` without leading and trailing white space.
pub fn rvs_trim(s: &[char]) -> (r: Vec<char>)
    ensures
        r@ == spec_trim(s@),
{
    let t = rvs_trim_start(s);
    rvs_trim_end(t.as_slice())
}

/// A line without the carriage return that ended it.
pub open spec fn spec_strip_cr(l: Seq<char>) -> Seq<char> {
    if l.len() > 0 && l.last() == '\r' {
        l.drop_last()
    } else {
        l
    }
}

/// The lines of a text, as `str::lines` yields them: split at `\n`, each
/// line without the `\r` before its `\n`, no empty line after a final `\n`.
pub open spec fn spec_lines(s: Seq<char>) -> Seq<Seq<char>>
    decreases s.len(),
{
    if s.len() == 0 {
        Seq::empty()
    } else {
        match spec_first_index_of(s, '\n') {
            Some(k) => if 0 <= k < s.len() {
                seq![spec_strip_cr(s.subrange(0, k))] + spec_lines(s.subrange(k + 1, s.len() as int))
            } else {
                Seq::empty()
            },
            None => seq![s],
        }
    }
}

/// The first index at or after `from` that holds `c`.
pub fn rvs_find_char_from(s: &[char], from: usize, c: char) -> (r: Option<usize>)
    requires
        from <= s@.len(),
    ensures
        match spec_first_index_of(s@.subrange(from as int, s@.len() as int), c) {
            Some(k) => r == Some((from + k) as usize),
            None => r is None,
        },
{
    let mut i: usize = from;
    while i < s.len()
        invariant
            from <= i <= s@.len(),
            forall|j: int| from <= j < i ==> s@[j] != c,
        decreases s@.len() - i,
    {
        if s[i] == c {
            proof {
                lemma_first_index_at(s@.subrange(from as int, s@.len() as int), c, (i - from) as int);
            }
            return Some(i);
        }
        i = i + 1;
    }
    proof {
        lemma_first_index_none(s@.subrange(from as int, s@.len() as int), c);
    }
    None
}

/// The first index of `c` is `k` when `s[k] == c` and no earlier index holds it.
pub proof fn lemma_first_index_at(s: Seq<char>, c: char, k: int)
    requires
        0 <= k < s.len(),
        s[k] == c,
        forall|j: int| 0 <= j < k ==> s[j] != c,
    ensures
        spec_first_index_of(s, c) == Some(k),
    decreases s.len(),
{
    if s.len() > 0 && s[0] != c {
        let t = s.subrange(1, s.len() as int);
        assert forall|j: int| 0 <= j < k - 1 implies t[j] != c by {
            assert(t[j] == s[j + 1]);
        }
        lemma_first_index_at(t, c, k - 1);
    }
}

/// No index holds `c` when no element is `c`.
pub proof fn lemma_first_index_none(s: Seq<char>, c: char)
    requires
        forall|j: int| 0 <= j < s.len() ==> s[j] != c,
    ensures
        spec_first_index_of(s, c) is None,
    decreases s.len(),
{
    if s.len() > 0 {
        let t = s.subrange(1, s.len() as int);
        assert forall|j: int| 0 <= j < t.len() implies t[j] != c by {
            assert(t[j] == s[j + 1]);
        }
        lemma_first_index_none(t, c);
    }
}

/// The last position at which `s` holds the two characters `a`, `b`.
pub open spec fn spec_last_pair(s: Seq<char>, a: char, b: char) -> Option<int>
    decreases s.len(),
{
    if s.len() < 2 {
        None
    } else if s[s.len() - 2] == a && s[s.len() - 1] == b {
        Some(s.len() - 2)
    } else {
        spec_last_pair(s.drop_last(), a, b)
    }
}

pub proof fn lemma_last_pair_bounds(s: Seq<char>, a: char, b: char)
    ensures
        spec_last_pair(s, a, b) matches Some(i) ==> 0 <= i && i + 2 <= s.len() && s[i] == a && s[i + 1] == b,
    decreases s.len(),
{
    if s.len() >= 2 && !(s[s.len() - 2] == a && s[s.len() - 1] == b) {
        lemma_last_pair_bounds(s.drop_last(), a, b);
    }
}

/// The last position at which `s` holds `a` followed by `b`.
pub fn rvs_last_pair(s: &[char], a: char, b: char) -> (r: Option<usize>)
    ensures
        r matches Some(i) ==> spec_last_pair(s@, a, b) == Some(i as int),
        r is None ==> spec_last_pair(s@, a, b) is None,
{
    let mut n: usize = s.len();
    proof {
        assert(s@.subrange(0, n as int) =~= s@);
    }
    while n >= 2
        invariant
            n <= s@.len(),
            spec_last_pair(s@, a, b) == spec_last_pair(s@.subrange(0, n as int), a, b),
        decreases n,
    {
        if s[n - 2] == a && s[n - 1] == b {
            return Some(n - 2);
        }
        proof {
            assert(s@.subrange(0, n as int).drop_last() =~= s@.subrange(0, n - 1));
        }
        n = n - 1;
    }
    None
}

/// `parts` joined by `sep`.
pub open spec fn spec_join(parts: Seq<Seq<char>>, sep: Seq<char>) -> Seq<char>
    decreases parts.len(),
{
    if parts.len() == 0 {
        Seq::empty()
    } else if parts.len() == 1 {
        parts[0]
    } else {
        spec_join(parts.drop_last(), sep) + sep + parts.last()
    }
}

/// Joins the parts with `sep` between each two.
pub fn rvs_join_parts(parts: &Vec<Vec<char>>, sep: &[char]) -> (r: Vec<char>)
    ensures
        r@ == spec_join(parts@.map_values(|p: Vec<char>| p@), sep@),
{
    let ghost ps = parts@.map_values(|p: Vec<char>| p@);
    let mut r: Vec<char> = Vec::new();
    let mut i: usize = 0;
    while i < parts.len()
        invariant
            i <= parts@.len(),
            ps == parts@.map_values(|p: Vec<char>| p@),
            r@ == spec_join(ps.take(i as int), sep@),
        decreases parts@.len() - i,
    {
        if i > 0 {
            rvs_push_all(&mut r, sep);
        }
        rvs_push_all(&mut r, parts[i].as_slice());
        proof {
            assert(ps.take(i + 1).drop_last() =~= ps.take(i as int));
            assert(ps.take(i + 1).last() == parts@[i as int]@);
            if i == 0 {
                assert(ps.take(1) =~= seq![parts@[0]@]);
            }
        }
        i = i + 1;
    }
    assert(ps.take(parts@.len() as int) =~= ps);
    r
}

/// `needle` occurs in `s`.
pub open spec fn spec_contains_text(s: Seq<char>, needle: Seq<char>) -> bool {
    exists|i: int| 0 <= i && i + needle.len() <= s.len() && #[trigger] s.subrange(i, i + needle.len()) == needle
}

/// Whether `needle` occurs in `s` at position `at`.
fn rvs_occurs_at(s: &[char], needle: &[char], at: usize) -> (r: bool)
    requires
        at + needle@.len() <= s@.len(),
    ensures
        r == (s@.subrange(at as int, at + needle@.len()) == needle@),
{
    let mut k: usize = 0;
    while k < needle.len()
        invariant
            s@.len() == s.len(),
            at + needle@.len() <= s@.len(),
            k <= needle@.len(),
            forall|j: int| 0 <= j < k ==> s@[at + j] == needle@[j],
        decreases needle@.len() - k,
    {
        if s[at + k] != needle[k] {
            assert(s@.subrange(at as int, at + needle@.len())[k as int] != needle@[k as int]);
            return false;
        }
        k = k + 1;
    }
    assert(s@.subrange(at as int, at + needle@.len()) =~= needle@);
    true
}

/// Whether `needle` occurs in `s`.
pub fn rvs_contains_text(s: &[char], needle: &[char]) -> (r: bool)
    ensures
        r == spec_contains_text(s@, needle@),
{
    if needle.len() > s.len() {
        return false;
    }
    let last = s.len() - needle.len();
    let mut i: usize = 0;
    while i < last
        invariant
            last == s@.len() - needle@.len(),
            i <= last,
            forall|j: int| 0 <= j < i ==> #[trigger] s@.subrange(j, j + needle@.len()) != needle@,
        decreases last - i,
    {
        if rvs_occurs_at(s, needle, i) {
            return true;
        }
        i = i + 1;
    }
    rvs_occurs_at(s, needle, last)
}

} // verus!
