//! The text form of capability maps.
//!
//! Version 2 starts with a header line and holds one record per line:
//! `{"path":"<path>","caps":"<letters>","basis":{"kind":"<kind>"…},"completeness":"<level>"}`.
//! Version 1 lines `path=LETTERS` are still read, as migrated records of
//! unknown completeness.  Empty lines and lines starting with `#` are
//! skipped.
use vstd::prelude::*;

use crate::capability::{
    CapabilityBasis, CapabilityCompleteness, CapabilityCounts, CapabilityInfo, CapabilitySet,
    spec_capability_of, spec_letters,
};
use crate::capsmap::CapsMap;
use crate::pathmap::PathMap;
use crate::symbols::DefPath;
use crate::text::{
    rvs_chars_eq, rvs_chars_of, rvs_last_index_of, rvs_push_all, rvs_slice_chars, rvs_string_of,
    spec_last_index_of, spec_lines, spec_trim,
};

verus! {

/// The header line of version 2.
pub const CAPS_V2_HEADER: &'static str = "# rivus-caps-v2";

/// The decimal digits of a number.
pub open spec fn spec_decimal(n: nat) -> Seq<char>
    decreases n,
{
    if n < 10 {
        seq![spec_digit(n)]
    } else {
        spec_decimal(n / 10) + seq![spec_digit(n % 10)]
    }
}

/// The digit character of a number below ten.
pub open spec fn spec_digit(d: nat) -> char {
    if d == 0 { '0' } else if d == 1 { '1' } else if d == 2 { '2' } else if d == 3 { '3' } else if d == 4 { '4' }
    else if d == 5 { '5' } else if d == 6 { '6' } else if d == 7 { '7' } else if d == 8 { '8' } else { '9' }
}

fn rvs_digit(d: usize) -> (r: char)
    requires
        d < 10,
    ensures
        r == spec_digit(d as nat),
{
    if d == 0 { '0' } else if d == 1 { '1' } else if d == 2 { '2' } else if d == 3 { '3' } else if d == 4 { '4' }
    else if d == 5 { '5' } else if d == 6 { '6' } else if d == 7 { '7' } else if d == 8 { '8' } else { '9' }
}

/// The decimal digits of a number.
pub fn rvs_decimal(n: usize) -> (r: Vec<char>)
    ensures
        r@ == spec_decimal(n as nat),
    decreases n,
{
    if n < 10 {
        let mut r: Vec<char> = Vec::new();
        r.push(rvs_digit(n));
        r
    } else {
        let mut r = rvs_decimal(n / 10);
        r.push(rvs_digit(n % 10));
        r
    }
}

/// A path with `"`, `\`, newline and carriage return escaped by a
/// backslash (`\"`, `\\`, `\n`, `\r`).
pub open spec fn spec_escape(s: Seq<char>) -> Seq<char>
    decreases s.len(),
{
    if s.len() == 0 {
        Seq::empty()
    } else {
        spec_escape(s.drop_last()) + spec_escape_char(s.last())
    }
}

/// One character, escaped.
pub open spec fn spec_escape_char(c: char) -> Seq<char> {
    if c == '"' {
        seq!['\\', '"']
    } else if c == '\\' {
        seq!['\\', '\\']
    } else if c == '\n' {
        seq!['\\', 'n']
    } else if c == '\r' {
        seq!['\\', 'r']
    } else {
        seq![c]
    }
}

/// Appends `s`, escaped, to `out`.
fn rvs_push_escaped(out: &mut Vec<char>, s: &[char])
    ensures
        final(out)@ == old(out)@ + spec_escape(s@),
{
    let ghost start = out@;
    let mut i: usize = 0;
    assert(s@.subrange(0, 0) =~= Seq::<char>::empty());
    while i < s.len()
        invariant
            i <= s@.len(),
            out@ == start + spec_escape(s@.subrange(0, i as int)),
        decreases s@.len() - i,
    {
        let c = s[i];
        let ghost before = out@;
        if c == '"' {
            out.push('\\');
            out.push('"');
        } else if c == '\\' {
            out.push('\\');
            out.push('\\');
        } else if c == '\n' {
            out.push('\\');
            out.push('n');
        } else if c == '\r' {
            out.push('\\');
            out.push('r');
        } else {
            out.push(c);
        }
        proof {
            assert(before + spec_escape_char(c) =~= out@);
            assert(s@.subrange(0, i + 1).drop_last() =~= s@.subrange(0, i as int));
            assert(s@.subrange(0, i + 1).last() == c);
            assert(start + spec_escape(s@.subrange(0, i + 1)) =~= start + spec_escape(s@.subrange(0, i as int)) + spec_escape_char(c));
        }
        i = i + 1;
    }
    assert(s@.subrange(0, s@.len() as int) =~= s@);
}

/// The name of a completeness level.
pub open spec fn spec_completeness_name(c: CapabilityCompleteness) -> Seq<char> {
    match c {
        CapabilityCompleteness::Complete => "complete"@,
        CapabilityCompleteness::Incomplete => "incomplete"@,
        CapabilityCompleteness::Unknown => "unknown"@,
    }
}

/// One vote count `"X":n` appended to a comma-separated list when non-zero.
pub open spec fn spec_add_vote(acc: Seq<char>, letter: char, n: nat) -> Seq<char> {
    let entry = seq!['"', letter, '"', ':'] + spec_decimal(n);
    if n == 0 {
        acc
    } else if acc.len() == 0 {
        entry
    } else {
        acc + seq![','] + entry
    }
}

/// The non-zero vote counts, in the order `ABIMPSTU`.
pub open spec fn spec_votes_body(v: CapabilityCounts) -> Seq<char> {
    let a = spec_add_vote(Seq::empty(), 'A', v.a as nat);
    let b = spec_add_vote(a, 'B', v.b as nat);
    let i = spec_add_vote(b, 'I', v.i as nat);
    let m = spec_add_vote(i, 'M', v.m as nat);
    let p = spec_add_vote(m, 'P', v.p as nat);
    let s = spec_add_vote(p, 'S', v.s as nat);
    let t = spec_add_vote(s, 'T', v.t as nat);
    spec_add_vote(t, 'U', v.u as nat)
}

/// The basis object of a record.
pub open spec fn spec_basis_text(b: CapabilityBasis) -> Seq<char> {
    match b {
        CapabilityBasis::Explicit => "{\"kind\":\"explicit\"}"@,
        CapabilityBasis::Inferred => "{\"kind\":\"inferred\"}"@,
        CapabilityBasis::MigratedV1 => "{\"kind\":\"migrated_v1\"}"@,
        CapabilityBasis::TraitVote { implementations, threshold, votes } =>
            "{\"kind\":\"trait_vote\",\"implementations\":"@ + spec_decimal(implementations as nat)
            + ",\"threshold\":"@ + spec_decimal(threshold as nat)
            + ",\"votes\":{"@ + spec_votes_body(votes) + "}}"@,
    }
}

/// The line of one record.
pub open spec fn spec_record_line(path: Seq<char>, info: CapabilityInfo) -> Seq<char> {
    "{\"path\":\""@ + spec_escape(path) + "\",\"caps\":\""@ + spec_letters(info.caps) + "\",\"basis\":"@
        + spec_basis_text(info.basis) + ",\"completeness\":\""@ + spec_completeness_name(info.completeness) + "\"}"@
}

fn rvs_push_str(out: &mut Vec<char>, s: &str)
    ensures
        final(out)@ == old(out)@ + s@,
{
    let chars = rvs_chars_of(s);
    rvs_push_all(out, chars.as_slice());
}

fn rvs_push_vote(out: &mut Vec<char>, letter: char, n: usize)
    ensures
        final(out)@ == spec_add_vote(old(out)@, letter, n as nat),
{
    if n == 0 {
        return;
    }
    if out.len() > 0 {
        out.push(',');
    }
    let ghost before = out@;
    out.push('"');
    out.push(letter);
    out.push('"');
    out.push(':');
    let digits = rvs_decimal(n);
    rvs_push_all(out, digits.as_slice());
    proof {
        if old(out)@.len() == 0 {
            assert(out@ =~= seq!['"', letter, '"', ':'] + spec_decimal(n as nat));
        } else {
            assert(out@ =~= old(out)@ + seq![','] + (seq!['"', letter, '"', ':'] + spec_decimal(n as nat)));
        }
    }
}

fn rvs_completeness_name(c: CapabilityCompleteness) -> (r: &'static str)
    ensures
        r@ == spec_completeness_name(c),
{
    match c {
        CapabilityCompleteness::Complete => "complete",
        CapabilityCompleteness::Incomplete => "incomplete",
        CapabilityCompleteness::Unknown => "unknown",
    }
}

fn rvs_votes_body(votes: &CapabilityCounts) -> (r: Vec<char>)
    ensures
        r@ == spec_votes_body(*votes),
{
    let mut body: Vec<char> = Vec::new();
    rvs_push_vote(&mut body, 'A', votes.a);
    rvs_push_vote(&mut body, 'B', votes.b);
    rvs_push_vote(&mut body, 'I', votes.i);
    rvs_push_vote(&mut body, 'M', votes.m);
    rvs_push_vote(&mut body, 'P', votes.p);
    rvs_push_vote(&mut body, 'S', votes.s);
    rvs_push_vote(&mut body, 'T', votes.t);
    rvs_push_vote(&mut body, 'U', votes.u);
    body
}

fn rvs_push_basis(out: &mut Vec<char>, basis: &CapabilityBasis)
    ensures
        final(out)@ == old(out)@ + spec_basis_text(*basis),
{
    match *basis {
        CapabilityBasis::Explicit => rvs_push_str(out, "{\"kind\":\"explicit\"}"),
        CapabilityBasis::Inferred => rvs_push_str(out, "{\"kind\":\"inferred\"}"),
        CapabilityBasis::MigratedV1 => rvs_push_str(out, "{\"kind\":\"migrated_v1\"}"),
        CapabilityBasis::TraitVote { implementations, threshold, votes } => {
            let ghost start = out@;
            rvs_push_str(out, "{\"kind\":\"trait_vote\",\"implementations\":");
            let d = rvs_decimal(implementations);
            rvs_push_all(out, d.as_slice());
            rvs_push_str(out, ",\"threshold\":");
            let d2 = rvs_decimal(threshold);
            rvs_push_all(out, d2.as_slice());
            rvs_push_str(out, ",\"votes\":{");
            let body = rvs_votes_body(&votes);
            rvs_push_all(out, body.as_slice());
            rvs_push_str(out, "}}");
            proof {
                assert(out@ =~= start + spec_basis_text(*basis));
            }
        },
    }
}

/// Appends the line of one record.
pub fn rvs_push_record_line(out: &mut Vec<char>, path: &[char], info: &CapabilityInfo)
    ensures
        final(out)@ == old(out)@ + spec_record_line(path@, *info),
{
    let ghost start = out@;
    let mut line: Vec<char> = Vec::new();
    rvs_push_str(&mut line, "{\"path\":\"");
    rvs_push_escaped(&mut line, path);
    rvs_push_str(&mut line, "\",\"caps\":\"");
    let letters = info.caps.rvs_letter_chars();
    rvs_push_all(&mut line, letters.as_slice());
    rvs_push_str(&mut line, "\",\"basis\":");
    rvs_push_basis(&mut line, &info.basis);
    rvs_push_str(&mut line, ",\"completeness\":\"");
    rvs_push_str(&mut line, rvs_completeness_name(info.completeness));
    rvs_push_str(&mut line, "\"}");
    proof {
        assert(line@ =~= spec_record_line(path@, *info));
    }
    rvs_push_all(out, line.as_slice());
}

/// The text of a map: the header line, then one line per record in path
/// order.
pub open spec fn spec_render(m: CapsMap) -> Seq<char> {
    CAPS_V2_HEADER@ + seq!['\n'] + spec_render_records(m.entries.entries@)
}

/// The lines of records, each ended by a newline.
pub open spec fn spec_render_records(entries: Seq<(DefPath, CapabilityInfo)>) -> Seq<char>
    decreases entries.len(),
{
    if entries.len() == 0 {
        Seq::empty()
    } else {
        spec_render_records(entries.drop_last()) + spec_record_line(entries.last().0@, entries.last().1) + seq!['\n']
    }
}

impl CapsMap {
    /// The version 2 text of the map.
    pub fn rvs_render_v2(&self) -> (r: String)
        ensures
            r@ == spec_render(*self),
    {
        let mut out = rvs_chars_of(CAPS_V2_HEADER);
        out.push('\n');
        let ghost head = out@;
        let mut i: usize = 0;
        while i < self.entries.entries.len()
            invariant
                i <= self.entries.entries@.len(),
                out@ == head + spec_render_records(self.entries.entries@.subrange(0, i as int)),
            decreases self.entries.entries@.len() - i,
        {
            let ghost before = out@;
            rvs_push_record_line(&mut out, self.entries.entries[i].0.rvs_chars(), &self.entries.entries[i].1);
            out.push('\n');
            proof {
                let sub = self.entries.entries@.subrange(0, i + 1);
                assert(sub.drop_last() =~= self.entries.entries@.subrange(0, i as int));
                assert(sub.last() == self.entries.entries@[i as int]);
                assert(out@ =~= head + spec_render_records(sub));
            }
            i = i + 1;
        }
        proof {
            assert(self.entries.entries@.subrange(0, self.entries.entries@.len() as int) =~= self.entries.entries@);
        }
        rvs_string_of(out.as_slice())
    }
}


/// Why a capability map text could not be read: the line, counted from one,
/// that holds no record.
#[derive(Debug, Clone, Copy, PartialEq, Eq, Structural)]
pub struct CapsMapError {
    pub line: usize,
}

/// A version 1 line `path=LETTERS`: the path before the last `=` (not
/// empty) and the set of the letters after it, all capability letters.
pub open spec fn spec_v1_record(line: Seq<char>) -> Option<(Seq<char>, CapabilitySet)> {
    match spec_last_index_of(line, '=') {
        Some(k) => {
            let letters = line.subrange(k + 1, line.len() as int);
            if k > 0 && forall|j: int| 0 <= j < letters.len() ==> spec_capability_of(#[trigger] letters[j]) is Some {
                Some((line.subrange(0, k), crate::capability::spec_set_of(|c: crate::capability::Capability| letters.contains(crate::capability::spec_letter(c)))))
            } else {
                None
            }
        },
        None => None,
    }
}

/// A line gives the record `(path, info)`: a version 2 line that is exactly
/// the record's line, or a version 1 line naming the path and capabilities
/// of a migrated record of unknown completeness.
pub open spec fn spec_line_gives(line: Seq<char>, path: Seq<char>, info: CapabilityInfo) -> bool {
    if line.len() > 0 && line[0] == '{' {
        spec_record_line(path, info) == line
    } else {
        &&& spec_v1_record(line) == Some((path, info.caps))
        &&& info.basis == CapabilityBasis::MigratedV1
        &&& info.completeness == CapabilityCompleteness::Unknown
    }
}

/// A line that holds no record: empty or a `#` comment (after trimming).
pub open spec fn spec_skipped_line(line: Seq<char>) -> bool {
    line.len() == 0 || line[0] == '#'
}

// ------------------------------------------------------------ reading

/// Where `lit` ends when it is written at `pos`.
pub open spec fn spec_expect(line: Seq<char>, pos: int, lit: Seq<char>) -> Option<int> {
    if pos + lit.len() <= line.len() && line.subrange(pos, pos + lit.len()) == lit {
        Some(pos + lit.len())
    } else {
        None
    }
}

fn rvs_expect(line: &[char], pos: usize, lit: &str) -> (r: Option<usize>)
    requires
        pos <= line@.len(),
    ensures
        r matches Some(p) ==> pos <= p <= line@.len() && line@.subrange(pos as int, p as int) == lit@,
        r matches Some(p) ==> spec_expect(line@, pos as int, lit@) == Some(p as int),
        r is None ==> spec_expect(line@, pos as int, lit@) is None,
{
    let l = rvs_chars_of(lit);
    if l.len() > line.len() - pos {
        return None;
    }
    let part = rvs_slice_chars(line, pos, pos + l.len());
    if rvs_chars_eq(part.as_slice(), l.as_slice()) {
        Some(pos + l.len())
    } else {
        None
    }
}

/// The text of an escaped string from `i` up to its closing quote, and
/// where that quote stands: `\"`, `\\`, `\n` and `\r` stand for a quote, a
/// backslash, a line feed and a carriage return; any other escape, or no
/// closing quote, gives nothing.
pub open spec fn spec_read_escaped(line: Seq<char>, i: int) -> Option<(Seq<char>, int)>
    decreases line.len() - i,
{
    if i < 0 || i >= line.len() {
        None
    } else if line[i] == '"' {
        Some((Seq::empty(), i))
    } else if line[i] == '\\' {
        if i + 1 >= line.len() {
            None
        } else {
            let e = line[i + 1];
            let c: Option<char> = if e == '"' || e == '\\' {
                Some(e)
            } else if e == 'n' {
                Some('\n')
            } else if e == 'r' {
                Some('\r')
            } else {
                None
            };
            match c {
                None => None,
                Some(c) => match spec_read_escaped(line, i + 2) {
                    Some((t, p)) => Some((seq![c] + t, p)),
                    None => None,
                },
            }
        }
    } else {
        match spec_read_escaped(line, i + 1) {
            Some((t, p)) => Some((seq![line[i]] + t, p)),
            None => None,
        }
    }
}

/// `out` put before what a read gives.
pub open spec fn spec_prefixed(out: Seq<char>, r: Option<(Seq<char>, int)>) -> Option<(Seq<char>, int)> {
    match r {
        Some((t, p)) => Some((out + t, p)),
        None => None,
    }
}

fn rvs_read_escaped(line: &[char], pos: usize) -> (r: Option<(Vec<char>, usize)>)
    requires
        pos <= line@.len(),
    ensures
        r matches Some((_, p)) ==> pos <= p <= line@.len(),
        r matches Some((t, p)) ==> spec_read_escaped(line@, pos as int) == Some((t@, p as int)),
        r is None ==> spec_read_escaped(line@, pos as int) is None,
{
    let mut out: Vec<char> = Vec::new();
    let mut i: usize = pos;
    while i < line.len()
        invariant
            pos <= i <= line@.len(),
            spec_read_escaped(line@, pos as int) == spec_prefixed(out@, spec_read_escaped(line@, i as int)),
        decreases line@.len() - i,
    {
        let c = line[i];
        if c == '"' {
            proof {
                assert(out@ + Seq::<char>::empty() =~= out@);
            }
            return Some((out, i));
        }
        if c == '\\' {
            if i + 1 >= line.len() {
                return None;
            }
            let e = line[i + 1];
            let ghost before = out@;
            if e == '"' || e == '\\' {
                out.push(e);
            } else if e == 'n' {
                out.push('\n');
            } else if e == 'r' {
                out.push('\r');
            } else {
                return None;
            }
            proof {
                let c2 = out@.last();
                match spec_read_escaped(line@, i + 2) {
                    Some((t, p)) => {
                        assert(before + (seq![c2] + t) =~= out@ + t);
                    },
                    None => {},
                }
            }
            i = i + 2;
        } else {
            let ghost before = out@;
            out.push(c);
            proof {
                match spec_read_escaped(line@, i + 1) {
                    Some((t, p)) => {
                        assert(before + (seq![c] + t) =~= out@ + t);
                    },
                    None => {},
                }
            }
            i = i + 1;
        }
    }
    None
}

/// The first quote at or after `i`.
pub open spec fn spec_quote_from(line: Seq<char>, i: int) -> Option<int>
    decreases line.len() - i,
{
    if i < 0 || i >= line.len() {
        None
    } else if line[i] == '"' {
        Some(i)
    } else {
        spec_quote_from(line, i + 1)
    }
}

/// The text from `pos` up to the next quote, and where that quote stands.
pub open spec fn spec_read_until_quote(line: Seq<char>, pos: int) -> Option<(Seq<char>, int)> {
    match spec_quote_from(line, pos) {
        Some(q) => Some((line.subrange(pos, q), q)),
        None => None,
    }
}

proof fn lemma_quote_from(line: Seq<char>, i: int)
    requires
        0 <= i,
    ensures
        spec_quote_from(line, i) matches Some(q) ==> i <= q < line.len() && line[q] == '"'
            && forall|j: int| i <= j < q ==> line[j] != '"',
    decreases line.len() - i,
{
    if i < line.len() && line[i] != '"' {
        lemma_quote_from(line, i + 1);
    }
}

fn rvs_read_until_quote(line: &[char], pos: usize) -> (r: Option<(Vec<char>, usize)>)
    requires
        pos <= line@.len(),
    ensures
        r matches Some((_, p)) ==> pos <= p <= line@.len(),
        r matches Some((t, p)) ==> spec_read_until_quote(line@, pos as int) == Some((t@, p as int)),
        r is None ==> spec_read_until_quote(line@, pos as int) is None,
{
    let mut i: usize = pos;
    while i < line.len()
        invariant
            pos <= i <= line@.len(),
            spec_quote_from(line@, pos as int) == spec_quote_from(line@, i as int),
        decreases line@.len() - i,
    {
        if line[i] == '"' {
            return Some((rvs_slice_chars(line, pos, i), i));
        }
        i = i + 1;
    }
    None
}

/// Where the run of decimal digits that starts at `i` ends.
pub open spec fn spec_digits_end(line: Seq<char>, i: int) -> int
    decreases line.len() - i,
{
    if 0 <= i < line.len() && '0' <= line[i] && line[i] <= '9' {
        spec_digits_end(line, i + 1)
    } else {
        i
    }
}

/// The value of a decimal digit.
pub open spec fn spec_digit_value(c: char) -> nat {
    if c == '0' { 0 } else if c == '1' { 1 } else if c == '2' { 2 } else if c == '3' { 3 } else if c == '4' { 4 }
    else if c == '5' { 5 } else if c == '6' { 6 } else if c == '7' { 7 } else if c == '8' { 8 } else { 9 }
}

/// The value of a run of decimal digits.
pub open spec fn spec_digits_value(s: Seq<char>) -> nat
    decreases s.len(),
{
    if s.len() == 0 {
        0
    } else {
        spec_digits_value(s.drop_last()) * 10 + spec_digit_value(s.last())
    }
}

/// The number written at `pos` and where it ends: nothing when no digit
/// stands there or the value does not fit in `usize`.
pub open spec fn spec_read_number(line: Seq<char>, pos: int) -> Option<(usize, int)> {
    let end = spec_digits_end(line, pos);
    let v = spec_digits_value(line.subrange(pos, end));
    if end == pos || v > usize::MAX {
        None
    } else {
        Some((v as usize, end))
    }
}

pub proof fn lemma_digits_end(line: Seq<char>, i: int)
    requires
        0 <= i <= line.len(),
    ensures
        i <= spec_digits_end(line, i) <= line.len(),
    decreases line.len() - i,
{
    if 0 <= i < line.len() && '0' <= line[i] && line[i] <= '9' {
        lemma_digits_end(line, i + 1);
    }
}

proof fn lemma_digits_value_grows(line: Seq<char>, pos: int, i: int, j: int)
    requires
        0 <= pos <= i <= j <= line.len(),
    ensures
        spec_digits_value(line.subrange(pos, i)) <= spec_digits_value(line.subrange(pos, j)),
    decreases j - i,
{
    if i < j {
        lemma_digits_value_grows(line, pos, i, j - 1);
        assert(line.subrange(pos, j).drop_last() =~= line.subrange(pos, j - 1));
    }
}

fn rvs_read_number(line: &[char], pos: usize) -> (r: Option<(usize, usize)>)
    requires
        pos <= line@.len(),
    ensures
        r matches Some((_, p)) ==> pos <= p <= line@.len(),
        r matches Some((n, p)) ==> spec_read_number(line@, pos as int) == Some((n, p as int)),
        r is None ==> spec_read_number(line@, pos as int) is None,
{
    let mut i: usize = pos;
    let mut n: usize = 0;
    proof {
        assert(line@.subrange(pos as int, pos as int) =~= Seq::<char>::empty());
        lemma_digits_end(line@, pos as int);
    }
    while i < line.len() && '0' <= line[i] && line[i] <= '9'
        invariant
            pos <= i <= line@.len(),
            spec_digits_end(line@, pos as int) == spec_digits_end(line@, i as int),
            n == spec_digits_value(line@.subrange(pos as int, i as int)),
        decreases line@.len() - i,
    {
        let d: usize = if line[i] == '0' { 0 } else if line[i] == '1' { 1 } else if line[i] == '2' { 2 } else if line[i] == '3' { 3 }
            else if line[i] == '4' { 4 } else if line[i] == '5' { 5 } else if line[i] == '6' { 6 } else if line[i] == '7' { 7 }
            else if line[i] == '8' { 8 } else { 9 };
        proof {
            assert(line@.subrange(pos as int, i + 1).drop_last() =~= line@.subrange(pos as int, i as int));
            assert(d == spec_digit_value(line@[i as int]));
            assert(spec_digits_value(line@.subrange(pos as int, i + 1)) == n * 10 + d);
            lemma_digits_end(line@, i + 1);
        }
        match n.checked_mul(10) {
            Some(t) => match t.checked_add(d) {
                Some(v) => {
                    n = v;
                },
                None => {
                    proof {
                        lemma_digits_value_grows(line@, pos as int, i + 1, spec_digits_end(line@, pos as int));
                    }
                    return None;
                },
            },
            None => {
                proof {
                    lemma_digits_value_grows(line@, pos as int, i + 1, spec_digits_end(line@, pos as int));
                }
                return None;
            },
        }
        i = i + 1;
    }
    if i == pos {
        None
    } else {
        Some((n, i))
    }
}

/// The counts with the vote of the capability `letter` names set to `n`;
/// nothing when `letter` names none.
pub open spec fn spec_set_vote(v: CapabilityCounts, letter: char, n: usize) -> Option<CapabilityCounts> {
    if letter == 'A' {
        Some(CapabilityCounts { a: n, ..v })
    } else if letter == 'B' {
        Some(CapabilityCounts { b: n, ..v })
    } else if letter == 'I' {
        Some(CapabilityCounts { i: n, ..v })
    } else if letter == 'M' {
        Some(CapabilityCounts { m: n, ..v })
    } else if letter == 'P' {
        Some(CapabilityCounts { p: n, ..v })
    } else if letter == 'S' {
        Some(CapabilityCounts { s: n, ..v })
    } else if letter == 'T' {
        Some(CapabilityCounts { t: n, ..v })
    } else if letter == 'U' {
        Some(CapabilityCounts { u: n, ..v })
    } else {
        None
    }
}

/// The votes `"L":n` from `i` on, separated by commas and closed by `}`,
/// each setting the count of its letter's capability in `v`; and where the
/// closing brace ends.
pub open spec fn spec_votes_from(line: Seq<char>, i: int, v: CapabilityCounts) -> Option<(CapabilityCounts, int)>
    decreases line.len() - i,
{
    if i < 0 || i >= line.len() {
        None
    } else if line.len() - i < 4 || line[i] != '"' || line[i + 2] != '"' || line[i + 3] != ':' {
        None
    } else {
        match spec_read_number(line, i + 4) {
            None => None,
            Some((n, after)) => match spec_set_vote(v, line[i + 1], n) {
                None => None,
                Some(v2) => if after >= line.len() {
                    None
                } else if line[after] == '}' {
                    Some((v2, after + 1))
                } else if line[after] != ',' {
                    None
                } else {
                    proof {
                        lemma_digits_end(line, i + 4);
                    }
                    spec_votes_from(line, after + 1, v2)
                },
            },
        }
    }
}

/// The vote counts written at `pos` (after the opening brace): none, or
/// the votes of `spec_votes_from`; unset letters count zero.
pub open spec fn spec_read_votes(line: Seq<char>, pos: int) -> Option<(CapabilityCounts, int)> {
    let zero = CapabilityCounts { a: 0, b: 0, i: 0, m: 0, p: 0, s: 0, t: 0, u: 0 };
    if 0 <= pos < line.len() && line[pos] == '}' {
        Some((zero, pos + 1))
    } else {
        spec_votes_from(line, pos, zero)
    }
}

fn rvs_read_votes(line: &[char], pos: usize) -> (r: Option<(CapabilityCounts, usize)>)
    requires
        pos <= line@.len(),
    ensures
        r matches Some((_, p)) ==> pos <= p <= line@.len(),
        r matches Some((v, p)) ==> spec_read_votes(line@, pos as int) == Some((v, p as int)),
        r is None ==> spec_read_votes(line@, pos as int) is None,
{
    let mut votes = CapabilityCounts { a: 0, b: 0, i: 0, m: 0, p: 0, s: 0, t: 0, u: 0 };
    let mut i: usize = pos;
    if i < line.len() && line[i] == '}' {
        return Some((votes, i + 1));
    }
    while i < line.len()
        invariant
            pos <= i <= line@.len(),
            spec_read_votes(line@, pos as int) == spec_votes_from(line@, i as int, votes),
        decreases line@.len() - i,
    {
        if line.len() - i < 4 || line[i] != '"' || line[i + 2] != '"' || line[i + 3] != ':' {
            return None;
        }
        let letter = line[i + 1];
        let (n, after) = match rvs_read_number(line, i + 4) {
            Some(x) => x,
            None => {
                return None;
            },
        };
        let ghost before = votes;
        if letter == 'A' { votes.a = n; } else if letter == 'B' { votes.b = n; } else if letter == 'I' { votes.i = n; }
        else if letter == 'M' { votes.m = n; } else if letter == 'P' { votes.p = n; } else if letter == 'S' { votes.s = n; }
        else if letter == 'T' { votes.t = n; } else if letter == 'U' { votes.u = n; } else {
            return None;
        }
        assert(spec_set_vote(before, letter, n) == Some(votes));
        if after >= line.len() {
            return None;
        }
        if line[after] == '}' {
            return Some((votes, after + 1));
        }
        if line[after] != ',' {
            return None;
        }
        i = after + 1;
    }
    None
}

/// A basis kind without fields, by name.
pub open spec fn spec_plain_basis(kind: Seq<char>) -> Option<CapabilityBasis> {
    if kind == "explicit"@ {
        Some(CapabilityBasis::Explicit)
    } else if kind == "inferred"@ {
        Some(CapabilityBasis::Inferred)
    } else if kind == "migrated_v1"@ {
        Some(CapabilityBasis::MigratedV1)
    } else {
        None
    }
}

/// The fields of a `trait_vote` basis after its kind, and where they end.
pub open spec fn spec_read_vote_basis(line: Seq<char>, p: int) -> Option<(CapabilityBasis, int)> {
    match spec_expect(line, p, "\",\"implementations\":"@) {
        None => None,
        Some(p1) => match spec_read_number(line, p1) {
            None => None,
            Some((implementations, p2)) => match spec_expect(line, p2, ",\"threshold\":"@) {
                None => None,
                Some(p3) => match spec_read_number(line, p3) {
                    None => None,
                    Some((threshold, p4)) => match spec_expect(line, p4, ",\"votes\":{"@) {
                        None => None,
                        Some(p5) => match spec_read_votes(line, p5) {
                            None => None,
                            Some((votes, p6)) => match spec_expect(line, p6, "}"@) {
                                None => None,
                                Some(p7) => Some((CapabilityBasis::TraitVote { implementations, threshold, votes }, p7)),
                            },
                        },
                    },
                },
            },
        },
    }
}

/// The basis object written at `pos`, and where it ends.
pub open spec fn spec_read_basis(line: Seq<char>, pos: int) -> Option<(CapabilityBasis, int)> {
    match spec_expect(line, pos, "{\"kind\":\""@) {
        None => None,
        Some(p) => match spec_read_until_quote(line, p) {
            None => None,
            Some((kind, p2)) => if kind == "trait_vote"@ {
                spec_read_vote_basis(line, p2)
            } else {
                match spec_plain_basis(kind) {
                    None => None,
                    Some(b) => match spec_expect(line, p2, "\"}"@) {
                        None => None,
                        Some(p3) => Some((b, p3)),
                    },
                }
            },
        },
    }
}

fn rvs_read_basis(line: &[char], pos: usize) -> (r: Option<(CapabilityBasis, usize)>)
    requires
        pos <= line@.len(),
    ensures
        r matches Some((_, p)) ==> pos <= p <= line@.len(),
        r matches Some((b, p)) ==> spec_read_basis(line@, pos as int) == Some((b, p as int)),
        r is None ==> spec_read_basis(line@, pos as int) is None,
{
    let p = match rvs_expect(line, pos, "{\"kind\":\"") {
        Some(p) => p,
        None => {
            return None;
        },
    };
    let (kind, p) = match rvs_read_until_quote(line, p) {
        Some(x) => x,
        None => {
            return None;
        },
    };
    let explicit = rvs_chars_of("explicit");
    let inferred = rvs_chars_of("inferred");
    let migrated = rvs_chars_of("migrated_v1");
    let vote = rvs_chars_of("trait_vote");
    if rvs_chars_eq(kind.as_slice(), vote.as_slice()) {
        let p = match rvs_expect(line, p, "\",\"implementations\":") {
            Some(p) => p,
            None => {
                return None;
            },
        };
        let (implementations, p) = match rvs_read_number(line, p) {
            Some(x) => x,
            None => {
                return None;
            },
        };
        let p = match rvs_expect(line, p, ",\"threshold\":") {
            Some(p) => p,
            None => {
                return None;
            },
        };
        let (threshold, p) = match rvs_read_number(line, p) {
            Some(x) => x,
            None => {
                return None;
            },
        };
        let p = match rvs_expect(line, p, ",\"votes\":{") {
            Some(p) => p,
            None => {
                return None;
            },
        };
        let (votes, p) = match rvs_read_votes(line, p) {
            Some(x) => x,
            None => {
                return None;
            },
        };
        match rvs_expect(line, p, "}") {
            Some(p) => Some((CapabilityBasis::TraitVote { implementations, threshold, votes }, p)),
            None => None,
        }
    } else {
        let basis = if rvs_chars_eq(kind.as_slice(), explicit.as_slice()) {
            CapabilityBasis::Explicit
        } else if rvs_chars_eq(kind.as_slice(), inferred.as_slice()) {
            CapabilityBasis::Inferred
        } else if rvs_chars_eq(kind.as_slice(), migrated.as_slice()) {
            CapabilityBasis::MigratedV1
        } else {
            return None;
        };
        match rvs_expect(line, p, "\"}") {
            Some(p) => Some((basis, p)),
            None => None,
        }
    }
}

/// The set of capabilities a run of letters names; nothing when a
/// character is no capability letter.
pub open spec fn spec_caps_of_letters(letters: Seq<char>) -> Option<CapabilitySet> {
    if forall|j: int| 0 <= j < letters.len() ==> spec_capability_of(#[trigger] letters[j]) is Some {
        Some(crate::capability::spec_set_of(|c: crate::capability::Capability| letters.contains(crate::capability::spec_letter(c))))
    } else {
        None
    }
}

/// A completeness level, by name.
pub open spec fn spec_completeness_named(name: Seq<char>) -> Option<CapabilityCompleteness> {
    if name == "complete"@ {
        Some(CapabilityCompleteness::Complete)
    } else if name == "incomplete"@ {
        Some(CapabilityCompleteness::Incomplete)
    } else if name == "unknown"@ {
        Some(CapabilityCompleteness::Unknown)
    } else {
        None
    }
}

/// The completeness field written at `p` and the rest of a record.
pub open spec fn spec_read_v2_tail(line: Seq<char>, p: int, path: Seq<char>, caps: CapabilitySet) -> Option<(Seq<char>, CapabilityInfo)> {
    match spec_read_basis(line, p) {
        None => None,
        Some((basis, p1)) => match spec_expect(line, p1, ",\"completeness\":\""@) {
            None => None,
            Some(p2) => match spec_read_until_quote(line, p2) {
                None => None,
                Some((name, _)) => match spec_completeness_named(name) {
                    None => None,
                    Some(completeness) => Some((path, CapabilityInfo { caps, basis, completeness })),
                },
            },
        },
    }
}

/// The fields of a version 2 line, read in order: the escaped path, the
/// capability letters, the basis object and the completeness name.
pub open spec fn spec_read_v2_fields(line: Seq<char>) -> Option<(Seq<char>, CapabilityInfo)> {
    match spec_expect(line, 0, "{\"path\":\""@) {
        None => None,
        Some(p) => match spec_read_escaped(line, p) {
            None => None,
            Some((path, p1)) => match spec_expect(line, p1, "\",\"caps\":\""@) {
                None => None,
                Some(p2) => match spec_read_until_quote(line, p2) {
                    None => None,
                    Some((letters, p3)) => match spec_caps_of_letters(letters) {
                        None => None,
                        Some(caps) => match spec_expect(line, p3, "\",\"basis\":"@) {
                            None => None,
                            Some(p4) => spec_read_v2_tail(line, p4, path, caps),
                        },
                    },
                },
            },
        },
    }
}

/// The record a line gives: a version 2 line whose fields read back to a
/// record whose line is exactly this line; or a version 1 line, as a
/// migrated record of unknown completeness.
pub open spec fn spec_parse_record_line(line: Seq<char>) -> Option<(Seq<char>, CapabilityInfo)> {
    if line.len() > 0 && line[0] == '{' {
        match spec_read_v2_fields(line) {
            Some((path, info)) => if spec_record_line(path, info) == line { Some((path, info)) } else { None },
            None => None,
        }
    } else {
        match spec_v1_record(line) {
            Some((path, caps)) => Some((path, CapabilityInfo {
                caps,
                basis: CapabilityBasis::MigratedV1,
                completeness: CapabilityCompleteness::Unknown,
            })),
            None => None,
        }
    }
}

/// Reads the fields of a version 2 line; `None` when the line does not have
/// the shape of a record line.
fn rvs_read_v2_fields(line: &[char]) -> (r: Option<(Vec<char>, CapabilityInfo)>)
    ensures
        r matches Some((path, info)) ==> spec_read_v2_fields(line@) == Some((path@, info)),
        r is None ==> spec_read_v2_fields(line@) is None,
{
    let p = match rvs_expect(line, 0, "{\"path\":\"") {
        Some(p) => p,
        None => {
            return None;
        },
    };
    let (path, p) = match rvs_read_escaped(line, p) {
        Some(x) => x,
        None => {
            return None;
        },
    };
    let p = match rvs_expect(line, p, "\",\"caps\":\"") {
        Some(p) => p,
        None => {
            return None;
        },
    };
    let (letters, p) = match rvs_read_until_quote(line, p) {
        Some(x) => x,
        None => {
            return None;
        },
    };
    let caps = match CapabilitySet::rvs_from_chars(letters.as_slice()) {
        Some(c) => c,
        None => {
            return None;
        },
    };
    proof {
        let d = crate::capability::spec_set_of(|c: crate::capability::Capability| letters@.contains(crate::capability::spec_letter(c)));
        assert forall|c: crate::capability::Capability| #[trigger] caps.has(c) == d.has(c) by {}
        crate::capability::lemma_set_ext(caps, d);
    }
    let p = match rvs_expect(line, p, "\",\"basis\":") {
        Some(p) => p,
        None => {
            return None;
        },
    };
    let (basis, p) = match rvs_read_basis(line, p) {
        Some(x) => x,
        None => {
            return None;
        },
    };
    let p = match rvs_expect(line, p, ",\"completeness\":\"") {
        Some(p) => p,
        None => {
            return None;
        },
    };
    let (name, _) = match rvs_read_until_quote(line, p) {
        Some(x) => x,
        None => {
            return None;
        },
    };
    let complete = rvs_chars_of("complete");
    let incomplete = rvs_chars_of("incomplete");
    let unknown = rvs_chars_of("unknown");
    let completeness = if rvs_chars_eq(name.as_slice(), complete.as_slice()) {
        CapabilityCompleteness::Complete
    } else if rvs_chars_eq(name.as_slice(), incomplete.as_slice()) {
        CapabilityCompleteness::Incomplete
    } else if rvs_chars_eq(name.as_slice(), unknown.as_slice()) {
        CapabilityCompleteness::Unknown
    } else {
        return None;
    };
    Some((path, CapabilityInfo { caps, basis, completeness }))
}

/// The record a line gives, if any.
pub fn rvs_parse_record_line(line: &[char]) -> (r: Option<(Vec<char>, CapabilityInfo)>)
    ensures
        r matches Some((path, info)) ==> spec_line_gives(line@, path@, info),
        r matches Some((path, info)) ==> spec_parse_record_line(line@) == Some((path@, info)),
        r is None ==> spec_parse_record_line(line@) is None,
{
    if line.len() > 0 && line[0] == '{' {
        match rvs_read_v2_fields(line) {
            Some((path, info)) => {
                let mut again: Vec<char> = Vec::new();
                rvs_push_record_line(&mut again, path.as_slice(), &info);
                if rvs_chars_eq(again.as_slice(), line) {
                    proof {
                        assert(again@ =~= spec_record_line(path@, info));
                    }
                    Some((path, info))
                } else {
                    None
                }
            },
            None => None,
        }
    } else {
        proof {
            crate::text::lemma_last_index_of(line@, '=');
        }
        match rvs_last_index_of(line, '=') {
            Some(k) => {
                if k == 0 {
                    return None;
                }
                let letters = rvs_slice_chars(line, k + 1, line.len());
                match CapabilitySet::rvs_from_chars(letters.as_slice()) {
                    Some(caps) => {
                        proof {
                            let d = crate::capability::spec_set_of(|c: crate::capability::Capability| letters@.contains(crate::capability::spec_letter(c)));
                            assert forall|c: crate::capability::Capability| #[trigger] caps.has(c) == d.has(c) by {}
                            crate::capability::lemma_set_ext(caps, d);
                        }
                        Some((rvs_slice_chars(line, 0, k), CapabilityInfo::rvs_migrated_v1(caps, CapabilityCompleteness::Unknown)))
                    },
                    None => None,
                }
            },
            None => None,
        }
    }
}

/// A line of a capability map text is acceptable: skipped (after
/// trimming), or a record line.
pub open spec fn spec_line_ok(line: Seq<char>) -> bool {
    spec_skipped_line(spec_trim(line)) || spec_parse_record_line(spec_trim(line)) is Some
}

/// The record the last of the lines that names `k` gives for it.
pub open spec fn spec_record_for(lines: Seq<Seq<char>>, k: Seq<char>) -> Option<CapabilityInfo>
    decreases lines.len(),
{
    if lines.len() == 0 {
        None
    } else {
        let t = spec_trim(lines.last());
        match spec_parse_record_line(t) {
            Some((p, info)) => if !spec_skipped_line(t) && p == k {
                Some(info)
            } else {
                spec_record_for(lines.drop_last(), k)
            },
            None => spec_record_for(lines.drop_last(), k),
        }
    }
}

impl CapsMap {
    /// Reads a capability map text: every line that is not skipped must give
    /// a record; a later record of a path replaces an earlier one.
    pub fn rvs_parse(text: &str) -> (r: Result<CapsMap, CapsMapError>)
        ensures
            r is Ok <==> forall|i: int| 0 <= i < spec_lines(text@).len() ==> spec_line_ok(#[trigger] spec_lines(text@)[i]),
            r matches Ok(m) ==> m.wf() && forall|k: Seq<char>| #[trigger] m.spec_info(k) is Some
                ==> exists|i: int| 0 <= i < spec_lines(text@).len()
                    && spec_line_gives(spec_trim(#[trigger] spec_lines(text@)[i]), k, m.spec_info(k)->0),
            r matches Ok(m) ==> forall|k: Seq<char>| #[trigger] m.spec_info(k) == spec_record_for(spec_lines(text@), k),
            r matches Err(e) ==> 1 <= e.line <= spec_lines(text@).len()
                && !spec_skipped_line(spec_trim(spec_lines(text@)[e.line - 1]))
                && !spec_line_ok(spec_lines(text@)[e.line - 1])
                && forall|i: int| 0 <= i < e.line - 1 ==> spec_line_ok(#[trigger] spec_lines(text@)[i]),
    {
        let s = rvs_chars_of(text);
        let mut map = CapsMap::rvs_new();
        let mut pos: usize = 0;
        let mut line_no: usize = 0;
        let ghost mut done: Seq<Seq<char>> = Seq::empty();
        proof {
            assert(s@.subrange(0, s@.len() as int) =~= s@);
            assert(done + spec_lines(s@) =~= spec_lines(s@));
        }
        while pos < s.len()
            invariant
                pos <= s@.len(),
                s@ == text@,
                line_no == done.len(),
                line_no <= pos,
                done + spec_lines(s@.subrange(pos as int, s@.len() as int)) == spec_lines(s@),
                map.wf(),
                forall|k: Seq<char>| #[trigger] map.spec_info(k) is Some
                    ==> exists|i: int| 0 <= i < done.len() && spec_line_gives(spec_trim(#[trigger] done[i]), k, map.spec_info(k)->0),
                forall|k: Seq<char>| #[trigger] map.spec_info(k) == spec_record_for(done, k),
                forall|i: int| 0 <= i < done.len() ==> spec_line_ok(#[trigger] done[i]),
            decreases s@.len() - pos,
        {
            let ghost rest = s@.subrange(pos as int, s@.len() as int);
            proof {
                crate::text::lemma_first_index_of(rest, '\n');
            }
            let (line, next) = match crate::text::rvs_find_char_from(s.as_slice(), pos, '\n') {
                Some(k) => {
                    let raw = rvs_slice_chars(s.as_slice(), pos, k);
                    let l = if raw.len() > 0 && raw[raw.len() - 1] == '\r' {
                        rvs_slice_chars(raw.as_slice(), 0, raw.len() - 1)
                    } else {
                        raw
                    };
                    proof {
                        let kk = (k - pos) as int;
                        assert(rest.subrange(0, kk) =~= s@.subrange(pos as int, k as int));
                        assert(rest.subrange(kk + 1, rest.len() as int) =~= s@.subrange(k + 1, s@.len() as int));
                        if raw@.len() > 0 && raw@.last() == '\r' {
                            assert(l@ =~= raw@.drop_last());
                        }
                    }
                    (l, k + 1)
                },
                None => {
                    let l = rvs_slice_chars(s.as_slice(), pos, s.len());
                    proof {
                        assert(s@.subrange(s@.len() as int, s@.len() as int) =~= Seq::<char>::empty());
                    }
                    (l, s.len())
                },
            };
            proof {
                assert(spec_lines(rest) == seq![line@] + spec_lines(s@.subrange(next as int, s@.len() as int)));
                assert(done.push(line@) + spec_lines(s@.subrange(next as int, s@.len() as int)) =~= done + spec_lines(rest));
            }
            let trimmed = crate::text::rvs_trim(line.as_slice());
            let skipped = trimmed.len() == 0 || trimmed[0] == '#';
            let ghost before = map;
            if !skipped {
                match rvs_parse_record_line(trimmed.as_slice()) {
                    Some((path, info)) => {
                        map.rvs_insert_info_M(DefPath::rvs_from_chars(path), info);
                    },
                    None => {
                        proof {
                            assert(spec_lines(s@)[line_no as int] == line@);
                            assert forall|i: int| 0 <= i < line_no implies spec_line_ok(#[trigger] spec_lines(s@)[i]) by {
                                assert(spec_lines(s@)[i] == done[i]);
                            }
                            assert(!(forall|i: int| 0 <= i < spec_lines(s@).len() ==> spec_line_ok(#[trigger] spec_lines(s@)[i]))) by {
                                assert(!spec_line_ok(spec_lines(s@)[line_no as int]));
                            }
                        }
                        return Err(CapsMapError { line: line_no + 1 });
                    },
                }
            }
            proof {
                let nd = done.push(line@);
                assert forall|k: Seq<char>| #[trigger] map.spec_info(k) is Some
                    implies exists|i: int| 0 <= i < nd.len() && spec_line_gives(spec_trim(#[trigger] nd[i]), k, map.spec_info(k)->0) by {
                    if before.spec_info(k) is Some && map.spec_info(k) == before.spec_info(k) {
                        let i = choose|i: int| 0 <= i < done.len() && spec_line_gives(spec_trim(#[trigger] done[i]), k, before.spec_info(k)->0);
                        assert(nd[i] == done[i]);
                    } else {
                        assert(nd[nd.len() - 1] == line@);
                    }
                }
                assert(nd.drop_last() =~= done);
                assert(nd.last() == line@);
                assert forall|k: Seq<char>| #[trigger] map.spec_info(k) == spec_record_for(nd, k) by {}
                assert forall|i: int| 0 <= i < nd.len() implies spec_line_ok(#[trigger] nd[i]) by {
                    if i < done.len() {
                        assert(nd[i] == done[i]);
                    }
                }
                done = nd;
            }
            pos = next;
            line_no = line_no + 1;
        }
        proof {
            assert(s@.subrange(pos as int, s@.len() as int) =~= Seq::<char>::empty());
            assert(done + Seq::<Seq<char>>::empty() =~= done);
            assert(done == spec_lines(s@));
        }
        Ok(map)
    }
}
} // verus!
