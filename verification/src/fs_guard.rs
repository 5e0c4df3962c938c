//! Names and messages of atomic file replacement: the shape of the sibling
//! temporary files a write goes through, and how a failed write is reported.
use vstd::prelude::*;

use crate::capsfile::{rvs_decimal, spec_decimal};
use crate::text::{rvs_chars_of, rvs_ends_with, rvs_last_index_of, rvs_push_all, rvs_slice_chars, rvs_string_of,
    spec_ends_with, spec_is_digit, spec_last_index_of};

verus! {

/// A step of an atomic write that failed, with the paths involved and the
/// system's description of the error.
#[derive(Debug, Clone)]
pub enum AtomicWriteFailureKind {
    Inspect { path: String, source: String },
    Open { path: String, source: String },
    CreateExhausted,
    Write { path: String, source: String },
    SetPermissions { path: String, source: String },
    Sync { path: String, source: String },
    Rename { temp_path: String, final_path: String, source: String },
}

/// A failed atomic write and, when removing the temporary file failed too,
/// the description of that error.
#[derive(Debug, Clone)]
pub struct AtomicWriteFailure {
    pub kind: AtomicWriteFailureKind,
    pub cleanup_error: Option<String>,
}

/// A path as a failure message shows it: in single quotes, or bare.
pub open spec fn spec_format_atomic_write_path(path: Seq<char>, quote_paths: bool) -> Seq<char> {
    if quote_paths {
        "'"@ + path + "'"@
    } else {
        path
    }
}

/// Shows a path in a failure message.
pub fn rvs_format_atomic_write_path(path: &str, quote_paths: bool) -> (r: String)
    ensures
        r@ == spec_format_atomic_write_path(path@, quote_paths),
{
    if quote_paths {
        let mut out = rvs_chars_of("'");
        rvs_push_all(&mut out, rvs_chars_of(path).as_slice());
        rvs_push_all(&mut out, rvs_chars_of("'").as_slice());
        rvs_string_of(out.as_slice())
    } else {
        rvs_string_of(rvs_chars_of(path).as_slice())
    }
}

/// Every character is an ASCII digit.
pub open spec fn spec_all_digits(s: Seq<char>) -> bool {
    forall|i: int| 0 <= i < s.len() ==> spec_is_digit(#[trigger] s[i])
}

/// The name of a sibling temporary file of an atomic write:
/// `.<file name>.<process id>.<attempt>.tmp`, with a non-empty file name
/// and decimal process id and attempt.
pub open spec fn spec_is_atomic_sibling_temp_name(name: Seq<char>) -> bool {
    spec_ends_with(name, ".tmp"@) && {
        let w = name.subrange(0, name.len() - 4);
        match spec_last_index_of(w, '.') {
            None => false,
            Some(i) => {
                let attempt = w.subrange(i + 1, w.len() as int);
                let rest = w.subrange(0, i);
                match spec_last_index_of(rest, '.') {
                    None => false,
                    Some(j) => {
                        let file_name = rest.subrange(0, j);
                        let pid = rest.subrange(j + 1, rest.len() as int);
                        &&& file_name.len() > 1
                        &&& file_name[0] == '.'
                        &&& pid.len() > 0
                        &&& spec_all_digits(pid)
                        &&& attempt.len() > 0
                        &&& spec_all_digits(attempt)
                    },
                }
            },
        }
    }
}

fn rvs_all_digits(s: &[char]) -> (r: bool)
    ensures
        r == spec_all_digits(s@),
{
    let mut i: usize = 0;
    while i < s.len()
        invariant
            i <= s@.len(),
            forall|j: int| 0 <= j < i ==> spec_is_digit(#[trigger] s@[j]),
        decreases s.len() - i,
    {
        if !('0' <= s[i] && s[i] <= '9') {
            return false;
        }
        i = i + 1;
    }
    true
}

/// Whether a file name has the shape of a sibling temporary file of an
/// atomic write.
pub fn rvs_is_atomic_sibling_temp_name(name: &str) -> (r: bool)
    ensures
        r == spec_is_atomic_sibling_temp_name(name@),
{
    let n = rvs_chars_of(name);
    let tmp = rvs_chars_of(".tmp");
    if !rvs_ends_with(n.as_slice(), tmp.as_slice()) {
        return false;
    }
    proof {
        reveal_strlit(".tmp");
    }
    let w = rvs_slice_chars(n.as_slice(), 0, n.len() - 4);
    let i = match rvs_last_index_of(w.as_slice(), '.') {
        Some(i) => i,
        None => return false,
    };
    proof {
        crate::text::lemma_last_index_of(w@, '.');
    }
    let attempt = rvs_slice_chars(w.as_slice(), i + 1, w.len());
    let rest = rvs_slice_chars(w.as_slice(), 0, i);
    let j = match rvs_last_index_of(rest.as_slice(), '.') {
        Some(j) => j,
        None => return false,
    };
    proof {
        crate::text::lemma_last_index_of(rest@, '.');
    }
    let file_name = rvs_slice_chars(rest.as_slice(), 0, j);
    let pid = rvs_slice_chars(rest.as_slice(), j + 1, rest.len());
    file_name.len() > 1 && file_name[0] == '.' && pid.len() > 0 && rvs_all_digits(pid.as_slice())
        && attempt.len() > 0 && rvs_all_digits(attempt.as_slice())
}

/// The message of a failed step.
pub open spec fn spec_failure_message(kind: AtomicWriteFailureKind, final_path: Seq<char>, noun: Seq<char>, quote: bool) -> Seq<char> {
    match kind {
        AtomicWriteFailureKind::Inspect { path, source } =>
            "cannot inspect "@ + spec_format_atomic_write_path(path@, quote) + ": "@ + source@,
        AtomicWriteFailureKind::Open { path, source } =>
            "cannot create "@ + spec_format_atomic_write_path(path@, quote) + ": "@ + source@,
        AtomicWriteFailureKind::CreateExhausted =>
            "cannot create "@ + noun + " for "@ + spec_format_atomic_write_path(final_path, quote) + ": too many collisions"@,
        AtomicWriteFailureKind::Write { path, source } =>
            "cannot write "@ + spec_format_atomic_write_path(path@, quote) + ": "@ + source@,
        AtomicWriteFailureKind::SetPermissions { path, source } =>
            "cannot preserve permissions on "@ + spec_format_atomic_write_path(path@, quote) + ": "@ + source@,
        AtomicWriteFailureKind::Sync { path, source } =>
            "cannot sync "@ + spec_format_atomic_write_path(path@, quote) + ": "@ + source@,
        AtomicWriteFailureKind::Rename { temp_path, final_path, source } =>
            "cannot rename "@ + spec_format_atomic_write_path(temp_path@, quote) + " to "@
                + spec_format_atomic_write_path(final_path@, quote) + ": "@ + source@,
    }
}

/// The report of a failed atomic write: the failed step's message, followed
/// by the cleanup error when there is one.
pub open spec fn spec_render_atomic_write_failure(failure: AtomicWriteFailure, final_path: Seq<char>, noun: Seq<char>, quote: bool) -> Seq<char> {
    let message = spec_failure_message(failure.kind, final_path, noun, quote);
    match failure.cleanup_error {
        Some(e) => message + "; additionally cannot remove temp file: "@ + e@,
        None => message,
    }
}

fn rvs_push_str(out: &mut Vec<char>, s: &str)
    ensures
        final(out)@ == old(out)@ + s@,
{
    let c = rvs_chars_of(s);
    rvs_push_all(out, c.as_slice());
}

/// Renders a failed atomic write of `final_path`; `create_exhausted_noun`
/// names the temporary file when no free name was found.
pub fn rvs_render_atomic_write_failure(
    failure: AtomicWriteFailure,
    final_path: &str,
    create_exhausted_noun: &str,
    quote_paths: bool,
) -> (r: String)
    requires
        final_path@.len() > 0,
        create_exhausted_noun@.len() > 0,
    ensures
        r@ == spec_render_atomic_write_failure(failure, final_path@, create_exhausted_noun@, quote_paths),
{
    let mut out: Vec<char> = Vec::new();
    match &failure.kind {
        AtomicWriteFailureKind::Inspect { path, source } => {
            rvs_push_str(&mut out, "cannot inspect ");
            rvs_push_str(&mut out, rvs_format_atomic_write_path(path.as_str(), quote_paths).as_str());
            rvs_push_str(&mut out, ": ");
            rvs_push_str(&mut out, source.as_str());
        },
        AtomicWriteFailureKind::Open { path, source } => {
            rvs_push_str(&mut out, "cannot create ");
            rvs_push_str(&mut out, rvs_format_atomic_write_path(path.as_str(), quote_paths).as_str());
            rvs_push_str(&mut out, ": ");
            rvs_push_str(&mut out, source.as_str());
        },
        AtomicWriteFailureKind::CreateExhausted => {
            rvs_push_str(&mut out, "cannot create ");
            rvs_push_str(&mut out, create_exhausted_noun);
            rvs_push_str(&mut out, " for ");
            rvs_push_str(&mut out, rvs_format_atomic_write_path(final_path, quote_paths).as_str());
            rvs_push_str(&mut out, ": too many collisions");
        },
        AtomicWriteFailureKind::Write { path, source } => {
            rvs_push_str(&mut out, "cannot write ");
            rvs_push_str(&mut out, rvs_format_atomic_write_path(path.as_str(), quote_paths).as_str());
            rvs_push_str(&mut out, ": ");
            rvs_push_str(&mut out, source.as_str());
        },
        AtomicWriteFailureKind::SetPermissions { path, source } => {
            rvs_push_str(&mut out, "cannot preserve permissions on ");
            rvs_push_str(&mut out, rvs_format_atomic_write_path(path.as_str(), quote_paths).as_str());
            rvs_push_str(&mut out, ": ");
            rvs_push_str(&mut out, source.as_str());
        },
        AtomicWriteFailureKind::Sync { path, source } => {
            rvs_push_str(&mut out, "cannot sync ");
            rvs_push_str(&mut out, rvs_format_atomic_write_path(path.as_str(), quote_paths).as_str());
            rvs_push_str(&mut out, ": ");
            rvs_push_str(&mut out, source.as_str());
        },
        AtomicWriteFailureKind::Rename { temp_path, final_path, source } => {
            rvs_push_str(&mut out, "cannot rename ");
            rvs_push_str(&mut out, rvs_format_atomic_write_path(temp_path.as_str(), quote_paths).as_str());
            rvs_push_str(&mut out, " to ");
            rvs_push_str(&mut out, rvs_format_atomic_write_path(final_path.as_str(), quote_paths).as_str());
            rvs_push_str(&mut out, ": ");
            rvs_push_str(&mut out, source.as_str());
        },
    }
    proof {
        assert(out@ =~= spec_failure_message(failure.kind, final_path@, create_exhausted_noun@, quote_paths));
    }
    match &failure.cleanup_error {
        Some(e) => {
            rvs_push_str(&mut out, "; additionally cannot remove temp file: ");
            rvs_push_str(&mut out, e.as_str());
        },
        None => {},
    }
    rvs_string_of(out.as_slice())
}

/// The sibling temporary file name of an atomic write of `file_name` by
/// process `pid`, attempt `attempt`.
pub open spec fn spec_atomic_sibling_temp_name(file_name: Seq<char>, pid: nat, attempt: nat) -> Seq<char> {
    "."@ + file_name + "."@ + spec_decimal(pid) + "."@ + spec_decimal(attempt) + ".tmp"@
}

/// Names the sibling temporary file of an atomic write.
pub fn rvs_atomic_sibling_temp_name(file_name: &str, pid: u32, attempt: usize) -> (r: String)
    requires
        attempt < 100,
    ensures
        r@ == spec_atomic_sibling_temp_name(file_name@, pid as nat, attempt as nat),
{
    let mut out = rvs_chars_of(".");
    rvs_push_str(&mut out, file_name);
    rvs_push_str(&mut out, ".");
    rvs_push_all(&mut out, rvs_decimal(pid as usize).as_slice());
    rvs_push_str(&mut out, ".");
    rvs_push_all(&mut out, rvs_decimal(attempt).as_slice());
    rvs_push_str(&mut out, ".tmp");
    rvs_string_of(out.as_slice())
}

proof fn lemma_decimal_digits(n: nat)
    ensures
        spec_decimal(n).len() > 0,
        spec_all_digits(spec_decimal(n)),
        !spec_decimal(n).contains('.'),
    decreases n,
{
    if n >= 10 {
        lemma_decimal_digits(n / 10);
        let d = spec_decimal(n / 10) + seq![crate::capsfile::spec_digit(n % 10)];
        assert(spec_decimal(n) == d);
        assert forall|i: int| 0 <= i < d.len() implies spec_is_digit(#[trigger] d[i]) by {
            if i < d.len() - 1 {
                assert(d[i] == spec_decimal(n / 10)[i]);
            }
        }
        if d.contains('.') {
            let i = choose|i: int| 0 <= i < d.len() && d[i] == '.';
            assert(spec_is_digit(d[i]));
        }
    }
}

proof fn lemma_last_dot_before_digits(prefix: Seq<char>, digits: Seq<char>)
    requires
        !digits.contains('.'),
    ensures
        spec_last_index_of(prefix + "."@ + digits, '.') == Some(prefix.len() as int),
    decreases digits.len(),
{
    reveal_strlit(".");
    let s = prefix + "."@ + digits;
    if digits.len() == 0 {
        assert(s.last() == '.');
    } else {
        assert(s.last() == digits.last());
        assert(digits.contains(digits.last()) ) by {
            assert(digits[digits.len() - 1] == digits.last());
        }
        assert(s.drop_last() =~= prefix + "."@ + digits.drop_last());
        assert(!digits.drop_last().contains('.')) by {
            if digits.drop_last().contains('.') {
                let i = choose|i: int| 0 <= i < digits.drop_last().len() && digits.drop_last()[i] == '.';
                assert(digits[i] == '.');
            }
        }
        lemma_last_dot_before_digits(prefix, digits.drop_last());
    }
}

/// Every sibling temporary file name of a non-empty file name has the
/// temporary shape, so no such name is mistaken for a real layer.
pub proof fn lemma_sibling_temp_name_is_recognized(file_name: Seq<char>, pid: nat, attempt: nat)
    requires
        file_name.len() > 0,
    ensures
        spec_is_atomic_sibling_temp_name(spec_atomic_sibling_temp_name(file_name, pid, attempt)),
{
    reveal_strlit(".");
    reveal_strlit(".tmp");
    let p = spec_decimal(pid);
    let a = spec_decimal(attempt);
    lemma_decimal_digits(pid);
    lemma_decimal_digits(attempt);
    let front = "."@ + file_name;
    let rest = front + "."@ + p;
    let w = rest + "."@ + a;
    let name = spec_atomic_sibling_temp_name(file_name, pid, attempt);
    assert(name =~= w + ".tmp"@);
    assert(name.subrange(0, name.len() - 4) =~= w);
    assert(name.subrange(name.len() - 4, name.len() as int) =~= ".tmp"@);
    lemma_last_dot_before_digits(rest, a);
    lemma_last_dot_before_digits(front, p);
    assert(w.subrange(rest.len() as int + 1, w.len() as int) =~= a);
    assert(w.subrange(0, rest.len() as int) =~= rest);
    assert(rest.subrange(0, front.len() as int) =~= front);
    assert(rest.subrange(front.len() as int + 1, rest.len() as int) =~= p);
}

} // verus!
