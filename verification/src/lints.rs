//! The plain-value parts of the compiler lint pass: the behaviour record it
//! keeps per function, the lists of calls it looks for, and the line scanner
//! that counts effective code.
use vstd::prelude::*;

use crate::text::{lemma_last_pair_bounds, rvs_chars_of, rvs_last_pair, rvs_slice_chars, rvs_starts_with, rvs_string_of,
    spec_is_alnum, spec_is_digit, spec_last_pair, spec_starts_with};

verus! {

/// What the lint pass records of one function's behaviour.  `calls` holds
/// each callee path once, in ascending order.
#[derive(Debug, Clone)]
pub struct FnBehavior {
    pub calls: Vec<String>,
    pub has_async: bool,
    pub has_unsafe_block: bool,
    pub is_unsafe_fn: bool,
    pub has_mut_param: bool,
    pub has_static_ref: bool,
    pub has_static_mut_ref: bool,
    pub has_thread_local_ref: bool,
    pub is_trait_impl: bool,
}

/// The definition paths of the functions that spawn a thread or task.
pub open spec fn spec_spawn_functions() -> Seq<Seq<char>> {
    seq![
        "tokio::runtime::spawn"@,
        "tokio::task::spawn"@,
        "tokio::task::spawn_blocking"@,
        "tokio::task::spawn_local"@,
        "std::thread::functions::spawn"@,
        "std::thread::builder::spawn"@,
        "std::thread::builder::spawn_unchecked"@,
        "std::thread::lifecycle::spawn_unchecked"@,
        "async_std::task::spawn"@,
        "async_std::task::spawn_blocking"@,
        "smol::spawn"@,
    ]
}

/// The spawning functions are exactly the thread and task spawners of std,
/// tokio, async-std and smol, by their definition paths.
pub proof fn lemma_spawn_functions_are_the_spawners(p: Seq<char>)
    ensures
        spec_spawn_functions().contains(p) <==> (p == "tokio::runtime::spawn"@ || p == "tokio::task::spawn"@
            || p == "tokio::task::spawn_blocking"@ || p == "tokio::task::spawn_local"@
            || p == "std::thread::functions::spawn"@ || p == "std::thread::builder::spawn"@
            || p == "std::thread::builder::spawn_unchecked"@ || p == "std::thread::lifecycle::spawn_unchecked"@
            || p == "async_std::task::spawn"@ || p == "async_std::task::spawn_blocking"@ || p == "smol::spawn"@),
{
    let l = spec_spawn_functions();
    if l.contains(p) {
        let i = choose|i: int| 0 <= i < l.len() && l[i] == p;
        assert(l[i] == p);
    } else {
        assert(l[0] == "tokio::runtime::spawn"@);
        assert(l[1] == "tokio::task::spawn"@);
        assert(l[2] == "tokio::task::spawn_blocking"@);
        assert(l[3] == "tokio::task::spawn_local"@);
        assert(l[4] == "std::thread::functions::spawn"@);
        assert(l[5] == "std::thread::builder::spawn"@);
        assert(l[6] == "std::thread::builder::spawn_unchecked"@);
        assert(l[7] == "std::thread::lifecycle::spawn_unchecked"@);
        assert(l[8] == "async_std::task::spawn"@);
        assert(l[9] == "async_std::task::spawn_blocking"@);
        assert(l[10] == "smol::spawn"@);
    }
}

/// The definition paths of the reflection functions.
pub open spec fn spec_reflection_functions() -> Seq<Seq<char>> {
    seq!["std::any::type_name"@, "std::any::type_id"@, "core::any::Any::type_id"@]
}

fn rvs_spawn_functions() -> (r: Vec<Vec<char>>)
    ensures
        r@.len() == spec_spawn_functions().len(),
        forall|i: int| 0 <= i < r@.len() ==> #[trigger] r@[i]@ == spec_spawn_functions()[i],
{
    let mut r: Vec<Vec<char>> = Vec::new();
    r.push(rvs_chars_of("tokio::runtime::spawn"));
    r.push(rvs_chars_of("tokio::task::spawn"));
    r.push(rvs_chars_of("tokio::task::spawn_blocking"));
    r.push(rvs_chars_of("tokio::task::spawn_local"));
    r.push(rvs_chars_of("std::thread::functions::spawn"));
    r.push(rvs_chars_of("std::thread::builder::spawn"));
    r.push(rvs_chars_of("std::thread::builder::spawn_unchecked"));
    r.push(rvs_chars_of("std::thread::lifecycle::spawn_unchecked"));
    r.push(rvs_chars_of("async_std::task::spawn"));
    r.push(rvs_chars_of("async_std::task::spawn_blocking"));
    r.push(rvs_chars_of("smol::spawn"));
    r
}

fn rvs_reflection_functions() -> (r: Vec<Vec<char>>)
    ensures
        r@.len() == spec_reflection_functions().len(),
        forall|i: int| 0 <= i < r@.len() ==> #[trigger] r@[i]@ == spec_reflection_functions()[i],
{
    let mut r: Vec<Vec<char>> = Vec::new();
    r.push(rvs_chars_of("std::any::type_name"));
    r.push(rvs_chars_of("std::any::type_id"));
    r.push(rvs_chars_of("core::any::Any::type_id"));
    r
}

/// Whether `path` is one of `list`, exactly.
fn rvs_is_one_of(path: &[char], list: &Vec<Vec<char>>) -> (r: bool)
    ensures
        r == exists|i: int| 0 <= i < list@.len() && #[trigger] list@[i]@ == path@,
{
    let mut i: usize = 0;
    while i < list.len()
        invariant
            i <= list@.len(),
            forall|j: int| 0 <= j < i ==> #[trigger] list@[j]@ != path@,
        decreases list@.len() - i,
    {
        if crate::text::rvs_chars_eq(list[i].as_slice(), path) {
            return true;
        }
        i = i + 1;
    }
    false
}

/// Whether `path` is exactly the definition path of a spawning function.
#[allow(non_snake_case)]
pub fn rvs_is_spawn_S(path: &str) -> (r: bool)
    ensures
        r == spec_spawn_functions().contains(path@),
{
    let list = rvs_spawn_functions();
    let p = rvs_chars_of(path);
    let r = rvs_is_one_of(p.as_slice(), &list);
    proof {
        if r {
            let i = choose|i: int| 0 <= i < list@.len() && #[trigger] list@[i]@ == p@;
            assert(spec_spawn_functions()[i] == path@);
        }
        if spec_spawn_functions().contains(path@) {
            let i = choose|i: int| 0 <= i < spec_spawn_functions().len() && spec_spawn_functions()[i] == path@;
            assert(list@[i]@ == p@);
        }
    }
    r
}

/// Whether `path` is exactly the definition path of a reflection function.
#[allow(non_snake_case)]
pub fn rvs_is_reflection_S(path: &str) -> (r: bool)
    ensures
        r == spec_reflection_functions().contains(path@),
{
    let list = rvs_reflection_functions();
    let p = rvs_chars_of(path);
    let r = rvs_is_one_of(p.as_slice(), &list);
    proof {
        if r {
            let i = choose|i: int| 0 <= i < list@.len() && #[trigger] list@[i]@ == p@;
            assert(spec_reflection_functions()[i] == path@);
        }
        if spec_reflection_functions().contains(path@) {
            let i = choose|i: int| 0 <= i < spec_reflection_functions().len() && spec_reflection_functions()[i] == path@;
            assert(list@[i]@ == p@);
        }
    }
    r
}

/// Characters that do not make a line count as code.
pub open spec fn spec_is_blank(c: char) -> bool {
    c == ' ' || c == '\t' || c == '\r' || c == '\n'
}

/// The rest of a string literal's scan from `i`: the index just past its
/// closing quote (or the end of the line); a backslash skips the next
/// character.
pub open spec fn spec_skip_string(s: Seq<char>, i: int) -> int
    decreases s.len() + 2 - i,
{
    if i >= s.len() {
        s.len() as int
    } else if s[i] == '\\' {
        spec_skip_string(s, i + 2)
    } else if s[i] == '"' {
        i + 1
    } else {
        spec_skip_string(s, i + 1)
    }
}

/// Scanning a line from `i` in the given comment state: whether code
/// appears from there on, and the comment state at the end of the line.
/// Inside a block comment only `*/` matters; outside, `/*` opens one, `//`
/// ends the line, a string literal counts as code and so does any character
/// that is not blank.
pub open spec fn spec_scan(s: Seq<char>, i: int, in_comment: bool) -> (bool, bool)
    decreases s.len() - i,
{
    if i >= s.len() {
        (false, in_comment)
    } else if in_comment {
        if i + 1 < s.len() && s[i] == '*' && s[i + 1] == '/' {
            spec_scan(s, i + 2, false)
        } else {
            spec_scan(s, i + 1, true)
        }
    } else if i + 1 < s.len() && s[i] == '/' && s[i + 1] == '*' {
        spec_scan(s, i + 2, true)
    } else if s[i] == '"' {
        let j = spec_skip_string(s, i + 1);
        proof {
            lemma_skip_string_ahead(s, i + 1);
        }
        if j > i {
            (true, spec_scan(s, j, false).1)
        } else {
            (true, false)
        }
    } else if i + 1 < s.len() && s[i] == '/' && s[i + 1] == '/' {
        (false, false)
    } else {
        let rest = spec_scan(s, i + 1, false);
        (rest.0 || !spec_is_blank(s[i]), rest.1)
    }
}

pub proof fn lemma_skip_string_ahead(s: Seq<char>, i: int)
    requires
        i <= s.len(),
    ensures
        i <= spec_skip_string(s, i) <= s.len(),
    decreases s.len() + 2 - i,
{
    if i < s.len() {
        if s[i] == '\\' {
            if i + 2 <= s.len() {
                lemma_skip_string_ahead(s, i + 2);
            } else {
                assert(spec_skip_string(s, i + 2) == s.len());
            }
        } else if s[i] != '"' {
            lemma_skip_string_ahead(s, i + 1);
        }
    }
}

fn rvs_skip_string(s: &[char], start: usize) -> (r: usize)
    requires
        start <= s@.len(),
    ensures
        r as int == spec_skip_string(s@, start as int),
{
    let mut i: usize = start;
    while i < s.len()
        invariant
            start <= i <= s@.len(),
            spec_skip_string(s@, start as int) == spec_skip_string(s@, i as int),
        decreases s@.len() - i,
    {
        if s[i] == '\\' {
            if i + 1 >= s.len() {
                proof {
                    assert(spec_skip_string(s@, i + 2) == s@.len());
                }
                return s.len();
            }
            i = i + 2;
            continue;
        }
        if s[i] == '"' {
            return i + 1;
        }
        i = i + 1;
    }
    i
}

/// Whether a line holds effective code, updating the block comment state
/// that carries over from the previous line.
#[allow(non_snake_case)]
pub fn rvs_line_has_effective_code_M(line: &str, in_comment: &mut bool) -> (r: bool)
    ensures
        (r, *final(in_comment)) == spec_scan(line@, 0, *old(in_comment)),
{
    let s = rvs_chars_of(line);
    let len = s.len();
    let mut i: usize = 0;
    let mut has_code = false;
    let ghost start_state = *in_comment;
    while i < len
        invariant
            len == s@.len(),
            s@ == line@,
            i <= len,
            spec_scan(s@, 0, start_state) == (has_code || spec_scan(s@, i as int, *in_comment).0, spec_scan(s@, i as int, *in_comment).1),
        decreases len - i,
    {
        if *in_comment {
            if i + 1 < len && s[i] == '*' && s[i + 1] == '/' {
                *in_comment = false;
                i = i + 2;
                continue;
            }
            i = i + 1;
            continue;
        }
        if i + 1 < len && s[i] == '/' && s[i + 1] == '*' {
            *in_comment = true;
            i = i + 2;
            continue;
        }
        if s[i] == '"' {
            has_code = true;
            let j = rvs_skip_string(s.as_slice(), i + 1);
            proof {
                lemma_skip_string_ahead(s@, i + 1);
            }
            i = j;
            continue;
        }
        if i + 1 < len && s[i] == '/' && s[i + 1] == '/' {
            proof {
                assert(spec_scan(s@, i as int, false) == (false, false));
            }
            i = len;
            continue;
        }
        if !(s[i] == ' ' || s[i] == '\t' || s[i] == '\r' || s[i] == '\n') {
            has_code = true;
        }
        i = i + 1;
    }
    has_code
}

/// The number of bytes a character takes in UTF-8.
pub open spec fn spec_utf8_len(c: char) -> nat {
    if (c as u32) < 0x80 {
        1
    } else if (c as u32) < 0x800 {
        2
    } else if (c as u32) < 0x10000 {
        3
    } else {
        4
    }
}

/// The number of bytes a string takes in UTF-8.
pub open spec fn spec_byte_len(s: Seq<char>) -> nat
    decreases s.len(),
{
    if s.len() == 0 {
        0
    } else {
        spec_byte_len(s.drop_last()) + spec_utf8_len(s.last())
    }
}

/// Byte offset `b` of `s` starts a character (or is its end).
pub open spec fn spec_is_char_boundary(s: Seq<char>, b: nat) -> bool {
    exists|k: int| 0 <= k <= s.len() && #[trigger] spec_byte_len(s.take(k)) == b
}

/// A test name of the checked shape `test_<8 digits>_<letters, digits and
/// underscores>`, with at least one character after the second underscore.
pub open spec fn spec_valid_test(n: Seq<char>) -> bool {
    &&& spec_starts_with(n, "test_"@)
    &&& {
        let r = n.subrange(5, n.len() as int);
        &&& r.len() >= 10
        &&& forall|i: int| 0 <= i < 8 ==> spec_is_digit(#[trigger] r[i])
        &&& r[8] == '_'
        &&& forall|i: int| 9 <= i < r.len() ==> spec_is_alnum(#[trigger] r[i]) || r[i] == '_'
    }
}

/// Whether a test function's name has the checked shape. Names whose part
/// after `test_` is longer than nine bytes must have a character boundary
/// at byte eight of that part.
pub fn rvs_valid_test(n: &str) -> (valid: bool)
    requires
        spec_starts_with(n@, "test_"@) && spec_byte_len(n@.subrange(5, n@.len() as int)) > 9
            ==> spec_is_char_boundary(n@.subrange(5, n@.len() as int), 8),
    ensures
        valid == spec_valid_test(n@),
{
    let chars = rvs_chars_of(n);
    let prefix = rvs_chars_of("test_");
    if !rvs_starts_with(chars.as_slice(), prefix.as_slice()) {
        return false;
    }
    proof {
        reveal_strlit("test_");
    }
    let rest = rvs_slice_chars(chars.as_slice(), 5, chars.len());
    assert(rest@ == n@.subrange(5, n@.len() as int));
    if rest.len() < 10 {
        return false;
    }
    let mut i: usize = 0;
    while i < 8
        invariant
            i <= 8,
            rest@.len() >= 10,
            spec_starts_with(n@, "test_"@),
            rest@ == n@.subrange(5, n@.len() as int),
            forall|j: int| 0 <= j < i ==> spec_is_digit(#[trigger] rest@[j]),
        decreases 8 - i,
    {
        if !('0' <= rest[i] && rest[i] <= '9') {
            assert(!spec_is_digit(rest@[i as int]));
            return false;
        }
        i = i + 1;
    }
    if rest[8] != '_' {
        return false;
    }
    let mut k: usize = 9;
    while k < rest.len()
        invariant
            9 <= k <= rest@.len(),
            spec_starts_with(n@, "test_"@),
            rest@ == n@.subrange(5, n@.len() as int),
            forall|j: int| 0 <= j < 8 ==> spec_is_digit(#[trigger] rest@[j]),
            rest@[8] == '_',
            forall|j: int| 9 <= j < k ==> spec_is_alnum(#[trigger] rest@[j]) || rest@[j] == '_',
        decreases rest.len() - k,
    {
        let c = rest[k];
        if !(('A' <= c && c <= 'Z') || ('a' <= c && c <= 'z') || ('0' <= c && c <= '9') || c == '_') {
            assert(!(spec_is_alnum(rest@[k as int]) || rest@[k as int] == '_'));
            return false;
        }
        k = k + 1;
    }
    true
}

/// The part of a call path after its last `::`, or the whole path.
pub open spec fn spec_unresolved_call_name(path: Seq<char>) -> Seq<char> {
    match spec_last_pair(path, ':', ':') {
        Some(i) => path.subrange(i + 2, path.len() as int),
        None => path,
    }
}

/// The short name of a call the compiler could not resolve: the last
/// segment of its path.
pub fn rvs_unresolved_call_name(path: &str) -> (r: String)
    ensures
        r@ == spec_unresolved_call_name(path@),
{
    let p = rvs_chars_of(path);
    proof {
        lemma_last_pair_bounds(p@, ':', ':');
    }
    match rvs_last_pair(p.as_slice(), ':', ':') {
        Some(i) => {
            assert(i + 2 <= p@.len());
            let len = p.len();
            assert(i + 2 <= len);
            let start: usize = i + 2;
            rvs_string_of(rvs_slice_chars(p.as_slice(), start, p.len()).as_slice())
        },
        None => rvs_string_of(p.as_slice()),
    }
}

} // verus!
