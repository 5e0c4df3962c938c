//! What the source scanner records of a file: functions, calls, imports,
//! tests and the findings of the source-level checks, and the two checks
//! that work on that record or on plain text (reflection calls and
//! `TODO`/`FIXME` comments).
use vstd::prelude::*;

use crate::body_scan::spec_stub_rows;
use crate::capability::CapabilitySet;
use crate::item_scan::{
    rvs_collect_static_decls_from_items, rvs_allows_non_snake_case, rvs_extract_from_items, spec_allows_non_snake_case,
    spec_defs_match, spec_items_lines_ok, spec_items_picks, spec_items_static_decls,
};
use crate::source_checks::{
    rvs_collect_borrowed_params_from_items, rvs_collect_consumed_arg_on_error_from_items,
    rvs_collect_deref_polymorphism_from_items, rvs_collect_empty_fns_from_items, rvs_collect_imports_from_items,
    rvs_collect_into_impls_from_items, rvs_collect_missing_debug_from_items, rvs_collect_missing_panics_doc_from_items,
    rvs_collect_non_rvs_fns_from_items, rvs_collect_pub_items_from_items, rvs_collect_stub_macros_from_items,
    rvs_collect_tests_from_items, rvs_collect_unsafe_fns_from_items, rvs_find_deny_warnings, spec_borrowed_rows,
    spec_consumed_rows, spec_deref_rows, spec_empty_rows, spec_find_deny_warnings, spec_import_rows, spec_into_rows,
    spec_items_borrowed, spec_items_consumed, spec_items_deref, spec_items_empty, spec_items_imports, spec_items_into,
    spec_items_lines_named, spec_items_nodebug, spec_items_nonrvs, spec_items_panicdoc, spec_items_pubs,
    spec_items_stubs, spec_items_tests, spec_items_unsafes, spec_nodebug_rows, spec_nonrvs_rows, spec_panicdoc_rows,
    spec_pubs_rows, spec_test_rows, spec_unsafes_rows,
};
use crate::syntax::SourceFile;
use crate::text::{
    rvs_chars_of, rvs_ends_with, rvs_find_char_from, rvs_slice_chars, rvs_starts_with,
    rvs_string_of, rvs_trim, rvs_trim_end_char, rvs_trim_start, spec_ends_with,
    lemma_first_index_of, spec_first_index_of, spec_lines, spec_starts_with, spec_strip_cr, spec_trim,
    spec_trim_end_char, spec_trim_start,
};

verus! {

/// A call found in a function body: the callee's path and its line.
#[derive(Debug, Clone)]
pub struct CalleeInfo {
    pub name: String,
    pub line: usize,
}

/// A use of a declared static: its name, the capabilities it requires and
/// its line.
#[derive(Debug, Clone)]
pub struct StaticRef {
    pub name: String,
    pub required_caps: CapabilitySet,
    pub line: usize,
}

/// The rough kind of a parameter's type.
#[derive(Debug, Clone, Copy, PartialEq, Eq, Structural)]
pub enum ParamType {
    PrimitiveNumeric,
    Other,
}

/// A parameter's name and type kind.
#[derive(Debug, Clone)]
pub struct ParamInfo {
    pub name: String,
    pub ty: ParamType,
}

/// Everything recorded of one function.  `debug_asserted_params` holds each
/// name once, in ascending order.
#[derive(Debug, Clone)]
pub struct FnDef {
    pub name: String,
    pub capabilities: CapabilitySet,
    pub calls: Vec<CalleeInfo>,
    pub static_refs: Vec<StaticRef>,
    pub line: usize,
    pub line_count: usize,
    pub params: Vec<ParamInfo>,
    pub debug_asserted_params: Vec<String>,
    pub has_body: bool,
    pub has_unsafe_block: bool,
    pub is_async_fn: bool,
    pub is_unsafe_fn: bool,
    pub has_mut_param: bool,
    pub has_mut_self: bool,
    pub has_panic_macro: bool,
    pub raw_suffix: String,
    pub is_test: bool,
    pub allows_dead_code: bool,
    pub has_allow_non_snake_case: bool,
}

/// A `#[test]` function: its name and line.
#[derive(Debug, Clone)]
pub struct TestName {
    pub name: String,
    pub line: usize,
}

/// A `use` path and its line.
#[derive(Debug, Clone)]
pub struct ImportInfo {
    pub use_path: String,
    pub line: usize,
}

/// A function without the `rvs_` prefix.
#[derive(Debug, Clone)]
pub struct NonRvsFnInfo {
    pub name: String,
    pub line: usize,
    pub has_rvs_prefix: bool,
}

/// A public item and whether it carries documentation.
#[derive(Debug, Clone)]
pub struct PubItemInfo {
    pub name: String,
    pub line: usize,
    pub has_doc: bool,
}

/// A parameter borrowed as `&String`, `&Vec<T>` or `&Box<T>`, with the type
/// that should replace it.
#[derive(Debug, Clone)]
pub struct BorrowedParamInfo {
    pub function: String,
    pub param: String,
    pub original: String,
    pub suggestion: String,
    pub line: usize,
}

/// An `unsafe fn` and whether it documents its safety conditions.
#[derive(Debug, Clone)]
pub struct UnsafeFnInfo {
    pub name: String,
    pub line: usize,
    pub has_safety_doc: bool,
}

/// A public type without `#[derive(Debug)]`.
#[derive(Debug, Clone)]
pub struct MissingDebugInfo {
    pub name: String,
    pub line: usize,
}

/// An `rvs_` function marked `P` without a `# Panics` section.
#[derive(Debug, Clone)]
pub struct MissingPanicsDocInfo {
    pub function: String,
    pub line: usize,
}

/// An `impl Into<T>` written where `impl From` belongs.
#[derive(Debug, Clone)]
pub struct IntoImplInfo {
    pub impl_type: String,
    pub target_type: String,
    pub line: usize,
}

/// A function returning `Result<(), E>` that consumes an argument its error
/// does not hand back.
#[derive(Debug, Clone)]
pub struct ConsumedArgOnErrorInfo {
    pub function: String,
    pub param: String,
    pub param_type: String,
    pub line: usize,
}

/// An `impl Deref` on a type that is no smart pointer.
#[derive(Debug, Clone)]
pub struct DerefPolymorphismInfo {
    pub impl_type: String,
    pub target_type: String,
    pub line: usize,
}

/// A call of a reflection API: the calling function, the called path and the
/// line.
#[derive(Debug, Clone)]
pub struct ReflectionUsageInfo {
    pub function: String,
    pub path: String,
    pub line: usize,
}

/// A `todo!()` or `unimplemented!()` stub.
#[derive(Debug, Clone)]
pub struct StubMacroInfo {
    pub function: String,
    pub macro_name: String,
    pub line: usize,
}

/// A function whose body holds nothing but debug assertions.
#[derive(Debug, Clone)]
pub struct EmptyFnInfo {
    pub function: String,
    pub line: usize,
}

/// A `TODO` or `FIXME` comment: its marker, the text after it and its line.
#[derive(Debug, Clone)]
pub struct TodoCommentInfo {
    pub kind: String,
    pub text: String,
    pub line: usize,
}

/// Why a source file could not be scanned.
#[derive(Debug, Clone)]
pub enum ExtractError {
    Parse { message: String },
}

impl ExtractError {
    /// The error as it is shown: `parse error: <message>`.
    pub fn rvs_message(&self) -> (r: String)
        ensures
            match self {
                ExtractError::Parse { message } => r@ == "parse error: "@ + message@,
            },
    {
        match self {
            ExtractError::Parse { message } => {
                let mut out = rvs_chars_of("parse error: ");
                let m = rvs_chars_of(message.as_str());
                let mut i: usize = 0;
                let ghost start = out@;
                while i < m.len()
                    invariant
                        i <= m@.len(),
                        out@ == start + m@.subrange(0, i as int),
                    decreases m@.len() - i,
                {
                    out.push(m[i]);
                    i = i + 1;
                    assert(out@ =~= start + m@.subrange(0, i as int));
                }
                assert(m@.subrange(0, m@.len() as int) =~= m@);
                rvs_string_of(out.as_slice())
            },
        }
    }
}

/// The reflection paths a call may name, in the order they are tried.
pub open spec fn spec_reflection_paths() -> Seq<Seq<char>> {
    seq![
        "std::any::Any"@,
        "std::any::type_name"@,
        "std::any::type_id"@,
        "any::Any"@,
        "any::type_name"@,
        "any::type_id"@,
    ]
}

/// A call names a reflection path: the path itself, or any path ending in
/// `::` and the path.
pub open spec fn spec_is_reflection_call(name: Seq<char>) -> bool {
    exists|i: int| 0 <= i < spec_reflection_paths().len() && (name == #[trigger] spec_reflection_paths()[i]
        || spec_ends_with(name, seq![':', ':'] + spec_reflection_paths()[i]))
}

/// A suffix of a suffix is a suffix.
proof fn lemma_ends_with_trans(s: Seq<char>, a: Seq<char>, b: Seq<char>)
    requires
        spec_ends_with(s, a),
        spec_ends_with(a, b),
    ensures
        spec_ends_with(s, b),
{
    assert(s.subrange(s.len() - b.len(), s.len() as int) =~= a.subrange(a.len() - b.len(), a.len() as int));
}

/// The reflection calls are exactly the calls of `any::Any`,
/// `any::type_name` or `any::type_id`, written alone or at the end of a
/// longer path (`std::any::type_name`, `core::any::type_name`, ...).
pub proof fn lemma_reflection_calls_are_any_paths(name: Seq<char>)
    ensures
        spec_is_reflection_call(name) <==> (name == "any::Any"@ || name == "any::type_name"@ || name == "any::type_id"@
            || spec_ends_with(name, "::any::Any"@) || spec_ends_with(name, "::any::type_name"@)
            || spec_ends_with(name, "::any::type_id"@)),
{
    reveal_strlit("std::any::Any");
    reveal_strlit("std::any::type_name");
    reveal_strlit("std::any::type_id");
    reveal_strlit("any::Any");
    reveal_strlit("any::type_name");
    reveal_strlit("any::type_id");
    reveal_strlit("::any::Any");
    reveal_strlit("::any::type_name");
    reveal_strlit("::any::type_id");
    let ps = spec_reflection_paths();
    let short = seq!["any::Any"@, "any::type_name"@, "any::type_id"@];
    let long = seq!["::any::Any"@, "::any::type_name"@, "::any::type_id"@];
    assert forall|k: int| 0 <= k < 3 implies #[trigger] long[k] == seq![':', ':'] + short[k]
        && ps[k] == seq!['s', 't', 'd'] + long[k] && ps[k + 3] == short[k]
        && spec_ends_with(ps[k], long[k]) by {
        assert(long[k] =~= seq![':', ':'] + short[k]);
        assert(ps[k] =~= seq!['s', 't', 'd'] + long[k]);
        assert(ps[k].subrange(ps[k].len() - long[k].len(), ps[k].len() as int) =~= long[k]);
    }
    if spec_is_reflection_call(name) {
        let i = choose|i: int| 0 <= i < ps.len() && (name == #[trigger] ps[i] || spec_ends_with(name, seq![':', ':'] + ps[i]));
        if i < 3 {
            assert(long[i] == seq![':', ':'] + short[i]);
            if name == ps[i] {
                assert(spec_ends_with(name, long[i]));
            } else {
                let full = seq![':', ':'] + ps[i];
                assert(spec_ends_with(full, ps[i])) by {
                    assert(full.subrange(full.len() - ps[i].len(), full.len() as int) =~= ps[i]);
                }
                lemma_ends_with_trans(name, full, ps[i]);
                lemma_ends_with_trans(name, ps[i], long[i]);
            }
            assert(spec_ends_with(name, long[i]));
        } else {
            assert(long[i - 3] == seq![':', ':'] + short[i - 3]);
            assert(ps[i] == short[i - 3]);
        }
    } else {
        assert forall|k: int| 0 <= k < 3 implies name != #[trigger] short[k] && !spec_ends_with(name, long[k]) by {
            assert(ps[k + 3] == short[k]);
            assert(long[k] == seq![':', ':'] + ps[k + 3]);
            if name == short[k] {
                assert(name == ps[k + 3]);
            }
            if spec_ends_with(name, long[k]) {
                assert(spec_ends_with(name, seq![':', ':'] + ps[k + 3]));
            }
        }
        assert(name != short[0] && name != short[1] && name != short[2]);
        assert(!spec_ends_with(name, long[0]) && !spec_ends_with(name, long[1]) && !spec_ends_with(name, long[2]));
    }
}

fn rvs_reflection_paths() -> (r: Vec<Vec<char>>)
    ensures
        r@.len() == spec_reflection_paths().len(),
        forall|i: int| 0 <= i < r@.len() ==> #[trigger] r@[i]@ == spec_reflection_paths()[i],
{
    let mut r: Vec<Vec<char>> = Vec::new();
    r.push(rvs_chars_of("std::any::Any"));
    r.push(rvs_chars_of("std::any::type_name"));
    r.push(rvs_chars_of("std::any::type_id"));
    r.push(rvs_chars_of("any::Any"));
    r.push(rvs_chars_of("any::type_name"));
    r.push(rvs_chars_of("any::type_id"));
    r
}

/// Whether a call names a reflection path.
pub fn rvs_is_reflection_call(name: &[char]) -> (r: bool)
    ensures
        r == spec_is_reflection_call(name@),
{
    let paths = rvs_reflection_paths();
    let mut i: usize = 0;
    while i < paths.len()
        invariant
            i <= paths@.len(),
            paths@.len() == spec_reflection_paths().len(),
            forall|j: int| 0 <= j < paths@.len() ==> #[trigger] paths@[j]@ == spec_reflection_paths()[j],
            forall|j: int| 0 <= j < i ==> !(name@ == #[trigger] spec_reflection_paths()[j]
                || spec_ends_with(name@, seq![':', ':'] + spec_reflection_paths()[j])),
        decreases paths@.len() - i,
    {
        let mut suffix: Vec<char> = Vec::new();
        suffix.push(':');
        suffix.push(':');
        let rp = &paths[i];
        let mut q: usize = 0;
        while q < rp.len()
            invariant
                q <= rp@.len(),
                suffix@ == seq![':', ':'] + rp@.subrange(0, q as int),
            decreases rp@.len() - q,
        {
            suffix.push(rp[q]);
            q = q + 1;
            assert(suffix@ =~= seq![':', ':'] + rp@.subrange(0, q as int));
        }
        assert(rp@.subrange(0, rp@.len() as int) =~= rp@);
        let exact = name.len() == rp.len() && rvs_starts_with(name, rp.as_slice());
        if exact || rvs_ends_with(name, suffix.as_slice()) {
            proof {
                if exact {
                    assert(name@ =~= rp@.subrange(0, rp@.len() as int));
                }
                assert(name@ == spec_reflection_paths()[i as int]
                    || spec_ends_with(name@, seq![':', ':'] + spec_reflection_paths()[i as int]));
            }
            return true;
        }
        proof {
            if name@ == spec_reflection_paths()[i as int] {
                assert(name@.subrange(0, rp@.len() as int) =~= name@);
            }
        }
        i = i + 1;
    }
    false
}

/// A reflection finding as plain values: function, path, line.
pub open spec fn spec_usage_row(u: ReflectionUsageInfo) -> (Seq<char>, Seq<char>, usize) {
    (u.function@, u.path@, u.line)
}

/// The reflection findings of one function's calls, in call order.
pub open spec fn spec_call_usages(function: Seq<char>, calls: Seq<CalleeInfo>) -> Seq<(Seq<char>, Seq<char>, usize)>
    decreases calls.len(),
{
    if calls.len() == 0 {
        Seq::empty()
    } else {
        let before = spec_call_usages(function, calls.drop_last());
        if spec_is_reflection_call(calls.last().name@) {
            before.push((function, calls.last().name@, calls.last().line))
        } else {
            before
        }
    }
}

/// The reflection findings of functions, function by function.
pub open spec fn spec_reflection_usages(functions: Seq<FnDef>) -> Seq<(Seq<char>, Seq<char>, usize)>
    decreases functions.len(),
{
    if functions.len() == 0 {
        Seq::empty()
    } else {
        spec_reflection_usages(functions.drop_last())
            + spec_call_usages(functions.last().name@, functions.last().calls@)
    }
}

proof fn lemma_call_usages_report(function: Seq<char>, calls: Seq<CalleeInfo>, j: int)
    requires
        0 <= j < calls.len(),
        spec_is_reflection_call(calls[j].name@),
    ensures
        spec_call_usages(function, calls).contains((function, calls[j].name@, calls[j].line)),
    decreases calls.len(),
{
    let row = (function, calls[j].name@, calls[j].line);
    let before = spec_call_usages(function, calls.drop_last());
    if j == calls.len() - 1 {
        assert(spec_call_usages(function, calls) == before.push(row));
        assert(before.push(row)[before.len() as int] == row);
    } else {
        lemma_call_usages_report(function, calls.drop_last(), j);
        assert(calls.drop_last()[j] == calls[j]);
        let k = choose|k: int| 0 <= k < before.len() && before[k] == row;
        if spec_is_reflection_call(calls.last().name@) {
            assert(before.push((function, calls.last().name@, calls.last().line))[k] == row);
        }
    }
}

/// Every call of `any::Any`, `any::type_name` or `any::type_id`, alone or
/// at the end of a longer path, is reported with its function and line.
pub proof fn lemma_any_calls_are_reported(functions: Seq<FnDef>, i: int, j: int)
    requires
        0 <= i < functions.len(),
        0 <= j < functions[i].calls@.len(),
        ({
            let name = functions[i].calls@[j].name@;
            name == "any::Any"@ || name == "any::type_name"@ || name == "any::type_id"@
                || spec_ends_with(name, "::any::Any"@) || spec_ends_with(name, "::any::type_name"@)
                || spec_ends_with(name, "::any::type_id"@)
        }),
    ensures
        spec_reflection_usages(functions).contains(
            (functions[i].name@, functions[i].calls@[j].name@, functions[i].calls@[j].line)),
    decreases functions.len(),
{
    lemma_reflection_calls_are_any_paths(functions[i].calls@[j].name@);
    let row = (functions[i].name@, functions[i].calls@[j].name@, functions[i].calls@[j].line);
    let head = spec_reflection_usages(functions.drop_last());
    let tail = spec_call_usages(functions.last().name@, functions.last().calls@);
    assert(spec_reflection_usages(functions) == head + tail);
    if i == functions.len() - 1 {
        lemma_call_usages_report(functions[i].name@, functions[i].calls@, j);
        let k = choose|k: int| 0 <= k < tail.len() && tail[k] == row;
        assert((head + tail)[head.len() + k] == row);
    } else {
        assert(functions.drop_last()[i] == functions[i]);
        lemma_any_calls_are_reported(functions.drop_last(), i, j);
        let k = choose|k: int| 0 <= k < head.len() && head[k] == row;
        assert((head + tail)[k] == row);
    }
}

/// Every call of a reflection API (`std::any::Any`, `type_name`,
/// `type_id`, also reached through a longer path), in function and call
/// order.
pub fn rvs_collect_reflection_usage_from_fns(functions: &[FnDef]) -> (r: Vec<ReflectionUsageInfo>)
    ensures
        r@.map_values(|u: ReflectionUsageInfo| spec_usage_row(u)) == spec_reflection_usages(functions@),
{
    let mut result: Vec<ReflectionUsageInfo> = Vec::new();
    let mut f: usize = 0;
    while f < functions.len()
        invariant
            f <= functions@.len(),
            result@.map_values(|u: ReflectionUsageInfo| spec_usage_row(u)) == spec_reflection_usages(functions@.subrange(0, f as int)),
        decreases functions@.len() - f,
    {
        let func = &functions[f];
        let ghost before = result@.map_values(|u: ReflectionUsageInfo| spec_usage_row(u));
        let mut c: usize = 0;
        while c < func.calls.len()
            invariant
                c <= func.calls@.len(),
                result@.map_values(|u: ReflectionUsageInfo| spec_usage_row(u))
                    == before + spec_call_usages(func.name@, func.calls@.subrange(0, c as int)),
            decreases func.calls@.len() - c,
        {
            let callee = &func.calls[c];
            let name = rvs_chars_of(callee.name.as_str());
            let ghost prev = result@;
            proof {
                assert(func.calls@.subrange(0, c + 1).drop_last() =~= func.calls@.subrange(0, c as int));
            }
            if rvs_is_reflection_call(name.as_slice()) {
                result.push(ReflectionUsageInfo {
                    function: func.name.clone(),
                    path: callee.name.clone(),
                    line: callee.line,
                });
                proof {
                    assert(result@.map_values(|u: ReflectionUsageInfo| spec_usage_row(u))
                        =~= prev.map_values(|u: ReflectionUsageInfo| spec_usage_row(u)).push((func.name@, callee.name@, callee.line)));
                }
            }
            c = c + 1;
        }
        proof {
            assert(func.calls@.subrange(0, func.calls@.len() as int) =~= func.calls@);
            assert(functions@.subrange(0, f + 1).drop_last() =~= functions@.subrange(0, f as int));
        }
        f = f + 1;
    }
    proof {
        assert(functions@.subrange(0, functions@.len() as int) =~= functions@);
    }
    result
}

/// Every call of a reflection API in the given functions.
pub fn rvs_extract_reflection_usage(functions: &[FnDef]) -> (r: Vec<ReflectionUsageInfo>)
    ensures
        r@.map_values(|u: ReflectionUsageInfo| spec_usage_row(u)) == spec_reflection_usages(functions@),
{
    rvs_collect_reflection_usage_from_fns(functions)
}

/// The comment text of a line: after `//`, or after `/*` with trailing `*`
/// and then trailing `/` removed; `None` when the line, past its leading
/// white space, opens no comment.
pub open spec fn spec_comment_body(line: Seq<char>) -> Option<Seq<char>> {
    let t = spec_trim_start(line);
    if spec_starts_with(t, seq!['/', '/']) {
        Some(t.subrange(2, t.len() as int))
    } else if spec_starts_with(t, seq!['/', '*']) {
        Some(spec_trim_end_char(spec_trim_end_char(t.subrange(2, t.len() as int), '*'), '/'))
    } else {
        None
    }
}

/// The marker and text of a `TODO` or `FIXME` comment line.
pub open spec fn spec_todo_of_line(line: Seq<char>) -> Option<(Seq<char>, Seq<char>)> {
    match spec_comment_body(line) {
        Some(body) => {
            let rest = spec_trim_start(body);
            if spec_starts_with(rest, "TODO"@) {
                Some(("TODO"@, spec_trim(rest.subrange(4, rest.len() as int))))
            } else if spec_starts_with(rest, "FIXME"@) {
                Some(("FIXME"@, spec_trim(rest.subrange(5, rest.len() as int))))
            } else {
                None
            }
        },
        None => None,
    }
}

/// Where the leading white space of `s` ends.
proof fn lemma_trim_start_index(s: Seq<char>) -> (k: int)
    ensures
        0 <= k <= s.len(),
        spec_trim_start(s) == s.subrange(k, s.len() as int),
        forall|i: int| 0 <= i < k ==> crate::text::spec_is_whitespace(#[trigger] s[i]),
        k < s.len() ==> !crate::text::spec_is_whitespace(s[k]),
    decreases s.len(),
{
    if s.len() > 0 && crate::text::spec_is_whitespace(s[0]) {
        let t = s.subrange(1, s.len() as int);
        let k1 = lemma_trim_start_index(t);
        assert(t.subrange(k1, t.len() as int) =~= s.subrange(k1 + 1, s.len() as int));
        assert forall|i: int| 0 <= i < k1 + 1 implies crate::text::spec_is_whitespace(#[trigger] s[i]) by {
            if i > 0 {
                assert(s[i] == t[i - 1]);
            }
        }
        k1 + 1
    } else {
        assert(s.subrange(0, s.len() as int) =~= s);
        0
    }
}

/// Cutting `s` after the end of its leading white space leaves that white
/// space in place.
proof fn lemma_trim_start_of_prefix(s: Seq<char>, k: int, m: int)
    requires
        0 <= k < m <= s.len(),
        forall|i: int| 0 <= i < k ==> crate::text::spec_is_whitespace(#[trigger] s[i]),
        !crate::text::spec_is_whitespace(s[k]),
    ensures
        spec_trim_start(s.subrange(0, m)) == s.subrange(k, m),
{
    let p = s.subrange(0, m);
    let k2 = lemma_trim_start_index(p);
    if k2 < k {
        assert(p[k2] == s[k2]);
    }
    if k2 > k {
        assert(p[k] == s[k]);
    }
    assert(p.subrange(k, m) =~= s.subrange(k, m));
}

/// Trimming trailing `c` stops at the last character before `n` that is
/// not `c`.
proof fn lemma_trim_end_keeps_prefix(s: Seq<char>, n: int, c: char) -> (m: int)
    requires
        0 < n <= s.len(),
        s[n - 1] != c,
    ensures
        n <= m <= s.len(),
        spec_trim_end_char(s, c) == s.subrange(0, m),
    decreases s.len(),
{
    if s.last() == c {
        let m = lemma_trim_end_keeps_prefix(s.drop_last(), n, c);
        assert(s.drop_last().subrange(0, m) =~= s.subrange(0, m));
        m
    } else {
        assert(s.subrange(0, s.len() as int) =~= s);
        s.len() as int
    }
}

/// A `TODO` comment is reported whether it opens with `//` or `/*`: for a
/// line whose text, past its leading white space, opens a comment with
/// either, and whose comment text, past its own leading white space,
/// starts with `TODO`, the line gives a `TODO` finding.
pub proof fn lemma_todo_marker_ignores_opener(line: Seq<char>)
    requires
        ({
            let t = spec_trim_start(line);
            &&& spec_starts_with(t, seq!['/', '/']) || spec_starts_with(t, seq!['/', '*'])
            &&& spec_starts_with(spec_trim_start(t.subrange(2, t.len() as int)), "TODO"@)
        }),
    ensures
        spec_todo_of_line(line) matches Some((kind, _)) && kind == "TODO"@,
{
    reveal_strlit("TODO");
    let t = spec_trim_start(line);
    let u = t.subrange(2, t.len() as int);
    let k = lemma_trim_start_index(u);
    let v = spec_trim_start(u);
    assert(v.subrange(0, 4) == seq!['T', 'O', 'D', 'O']);
    assert(u[k] == v[0] && u[k + 3] == v[3]);
    assert(u[k] == 'T' && u[k + 3] == 'O');
    if spec_starts_with(t, seq!['/', '/']) {
        assert(spec_comment_body(line) == Some(u));
    } else {
        assert(t[1] == '*');
        assert(!spec_starts_with(t, seq!['/', '/']));
        let m1 = lemma_trim_end_keeps_prefix(u, k + 4, '*');
        let u1 = u.subrange(0, m1);
        assert(u1[k + 3] == 'O');
        let m2 = lemma_trim_end_keeps_prefix(u1, k + 4, '/');
        assert(u1.subrange(0, m2) =~= u.subrange(0, m2));
        let body = u.subrange(0, m2);
        assert(spec_comment_body(line) == Some(body));
        lemma_trim_start_of_prefix(u, k, m2);
        assert(spec_trim_start(body) == u.subrange(k, m2));
        assert(u.subrange(k, m2).subrange(0, 4) =~= v.subrange(0, 4));
    }
}

/// The `TODO`/`FIXME` findings of lines, numbered from one.
pub open spec fn spec_todo_rows(lines: Seq<Seq<char>>) -> Seq<(Seq<char>, Seq<char>, int)>
    decreases lines.len(),
{
    if lines.len() == 0 {
        Seq::empty()
    } else {
        let before = spec_todo_rows(lines.drop_last());
        match spec_todo_of_line(lines.last()) {
            Some((kind, text)) => before.push((kind, text, lines.len() as int)),
            None => before,
        }
    }
}

/// A comment finding as plain values: marker, text, line.
pub open spec fn spec_todo_row(t: TodoCommentInfo) -> (Seq<char>, Seq<char>, int) {
    (t.kind@, t.text@, t.line as int)
}

fn rvs_todo_of_line(line: &[char]) -> (r: Option<(Vec<char>, Vec<char>)>)
    ensures
        match spec_todo_of_line(line@) {
            Some((kind, text)) => r matches Some((k, t)) && k@ == kind && t@ == text,
            None => r is None,
        },
{
    let t = rvs_trim_start(line);
    let slash2 = rvs_chars_of("//");
    let slash_star = rvs_chars_of("/*");
    proof {
        reveal_strlit("//");
        reveal_strlit("/*");
        assert(slash2@ =~= seq!['/', '/']);
        assert(slash_star@ =~= seq!['/', '*']);
    }
    let body = if rvs_starts_with(t.as_slice(), slash2.as_slice()) {
        rvs_slice_chars(t.as_slice(), 2, t.len())
    } else if rvs_starts_with(t.as_slice(), slash_star.as_slice()) {
        let after = rvs_slice_chars(t.as_slice(), 2, t.len());
        let stars = rvs_trim_end_char(after.as_slice(), '*');
        rvs_trim_end_char(stars.as_slice(), '/')
    } else {
        return None;
    };
    let rest = rvs_trim_start(body.as_slice());
    let todo = rvs_chars_of("TODO");
    let fixme = rvs_chars_of("FIXME");
    proof {
        reveal_strlit("TODO");
        reveal_strlit("FIXME");
    }
    if rvs_starts_with(rest.as_slice(), todo.as_slice()) {
        let text = rvs_slice_chars(rest.as_slice(), 4, rest.len());
        Some((todo, rvs_trim(text.as_slice())))
    } else if rvs_starts_with(rest.as_slice(), fixme.as_slice()) {
        let text = rvs_slice_chars(rest.as_slice(), 5, rest.len());
        Some((fixme, rvs_trim(text.as_slice())))
    } else {
        None
    }
}

/// Every `TODO` and `FIXME` comment of a source text, line by line: a line
/// whose text after leading white space opens a `//` or `/*` comment whose
/// text, after leading white space, starts with the marker.  The finding
/// holds the marker, the rest of the comment trimmed, and the line number
/// counted from one.
pub fn rvs_extract_todo_comments(source: &str) -> (r: Vec<TodoCommentInfo>)
    ensures
        r@.map_values(|t: TodoCommentInfo| spec_todo_row(t)) == spec_todo_rows(spec_lines(source@)),
{
    let s = rvs_chars_of(source);
    let mut result: Vec<TodoCommentInfo> = Vec::new();
    let mut pos: usize = 0;
    let mut line_no: usize = 0;
    let ghost mut done: Seq<Seq<char>> = Seq::empty();
    proof {
        assert(s@.subrange(0, s@.len() as int) =~= s@);
        assert(done + spec_lines(s@) =~= spec_lines(s@));
    }
    while pos < s.len()
        invariant
            pos <= s@.len(),
            s@ == source@,
            line_no == done.len(),
            line_no <= pos,
            done + spec_lines(s@.subrange(pos as int, s@.len() as int)) == spec_lines(s@),
            result@.map_values(|t: TodoCommentInfo| spec_todo_row(t)) == spec_todo_rows(done),
        decreases s@.len() - pos,
    {
        let ghost rest = s@.subrange(pos as int, s@.len() as int);
        proof {
            lemma_first_index_of(rest, '\n');
        }
        let (line, next) = match rvs_find_char_from(s.as_slice(), pos, '\n') {
            Some(k) => {
                let raw = rvs_slice_chars(s.as_slice(), pos, k);
                let l = if raw.len() > 0 && raw[raw.len() - 1] == '\r' {
                    rvs_slice_chars(raw.as_slice(), 0, raw.len() - 1)
                } else {
                    raw
                };
                proof {
                    let kk = (k - pos) as int;
                    assert(rest.subrange(0, kk) =~= s@.subrange(pos as int, k as int));
                    assert(rest.subrange(kk + 1, rest.len() as int) =~= s@.subrange(k + 1, s@.len() as int));
                    assert(spec_lines(rest) == seq![spec_strip_cr(rest.subrange(0, kk))] + spec_lines(rest.subrange(kk + 1, rest.len() as int)));
                    if raw@.len() > 0 && raw@.last() == '\r' {
                        assert(l@ =~= raw@.drop_last());
                    }
                    assert(l@ == spec_strip_cr(rest.subrange(0, kk)));
                }
                (l, k + 1)
            },
            None => {
                let l = rvs_slice_chars(s.as_slice(), pos, s.len());
                proof {
                    assert(spec_lines(rest) == seq![rest]);
                    assert(s@.subrange(s@.len() as int, s@.len() as int) =~= Seq::<char>::empty());
                }
                (l, s.len())
            },
        };
        proof {
            assert(spec_lines(rest) == seq![line@] + spec_lines(s@.subrange(next as int, s@.len() as int)));
            assert(done.push(line@) + spec_lines(s@.subrange(next as int, s@.len() as int)) =~= done + spec_lines(rest));
            assert(done.push(line@).drop_last() =~= done);
        }
        let ghost prev = result@;
        match rvs_todo_of_line(line.as_slice()) {
            Some((kind, text)) => {
                result.push(TodoCommentInfo {
                    kind: rvs_string_of(kind.as_slice()),
                    text: rvs_string_of(text.as_slice()),
                    line: line_no + 1,
                });
                proof {
                    assert(result@.map_values(|t: TodoCommentInfo| spec_todo_row(t))
                        =~= prev.map_values(|t: TodoCommentInfo| spec_todo_row(t)).push((kind@, text@, (line_no + 1) as int)));
                }
            },
            None => {},
        }
        proof {
            done = done.push(line@);
        }
        pos = next;
        line_no = line_no + 1;
    }
    proof {
        assert(s@.subrange(pos as int, s@.len() as int) =~= Seq::<char>::empty());
        assert(done + Seq::<Seq<char>>::empty() =~= done);
    }
    result
}

/// The records of the checked functions of a file.  Static references are
/// resolved against the statics the whole file declares; a file-level
/// `#![allow(non_snake_case)]` holds for every function.
pub fn rvs_extract_functions(file: &SourceFile) -> (r: Vec<FnDef>)
    requires
        spec_items_lines_ok(file.items@),
    ensures
        spec_defs_match(r@, spec_items_picks(file.items@, spec_allows_non_snake_case(file.attrs@)),
            spec_items_static_decls(file.items@)),
{
    let statics = rvs_collect_static_decls_from_items(&file.items);
    let snake = rvs_allows_non_snake_case(&file.attrs);
    rvs_extract_from_items(&file.items, &statics, snake)
}

/// The `use` paths of a file, each with the line of its `use`.
pub fn rvs_extract_imports(file: &SourceFile) -> (r: Vec<ImportInfo>)
    ensures
        spec_import_rows(r@) == spec_items_imports(file.items@),
{
    rvs_collect_imports_from_items(&file.items)
}

/// The `#[test]` functions of a file, `#[cfg(test)]` modules included.
pub fn rvs_extract_tests(file: &SourceFile) -> (r: Vec<TestName>)
    ensures
        spec_test_rows(r@) == spec_items_tests(file.items@),
{
    rvs_collect_tests_from_items(&file.items)
}

/// The functions of a file that lack the `rvs_` prefix (tests and `main`
/// left out), for the prefix warning.
pub fn rvs_extract_non_rvs_fns(file: &SourceFile) -> (r: Vec<NonRvsFnInfo>)
    ensures
        spec_nonrvs_rows(r@) == spec_items_nonrvs(file.items@),
{
    rvs_collect_non_rvs_fns_from_items(&file.items)
}

/// The public functions and methods of a file, with whether each is
/// documented.
pub fn rvs_extract_pub_items(file: &SourceFile) -> (r: Vec<PubItemInfo>)
    ensures
        spec_pubs_rows(r@) == spec_items_pubs(file.items@),
{
    rvs_collect_pub_items_from_items(&file.items)
}

/// The parameters of a file taken as `&String`, `&Vec<T>` or `&Box<T>`.
pub fn rvs_extract_borrowed_params(file: &SourceFile) -> (r: Vec<BorrowedParamInfo>)
    ensures
        spec_borrowed_rows(r@) == spec_items_borrowed(file.items@),
{
    rvs_collect_borrowed_params_from_items(&file.items)
}

/// The `unsafe fn`s of a file, with whether each has a `# Safety` section.
pub fn rvs_extract_unsafe_fns(file: &SourceFile) -> (r: Vec<UnsafeFnInfo>)
    ensures
        spec_unsafes_rows(r@) == spec_items_unsafes(file.items@),
{
    rvs_collect_unsafe_fns_from_items(&file.items)
}

/// The line of a file-level `#![deny(warnings)]`, if there is one.
pub fn rvs_extract_deny_warnings(file: &SourceFile) -> (r: Option<usize>)
    ensures
        r == spec_find_deny_warnings(file.attrs@),
{
    rvs_find_deny_warnings(&file.attrs)
}

/// The public types of a file that do not derive `Debug`.
pub fn rvs_extract_missing_debug(file: &SourceFile) -> (r: Vec<MissingDebugInfo>)
    ensures
        spec_nodebug_rows(r@) == spec_items_nodebug(file.items@),
{
    rvs_collect_missing_debug_from_items(&file.items)
}

/// The functions of a file that declare `P` without a `# Panics` section.
pub fn rvs_extract_missing_panics_doc(file: &SourceFile) -> (r: Vec<MissingPanicsDocInfo>)
    ensures
        spec_panicdoc_rows(r@) == spec_items_panicdoc(file.items@),
{
    rvs_collect_missing_panics_doc_from_items(&file.items)
}

/// The `impl Into<T> for X` blocks of a file.
pub fn rvs_extract_into_impls(file: &SourceFile) -> (r: Vec<IntoImplInfo>)
    ensures
        spec_into_rows(r@) == spec_items_into(file.items@),
{
    rvs_collect_into_impls_from_items(&file.items)
}

/// The functions of a file returning `Result<(), E>` that consume an
/// argument `E` does not hand back.
pub fn rvs_extract_consumed_arg_on_error(file: &SourceFile) -> (r: Vec<ConsumedArgOnErrorInfo>)
    requires
        spec_items_lines_named(file.items@),
    ensures
        spec_consumed_rows(r@) == spec_items_consumed(file.items@),
{
    rvs_collect_consumed_arg_on_error_from_items(&file.items)
}

/// The `impl Deref for X` blocks of a file, with their targets.
pub fn rvs_extract_deref_polymorphism(file: &SourceFile) -> (r: Vec<DerefPolymorphismInfo>)
    ensures
        spec_deref_rows(r@) == spec_items_deref(file.items@),
{
    rvs_collect_deref_polymorphism_from_items(&file.items)
}

/// The `todo!()` and `unimplemented!()` uses of a file.
pub fn rvs_extract_stub_macros(file: &SourceFile) -> (r: Vec<StubMacroInfo>)
    ensures
        spec_stub_rows(r@) == spec_items_stubs(file.items@),
{
    rvs_collect_stub_macros_from_items(&file.items)
}

/// The functions of a file whose bodies hold only debug assertions.
pub fn rvs_extract_empty_fns(file: &SourceFile) -> (r: Vec<EmptyFnInfo>)
    ensures
        spec_empty_rows(r@) == spec_items_empty(file.items@),
{
    rvs_collect_empty_fns_from_items(&file.items)
}

// ------------------------------------------------------------ laws

/// The reflection usages of functions listed one after the other are those
/// of the first list followed by those of the second.
pub proof fn lemma_reflection_usage_of_concatenation(a: Seq<FnDef>, b: Seq<FnDef>)
    ensures
        spec_reflection_usages(a + b) == spec_reflection_usages(a) + spec_reflection_usages(b),
    decreases b.len(),
{
    if b.len() == 0 {
        assert(a + b =~= a);
        assert(spec_reflection_usages(a) + Seq::empty() =~= spec_reflection_usages(a));
    } else {
        lemma_reflection_usage_of_concatenation(a, b.drop_last());
        assert((a + b).drop_last() =~= a + b.drop_last());
        assert((a + b).last() == b.last());
        let ua = spec_reflection_usages(a);
        let ub = spec_reflection_usages(b.drop_last());
        let c = spec_call_usages(b.last().name@, b.last().calls@);
        assert(ua + ub + c =~= ua + (ub + c));
    }
}

/// Findings whose line numbers are moved down by `n`.
pub open spec fn spec_shift_rows(rows: Seq<(Seq<char>, Seq<char>, int)>, n: int) -> Seq<(Seq<char>, Seq<char>, int)> {
    rows.map_values(|r: (Seq<char>, Seq<char>, int)| (r.0, r.1, r.2 + n))
}

proof fn lemma_todo_rows_concat(l1: Seq<Seq<char>>, l2: Seq<Seq<char>>)
    ensures
        spec_todo_rows(l1 + l2) == spec_todo_rows(l1) + spec_shift_rows(spec_todo_rows(l2), l1.len() as int),
    decreases l2.len(),
{
    if l2.len() == 0 {
        assert(l1 + l2 =~= l1);
        assert(spec_todo_rows(l1) + spec_shift_rows(Seq::empty(), l1.len() as int) =~= spec_todo_rows(l1));
    } else {
        lemma_todo_rows_concat(l1, l2.drop_last());
        assert((l1 + l2).drop_last() =~= l1 + l2.drop_last());
        assert((l1 + l2).last() == l2.last());
        let r1 = spec_todo_rows(l1);
        let r2 = spec_todo_rows(l2.drop_last());
        match spec_todo_of_line(l2.last()) {
            Some((kind, text)) => {
                assert(spec_shift_rows(r2.push((kind, text, l2.len() as int)), l1.len() as int)
                    =~= spec_shift_rows(r2, l1.len() as int).push((kind, text, (l2.len() + l1.len()) as int)));
                assert(r1 + spec_shift_rows(r2, l1.len() as int).push((kind, text, (l2.len() + l1.len()) as int))
                    =~= (r1 + spec_shift_rows(r2, l1.len() as int)).push((kind, text, (l1 + l2).len() as int)));
            },
            None => {},
        }
    }
}

proof fn lemma_first_index_is(s: Seq<char>, c: char, k: int)
    requires
        0 <= k < s.len(),
        s[k] == c,
        forall|j: int| 0 <= j < k ==> s[j] != c,
    ensures
        spec_first_index_of(s, c) == Some(k),
    decreases k,
{
    if k > 0 {
        lemma_first_index_is(s.drop_first(), c, k - 1);
    }
}

proof fn lemma_lines_of_joined(a: Seq<char>, b: Seq<char>)
    requires
        a.len() > 0,
        a.last() != '\n',
        a.last() != '\r',
    ensures
        spec_lines(a + seq!['\n'] + b) == spec_lines(a) + spec_lines(b),
    decreases a.len(),
{
    let s = a + seq!['\n'] + b;
    lemma_first_index_of(a, '\n');
    match spec_first_index_of(a, '\n') {
        Some(k) => {
            assert forall|j: int| 0 <= j < k implies s[j] != '\n' by {
                assert(s[j] == a[j]);
            }
            assert(s[k] == a[k]);
            lemma_first_index_is(s, '\n', k);
            let a2 = a.subrange(k + 1, a.len() as int);
            assert(k + 1 < a.len());
            assert(a2.last() == a.last());
            lemma_lines_of_joined(a2, b);
            assert(s.subrange(0, k) =~= a.subrange(0, k));
            assert(s.subrange(k + 1, s.len() as int) =~= a2 + seq!['\n'] + b);
            assert(spec_lines(a) == seq![spec_strip_cr(a.subrange(0, k))] + spec_lines(a2));
            assert(seq![spec_strip_cr(a.subrange(0, k))] + (spec_lines(a2) + spec_lines(b))
                =~= seq![spec_strip_cr(a.subrange(0, k))] + spec_lines(a2) + spec_lines(b));
        },
        None => {
            assert forall|j: int| 0 <= j < a.len() implies s[j] != '\n' by {
                assert(s[j] == a[j]);
            }
            assert(s[a.len() as int] == '\n');
            lemma_first_index_is(s, '\n', a.len() as int);
            assert(s.subrange(0, a.len() as int) =~= a);
            assert(s.subrange(a.len() as int + 1, s.len() as int) =~= b);
            assert(spec_strip_cr(a) == a);
            assert(spec_lines(a) == seq![a]);
        },
    }
}

/// The `TODO`/`FIXME` scan of two texts joined by a line break is the scan
/// of the first followed by the scan of the second, its line numbers moved
/// down by the first text's line count. (The first text is not empty and
/// does not end in a line break or carriage return; otherwise the joined
/// text has a line more, or one less, at the seam.)
pub proof fn lemma_todo_comments_of_joined_text(a: Seq<char>, b: Seq<char>)
    requires
        a.len() > 0,
        a.last() != '\n',
        a.last() != '\r',
    ensures
        spec_todo_rows(spec_lines(a + seq!['\n'] + b))
            == spec_todo_rows(spec_lines(a)) + spec_shift_rows(spec_todo_rows(spec_lines(b)), spec_lines(a).len() as int),
{
    lemma_lines_of_joined(a, b);
    lemma_todo_rows_concat(spec_lines(a), spec_lines(b));
}

} // verus!
