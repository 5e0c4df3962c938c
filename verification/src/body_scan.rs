//! Scans of function bodies: whether a body holds an `unsafe` block or
//! something that panics, and where it uses the stub macros.
//!
//! Each scan is stated as a structural recursion over the syntax tree
//! (`spec_*`), and each executable scan is proved to compute it.  The scans
//! differ in what they enter: the stub scan ignores the base of a struct
//! literal, the `unsafe` scan stops at an `unsafe` block, and the panic scan
//! also counts `.unwrap()` and `.expect()`.
use vstd::prelude::*;

use crate::extract::StubMacroInfo;
use crate::syntax::{
    rvs_is_debug_assert, rvs_is_panic_macro, rvs_is_stub_macro, rvs_spells, spec_is_debug_assert_name,
    spec_is_panic_name, spec_is_stub_name, Arm,
    Block, BlockKind, Expr, LocalInit, MacroUse, Stmt, Token, UnaryKind,
};
use crate::collections::{rvs_set_insert_M, rvs_set_new};
use crate::order::spec_lt;
use crate::symbols::DefPath;
use crate::text::rvs_string_of;

verus! {

// ---------------------------------------------------------------- unsafe

/// Whether the expression holds an `unsafe` block.
pub open spec fn spec_expr_has_unsafe(e: Expr) -> bool
    decreases e,
{
    match e {
        Expr::Macro(_) => false,
        Expr::Block(k, b) => k == BlockKind::Unsafe || spec_block_has_unsafe(b),
        Expr::If(c, t, els) => spec_expr_has_unsafe(*c) || spec_block_has_unsafe(t) || match els {
            Some(x) => spec_expr_has_unsafe(*x),
            None => false,
        },
        Expr::Match(x, arms) => spec_expr_has_unsafe(*x) || spec_arms_have_unsafe(arms@),
        Expr::While(c, b) => spec_expr_has_unsafe(*c) || spec_block_has_unsafe(b),
        Expr::ForLoop(c, b) => spec_expr_has_unsafe(*c) || spec_block_has_unsafe(b),
        Expr::Closure(x) => spec_expr_has_unsafe(*x),
        Expr::Call(f, args) => spec_expr_has_unsafe(*f) || spec_exprs_have_unsafe(args@),
        Expr::MethodCall(r, _, args) => spec_expr_has_unsafe(*r) || spec_exprs_have_unsafe(args@),
        Expr::Unary(_, x) => spec_expr_has_unsafe(*x),
        Expr::Pair(_, a, b) => spec_expr_has_unsafe(*a) || spec_expr_has_unsafe(*b),
        Expr::Tuple(es) => spec_exprs_have_unsafe(es@),
        Expr::Array(es) => spec_exprs_have_unsafe(es@),
        Expr::Struct(fs, rest) => spec_exprs_have_unsafe(fs@) || match rest {
            Some(x) => spec_expr_has_unsafe(*x),
            None => false,
        },
        Expr::Range(a, b) => (match a {
            Some(x) => spec_expr_has_unsafe(*x),
            None => false,
        }) || (match b {
            Some(x) => spec_expr_has_unsafe(*x),
            None => false,
        }),
        Expr::Return(x) => match x {
            Some(y) => spec_expr_has_unsafe(*y),
            None => false,
        },
        Expr::Break(x) => match x {
            Some(y) => spec_expr_has_unsafe(*y),
            None => false,
        },
        Expr::Path(_) => false,
        Expr::Other => false,
    }
}

/// Whether some expression of the list holds an `unsafe` block.
pub open spec fn spec_exprs_have_unsafe(es: Seq<Expr>) -> bool
    decreases es,
{
    if es.len() == 0 {
        false
    } else {
        spec_exprs_have_unsafe(es.drop_last()) || spec_expr_has_unsafe(es.last())
    }
}

/// Whether some guard or body of the arms holds an `unsafe` block.
pub open spec fn spec_arms_have_unsafe(arms: Seq<Arm>) -> bool
    decreases arms,
{
    if arms.len() == 0 {
        false
    } else {
        spec_arms_have_unsafe(arms.drop_last()) || (match arms.last().guard {
            Some(g) => spec_expr_has_unsafe(g),
            None => false,
        }) || spec_expr_has_unsafe(arms.last().body)
    }
}

/// Whether the block holds an `unsafe` block.
pub open spec fn spec_block_has_unsafe(b: Block) -> bool
    decreases b,
{
    spec_stmts_have_unsafe(b.stmts@)
}

/// Whether some statement holds an `unsafe` block.  Items and statement
/// macros are not entered.
pub open spec fn spec_stmts_have_unsafe(ss: Seq<Stmt>) -> bool
    decreases ss,
{
    if ss.len() == 0 {
        false
    } else {
        spec_stmts_have_unsafe(ss.drop_last()) || match ss.last() {
            Stmt::Local(init) => match init {
                Some(li) => spec_expr_has_unsafe(li.expr) || match li.diverge {
                    Some(d) => spec_expr_has_unsafe(d),
                    None => false,
                },
                None => false,
            },
            Stmt::Expr(e) => spec_expr_has_unsafe(e),
            Stmt::Item => false,
            Stmt::Macro(_) => false,
        }
    }
}

/// Whether the expression holds an `unsafe` block.
pub fn rvs_scan_expr_has_unsafe(e: &Expr) -> (r: bool)
    ensures
        r == spec_expr_has_unsafe(*e),
    decreases e,
{
    match e {
        Expr::Macro(_) => false,
        Expr::Block(k, b) => match k {
            BlockKind::Unsafe => true,
            _ => rvs_scan_block_has_unsafe(b),
        },
        Expr::If(c, t, els) => {
            rvs_scan_expr_has_unsafe(c) || rvs_scan_block_has_unsafe(t) || match els {
                Some(x) => rvs_scan_expr_has_unsafe(x),
                None => false,
            }
        },
        Expr::Match(x, arms) => rvs_scan_expr_has_unsafe(x) || rvs_scan_arms_have_unsafe(arms),
        Expr::While(c, b) => rvs_scan_expr_has_unsafe(c) || rvs_scan_block_has_unsafe(b),
        Expr::ForLoop(c, b) => rvs_scan_expr_has_unsafe(c) || rvs_scan_block_has_unsafe(b),
        Expr::Closure(x) => rvs_scan_expr_has_unsafe(x),
        Expr::Call(f, args) => rvs_scan_expr_has_unsafe(f) || rvs_scan_exprs_have_unsafe(args),
        Expr::MethodCall(r, _, args) => rvs_scan_expr_has_unsafe(r) || rvs_scan_exprs_have_unsafe(args),
        Expr::Unary(_, x) => rvs_scan_expr_has_unsafe(x),
        Expr::Pair(_, a, b) => rvs_scan_expr_has_unsafe(a) || rvs_scan_expr_has_unsafe(b),
        Expr::Tuple(es) => rvs_scan_exprs_have_unsafe(es),
        Expr::Array(es) => rvs_scan_exprs_have_unsafe(es),
        Expr::Struct(fs, rest) => rvs_scan_exprs_have_unsafe(fs) || match rest {
            Some(x) => rvs_scan_expr_has_unsafe(x),
            None => false,
        },
        Expr::Range(a, b) => (match a {
            Some(x) => rvs_scan_expr_has_unsafe(x),
            None => false,
        }) || (match b {
            Some(x) => rvs_scan_expr_has_unsafe(x),
            None => false,
        }),
        Expr::Return(x) => match x {
            Some(y) => rvs_scan_expr_has_unsafe(y),
            None => false,
        },
        Expr::Break(x) => match x {
            Some(y) => rvs_scan_expr_has_unsafe(y),
            None => false,
        },
        Expr::Path(_) => false,
        Expr::Other => false,
    }
}

fn rvs_scan_exprs_have_unsafe(es: &Vec<Expr>) -> (r: bool)
    ensures
        r == spec_exprs_have_unsafe(es@),
    decreases es,
{
    let mut i: usize = 0;
    while i < es.len()
        invariant
            i <= es@.len(),
            !spec_exprs_have_unsafe(es@.take(i as int)),
        decreases es@.len() - i,
    {
        assert(es@.take(i + 1).drop_last() =~= es@.take(i as int));
        if rvs_scan_expr_has_unsafe(&es[i]) {
            assert(es@.take(i + 1).last() == es@[i as int]);
            proof { lemma_exprs_unsafe_prefix(es@, i as int + 1); }
            return true;
        }
        i = i + 1;
    }
    assert(es@.take(es@.len() as int) =~= es@);
    false
}

/// A prefix holding an `unsafe` block makes the whole list hold one.
proof fn lemma_exprs_unsafe_prefix(es: Seq<Expr>, k: int)
    requires
        0 <= k <= es.len(),
        spec_exprs_have_unsafe(es.take(k)),
    ensures
        spec_exprs_have_unsafe(es),
    decreases es.len() - k,
{
    if k < es.len() {
        assert(es.take(k + 1).drop_last() =~= es.take(k));
        lemma_exprs_unsafe_prefix(es, k + 1);
    } else {
        assert(es.take(k) =~= es);
    }
}

fn rvs_scan_arms_have_unsafe(arms: &Vec<Arm>) -> (r: bool)
    ensures
        r == spec_arms_have_unsafe(arms@),
    decreases arms,
{
    let mut i: usize = 0;
    while i < arms.len()
        invariant
            i <= arms@.len(),
            !spec_arms_have_unsafe(arms@.take(i as int)),
        decreases arms@.len() - i,
    {
        assert(arms@.take(i + 1).drop_last() =~= arms@.take(i as int));
        assert(arms@.take(i + 1).last() == arms@[i as int]);
        let arm = &arms[i];
        let hit = match &arm.guard {
            Some(g) => rvs_scan_expr_has_unsafe(g),
            None => false,
        } || rvs_scan_expr_has_unsafe(&arm.body);
        if hit {
            proof { lemma_arms_unsafe_prefix(arms@, i as int + 1); }
            return true;
        }
        i = i + 1;
    }
    assert(arms@.take(arms@.len() as int) =~= arms@);
    false
}

proof fn lemma_arms_unsafe_prefix(arms: Seq<Arm>, k: int)
    requires
        0 <= k <= arms.len(),
        spec_arms_have_unsafe(arms.take(k)),
    ensures
        spec_arms_have_unsafe(arms),
    decreases arms.len() - k,
{
    if k < arms.len() {
        assert(arms.take(k + 1).drop_last() =~= arms.take(k));
        lemma_arms_unsafe_prefix(arms, k + 1);
    } else {
        assert(arms.take(k) =~= arms);
    }
}

/// Whether the block holds an `unsafe` block.
pub fn rvs_scan_block_has_unsafe(b: &Block) -> (r: bool)
    ensures
        r == spec_block_has_unsafe(*b),
    decreases b,
{
    let ss = &b.stmts;
    let mut i: usize = 0;
    while i < ss.len()
        invariant
            ss == &b.stmts,
            i <= ss@.len(),
            !spec_stmts_have_unsafe(ss@.take(i as int)),
        decreases ss@.len() - i,
    {
        assert(ss@.take(i + 1).drop_last() =~= ss@.take(i as int));
        assert(ss@.take(i + 1).last() == ss@[i as int]);
        let hit = match &ss[i] {
            Stmt::Local(init) => match init {
                Some(li) => rvs_scan_expr_has_unsafe(&li.expr) || match &li.diverge {
                    Some(d) => rvs_scan_expr_has_unsafe(d),
                    None => false,
                },
                None => false,
            },
            Stmt::Expr(e) => rvs_scan_expr_has_unsafe(e),
            Stmt::Item => false,
            Stmt::Macro(_) => false,
        };
        if hit {
            proof { lemma_stmts_unsafe_prefix(ss@, i as int + 1); }
            return true;
        }
        i = i + 1;
    }
    assert(ss@.take(ss@.len() as int) =~= ss@);
    false
}

proof fn lemma_stmts_unsafe_prefix(ss: Seq<Stmt>, k: int)
    requires
        0 <= k <= ss.len(),
        spec_stmts_have_unsafe(ss.take(k)),
    ensures
        spec_stmts_have_unsafe(ss),
    decreases ss.len() - k,
{
    if k < ss.len() {
        assert(ss.take(k + 1).drop_last() =~= ss.take(k));
        lemma_stmts_unsafe_prefix(ss, k + 1);
    } else {
        assert(ss.take(k) =~= ss);
    }
}

// ----------------------------------------------------------------- panic

/// Whether the method name is `unwrap` or `expect`.
pub open spec fn spec_is_panic_method(name: Seq<char>) -> bool {
    name == "unwrap"@ || name == "expect"@
}

/// Whether the expression holds something that panics: a panicking macro
/// or a call of `.unwrap()` or `.expect()`.
pub open spec fn spec_expr_has_panic(e: Expr) -> bool
    decreases e,
{
    match e {
        Expr::Macro(m) => spec_is_panic_name(m.name()),
        Expr::Block(_, b) => spec_block_has_panic(b),
        Expr::If(c, t, els) => spec_expr_has_panic(*c) || spec_block_has_panic(t) || match els {
            Some(x) => spec_expr_has_panic(*x),
            None => false,
        },
        Expr::Match(x, arms) => spec_expr_has_panic(*x) || spec_arms_have_panic(arms@),
        Expr::While(c, b) => spec_expr_has_panic(*c) || spec_block_has_panic(b),
        Expr::ForLoop(c, b) => spec_expr_has_panic(*c) || spec_block_has_panic(b),
        Expr::Closure(x) => spec_expr_has_panic(*x),
        Expr::Call(f, args) => spec_expr_has_panic(*f) || spec_exprs_have_panic(args@),
        Expr::MethodCall(r, m, args) => spec_is_panic_method(m.ident@) || spec_expr_has_panic(*r)
            || spec_exprs_have_panic(args@),
        Expr::Unary(_, x) => spec_expr_has_panic(*x),
        Expr::Pair(_, a, b) => spec_expr_has_panic(*a) || spec_expr_has_panic(*b),
        Expr::Tuple(es) => spec_exprs_have_panic(es@),
        Expr::Array(es) => spec_exprs_have_panic(es@),
        Expr::Struct(fs, rest) => spec_exprs_have_panic(fs@) || match rest {
            Some(x) => spec_expr_has_panic(*x),
            None => false,
        },
        Expr::Range(a, b) => (match a {
            Some(x) => spec_expr_has_panic(*x),
            None => false,
        }) || (match b {
            Some(x) => spec_expr_has_panic(*x),
            None => false,
        }),
        Expr::Return(x) => match x {
            Some(y) => spec_expr_has_panic(*y),
            None => false,
        },
        Expr::Break(x) => match x {
            Some(y) => spec_expr_has_panic(*y),
            None => false,
        },
        Expr::Path(_) => false,
        Expr::Other => false,
    }
}

/// Whether some expression of the list panics.
pub open spec fn spec_exprs_have_panic(es: Seq<Expr>) -> bool
    decreases es,
{
    if es.len() == 0 {
        false
    } else {
        spec_exprs_have_panic(es.drop_last()) || spec_expr_has_panic(es.last())
    }
}

/// Whether some guard or body of the arms panics.
pub open spec fn spec_arms_have_panic(arms: Seq<Arm>) -> bool
    decreases arms,
{
    if arms.len() == 0 {
        false
    } else {
        spec_arms_have_panic(arms.drop_last()) || (match arms.last().guard {
            Some(g) => spec_expr_has_panic(g),
            None => false,
        }) || spec_expr_has_panic(arms.last().body)
    }
}

/// Whether the block holds something that panics.
pub open spec fn spec_block_has_panic(b: Block) -> bool
    decreases b,
{
    spec_stmts_have_panic(b.stmts@)
}

/// Whether some statement panics.  Items are not entered.
pub open spec fn spec_stmts_have_panic(ss: Seq<Stmt>) -> bool
    decreases ss,
{
    if ss.len() == 0 {
        false
    } else {
        spec_stmts_have_panic(ss.drop_last()) || match ss.last() {
            Stmt::Local(init) => match init {
                Some(li) => spec_expr_has_panic(li.expr) || match li.diverge {
                    Some(d) => spec_expr_has_panic(d),
                    None => false,
                },
                None => false,
            },
            Stmt::Expr(e) => spec_expr_has_panic(e),
            Stmt::Item => false,
            Stmt::Macro(m) => spec_is_panic_name(m.name()),
        }
    }
}

/// Whether the expression holds something that panics.
pub fn rvs_scan_expr_has_panic(e: &Expr) -> (r: bool)
    ensures
        r == spec_expr_has_panic(*e),
    decreases e,
{
    match e {
        Expr::Macro(m) => rvs_is_panic_macro(m),
        Expr::Block(_, b) => rvs_scan_block_has_panic(b),
        Expr::If(c, t, els) => {
            rvs_scan_expr_has_panic(c) || rvs_scan_block_has_panic(t) || match els {
                Some(x) => rvs_scan_expr_has_panic(x),
                None => false,
            }
        },
        Expr::Match(x, arms) => rvs_scan_expr_has_panic(x) || rvs_scan_arms_have_panic(arms),
        Expr::While(c, b) => rvs_scan_expr_has_panic(c) || rvs_scan_block_has_panic(b),
        Expr::ForLoop(c, b) => rvs_scan_expr_has_panic(c) || rvs_scan_block_has_panic(b),
        Expr::Closure(x) => rvs_scan_expr_has_panic(x),
        Expr::Call(f, args) => rvs_scan_expr_has_panic(f) || rvs_scan_exprs_have_panic(args),
        Expr::MethodCall(r, m, args) => {
            let name = m.ident.as_str();
            rvs_text_is(name, "unwrap") || rvs_text_is(name, "expect") || rvs_scan_expr_has_panic(r)
                || rvs_scan_exprs_have_panic(args)
        },
        Expr::Unary(_, x) => rvs_scan_expr_has_panic(x),
        Expr::Pair(_, a, b) => rvs_scan_expr_has_panic(a) || rvs_scan_expr_has_panic(b),
        Expr::Tuple(es) => rvs_scan_exprs_have_panic(es),
        Expr::Array(es) => rvs_scan_exprs_have_panic(es),
        Expr::Struct(fs, rest) => rvs_scan_exprs_have_panic(fs) || match rest {
            Some(x) => rvs_scan_expr_has_panic(x),
            None => false,
        },
        Expr::Range(a, b) => (match a {
            Some(x) => rvs_scan_expr_has_panic(x),
            None => false,
        }) || (match b {
            Some(x) => rvs_scan_expr_has_panic(x),
            None => false,
        }),
        Expr::Return(x) => match x {
            Some(y) => rvs_scan_expr_has_panic(y),
            None => false,
        },
        Expr::Break(x) => match x {
            Some(y) => rvs_scan_expr_has_panic(y),
            None => false,
        },
        Expr::Path(_) => false,
        Expr::Other => false,
    }
}

fn rvs_scan_exprs_have_panic(es: &Vec<Expr>) -> (r: bool)
    ensures
        r == spec_exprs_have_panic(es@),
    decreases es,
{
    let mut i: usize = 0;
    while i < es.len()
        invariant
            i <= es@.len(),
            !spec_exprs_have_panic(es@.take(i as int)),
        decreases es@.len() - i,
    {
        assert(es@.take(i + 1).drop_last() =~= es@.take(i as int));
        if rvs_scan_expr_has_panic(&es[i]) {
            assert(es@.take(i + 1).last() == es@[i as int]);
            proof { lemma_exprs_panic_prefix(es@, i as int + 1); }
            return true;
        }
        i = i + 1;
    }
    assert(es@.take(es@.len() as int) =~= es@);
    false
}

proof fn lemma_exprs_panic_prefix(es: Seq<Expr>, k: int)
    requires
        0 <= k <= es.len(),
        spec_exprs_have_panic(es.take(k)),
    ensures
        spec_exprs_have_panic(es),
    decreases es.len() - k,
{
    if k < es.len() {
        assert(es.take(k + 1).drop_last() =~= es.take(k));
        lemma_exprs_panic_prefix(es, k + 1);
    } else {
        assert(es.take(k) =~= es);
    }
}

fn rvs_scan_arms_have_panic(arms: &Vec<Arm>) -> (r: bool)
    ensures
        r == spec_arms_have_panic(arms@),
    decreases arms,
{
    let mut i: usize = 0;
    while i < arms.len()
        invariant
            i <= arms@.len(),
            !spec_arms_have_panic(arms@.take(i as int)),
        decreases arms@.len() - i,
    {
        assert(arms@.take(i + 1).drop_last() =~= arms@.take(i as int));
        assert(arms@.take(i + 1).last() == arms@[i as int]);
        let arm = &arms[i];
        let hit = match &arm.guard {
            Some(g) => rvs_scan_expr_has_panic(g),
            None => false,
        } || rvs_scan_expr_has_panic(&arm.body);
        if hit {
            proof { lemma_arms_panic_prefix(arms@, i as int + 1); }
            return true;
        }
        i = i + 1;
    }
    assert(arms@.take(arms@.len() as int) =~= arms@);
    false
}

proof fn lemma_arms_panic_prefix(arms: Seq<Arm>, k: int)
    requires
        0 <= k <= arms.len(),
        spec_arms_have_panic(arms.take(k)),
    ensures
        spec_arms_have_panic(arms),
    decreases arms.len() - k,
{
    if k < arms.len() {
        assert(arms.take(k + 1).drop_last() =~= arms.take(k));
        lemma_arms_panic_prefix(arms, k + 1);
    } else {
        assert(arms.take(k) =~= arms);
    }
}

/// Whether the block holds something that panics.
pub fn rvs_scan_block_has_panic(b: &Block) -> (r: bool)
    ensures
        r == spec_block_has_panic(*b),
    decreases b,
{
    let ss = &b.stmts;
    let mut i: usize = 0;
    while i < ss.len()
        invariant
            ss == &b.stmts,
            i <= ss@.len(),
            !spec_stmts_have_panic(ss@.take(i as int)),
        decreases ss@.len() - i,
    {
        assert(ss@.take(i + 1).drop_last() =~= ss@.take(i as int));
        assert(ss@.take(i + 1).last() == ss@[i as int]);
        let hit = match &ss[i] {
            Stmt::Local(init) => match init {
                Some(li) => rvs_scan_expr_has_panic(&li.expr) || match &li.diverge {
                    Some(d) => rvs_scan_expr_has_panic(d),
                    None => false,
                },
                None => false,
            },
            Stmt::Expr(e) => rvs_scan_expr_has_panic(e),
            Stmt::Item => false,
            Stmt::Macro(m) => rvs_is_panic_macro(m),
        };
        if hit {
            proof { lemma_stmts_panic_prefix(ss@, i as int + 1); }
            return true;
        }
        i = i + 1;
    }
    assert(ss@.take(ss@.len() as int) =~= ss@);
    false
}

proof fn lemma_stmts_panic_prefix(ss: Seq<Stmt>, k: int)
    requires
        0 <= k <= ss.len(),
        spec_stmts_have_panic(ss.take(k)),
    ensures
        spec_stmts_have_panic(ss),
    decreases ss.len() - k,
{
    if k < ss.len() {
        assert(ss.take(k + 1).drop_last() =~= ss.take(k));
        lemma_stmts_panic_prefix(ss, k + 1);
    } else {
        assert(ss.take(k) =~= ss);
    }
}

/// Whether a string spells the given text.
fn rvs_text_is(s: &str, text: &str) -> (r: bool)
    ensures
        r == (s@ == text@),
{
    let chars = crate::text::rvs_chars_of(s);
    rvs_spells(chars.as_slice(), text)
}

// ------------------------------------------------------------------ stubs

/// A stub use as a row: the function, the macro and the line.
pub type StubRow = (Seq<char>, Seq<char>, usize);

/// The rows of recorded stub uses.
pub open spec fn spec_stub_rows(v: Seq<StubMacroInfo>) -> Seq<StubRow> {
    v.map_values(|s: StubMacroInfo| (s.function@, s.macro_name@, s.line))
}

/// The stub use of a macro invocation in function `f`, if it is one.
pub open spec fn spec_macro_stub(m: MacroUse, f: Seq<char>) -> Seq<StubRow> {
    if spec_is_stub_name(m.name()) {
        seq![(f, m.name(), m.line())]
    } else {
        Seq::empty()
    }
}

/// The stub uses in an expression of function `f`, in source order.  The
/// base of a struct literal is not entered.
pub open spec fn spec_expr_stubs(e: Expr, f: Seq<char>) -> Seq<StubRow>
    decreases e,
{
    match e {
        Expr::Macro(m) => spec_macro_stub(m, f),
        Expr::Block(_, b) => spec_block_stubs(b, f),
        Expr::If(c, t, els) => spec_expr_stubs(*c, f) + spec_block_stubs(t, f) + match els {
            Some(x) => spec_expr_stubs(*x, f),
            None => Seq::empty(),
        },
        Expr::Match(x, arms) => spec_expr_stubs(*x, f) + spec_arms_stubs(arms@, f),
        Expr::While(c, b) => spec_expr_stubs(*c, f) + spec_block_stubs(b, f),
        Expr::ForLoop(c, b) => spec_expr_stubs(*c, f) + spec_block_stubs(b, f),
        Expr::Closure(x) => spec_expr_stubs(*x, f),
        Expr::Call(g, args) => spec_expr_stubs(*g, f) + spec_exprs_stubs(args@, f),
        Expr::MethodCall(r, _, args) => spec_expr_stubs(*r, f) + spec_exprs_stubs(args@, f),
        Expr::Unary(_, x) => spec_expr_stubs(*x, f),
        Expr::Pair(_, a, b) => spec_expr_stubs(*a, f) + spec_expr_stubs(*b, f),
        Expr::Tuple(es) => spec_exprs_stubs(es@, f),
        Expr::Array(es) => spec_exprs_stubs(es@, f),
        Expr::Struct(fs, _) => spec_exprs_stubs(fs@, f),
        Expr::Range(a, b) => (match a {
            Some(x) => spec_expr_stubs(*x, f),
            None => Seq::empty(),
        }) + (match b {
            Some(x) => spec_expr_stubs(*x, f),
            None => Seq::empty(),
        }),
        Expr::Return(x) => match x {
            Some(y) => spec_expr_stubs(*y, f),
            None => Seq::empty(),
        },
        Expr::Break(x) => match x {
            Some(y) => spec_expr_stubs(*y, f),
            None => Seq::empty(),
        },
        Expr::Path(_) => Seq::empty(),
        Expr::Other => Seq::empty(),
    }
}

/// The stub uses in a list of expressions.
pub open spec fn spec_exprs_stubs(es: Seq<Expr>, f: Seq<char>) -> Seq<StubRow>
    decreases es,
{
    if es.len() == 0 {
        Seq::empty()
    } else {
        spec_exprs_stubs(es.drop_last(), f) + spec_expr_stubs(es.last(), f)
    }
}

/// The stub uses in match arms: each guard, then each body.
pub open spec fn spec_arms_stubs(arms: Seq<Arm>, f: Seq<char>) -> Seq<StubRow>
    decreases arms,
{
    if arms.len() == 0 {
        Seq::empty()
    } else {
        spec_arms_stubs(arms.drop_last(), f) + (match arms.last().guard {
            Some(g) => spec_expr_stubs(g, f),
            None => Seq::empty(),
        }) + spec_expr_stubs(arms.last().body, f)
    }
}

/// The stub uses in a block.
pub open spec fn spec_block_stubs(b: Block, f: Seq<char>) -> Seq<StubRow>
    decreases b,
{
    spec_stmts_stubs(b.stmts@, f)
}

/// The stub uses in statements.  Items are not entered.
pub open spec fn spec_stmts_stubs(ss: Seq<Stmt>, f: Seq<char>) -> Seq<StubRow>
    decreases ss,
{
    if ss.len() == 0 {
        Seq::empty()
    } else {
        spec_stmts_stubs(ss.drop_last(), f) + match ss.last() {
            Stmt::Local(init) => match init {
                Some(li) => spec_expr_stubs(li.expr, f) + match li.diverge {
                    Some(d) => spec_expr_stubs(d, f),
                    None => Seq::empty(),
                },
                None => Seq::empty(),
            },
            Stmt::Expr(e) => spec_expr_stubs(e, f),
            Stmt::Item => Seq::empty(),
            Stmt::Macro(m) => spec_macro_stub(m, f),
        }
    }
}

fn rvs_append_stubs(r: &mut Vec<StubMacroInfo>, sub: Vec<StubMacroInfo>)
    ensures
        spec_stub_rows(final(r)@) == spec_stub_rows(old(r)@) + spec_stub_rows(sub@),
{
    let mut sub = sub;
    let ghost before = r@;
    let ghost added = sub@;
    r.append(&mut sub);
    assert(spec_stub_rows(r@) =~= spec_stub_rows(before) + spec_stub_rows(added));
}

fn rvs_macro_stub(m: &MacroUse, fn_name: &str) -> (r: Vec<StubMacroInfo>)
    ensures
        spec_stub_rows(r@) == spec_macro_stub(*m, fn_name@),
{
    let mut r: Vec<StubMacroInfo> = Vec::new();
    if rvs_is_stub_macro(m) {
        let name = m.rvs_name();
        r.push(StubMacroInfo { function: fn_name.to_owned(), macro_name: rvs_string_of(name.as_slice()), line: m.rvs_line() });
    }
    assert(spec_stub_rows(r@) =~= spec_macro_stub(*m, fn_name@));
    r
}

fn rvs_opt_stubs(x: &Option<Box<Expr>>, fn_name: &str) -> (r: Vec<StubMacroInfo>)
    ensures
        spec_stub_rows(r@) == match *x {
            Some(y) => spec_expr_stubs(*y, fn_name@),
            None => Seq::empty(),
        },
    decreases x,
{
    match x {
        Some(y) => rvs_scan_expr_for_stubs(y, fn_name),
        None => {
            let r: Vec<StubMacroInfo> = Vec::new();
            assert(spec_stub_rows(r@) =~= Seq::<StubRow>::empty());
            r
        },
    }
}

/// The stub uses in an expression of function `fn_name`, in source order.
pub fn rvs_scan_expr_for_stubs(e: &Expr, fn_name: &str) -> (r: Vec<StubMacroInfo>)
    ensures
        spec_stub_rows(r@) == spec_expr_stubs(*e, fn_name@),
    decreases e,
{
    match e {
        Expr::Macro(m) => rvs_macro_stub(m, fn_name),
        Expr::Block(_, b) => rvs_scan_block_for_stubs(b, fn_name),
        Expr::If(c, t, els) => {
            let mut r = rvs_scan_expr_for_stubs(c, fn_name);
            rvs_append_stubs(&mut r, rvs_scan_block_for_stubs(t, fn_name));
            rvs_append_stubs(&mut r, rvs_opt_stubs(els, fn_name));
            r
        },
        Expr::Match(x, arms) => {
            let mut r = rvs_scan_expr_for_stubs(x, fn_name);
            rvs_append_stubs(&mut r, rvs_scan_arms_for_stubs(arms, fn_name));
            r
        },
        Expr::While(c, b) => {
            let mut r = rvs_scan_expr_for_stubs(c, fn_name);
            rvs_append_stubs(&mut r, rvs_scan_block_for_stubs(b, fn_name));
            r
        },
        Expr::ForLoop(c, b) => {
            let mut r = rvs_scan_expr_for_stubs(c, fn_name);
            rvs_append_stubs(&mut r, rvs_scan_block_for_stubs(b, fn_name));
            r
        },
        Expr::Closure(x) => rvs_scan_expr_for_stubs(x, fn_name),
        Expr::Call(g, args) => {
            let mut r = rvs_scan_expr_for_stubs(g, fn_name);
            rvs_append_stubs(&mut r, rvs_scan_exprs_for_stubs(args, fn_name));
            r
        },
        Expr::MethodCall(x, _, args) => {
            let mut r = rvs_scan_expr_for_stubs(x, fn_name);
            rvs_append_stubs(&mut r, rvs_scan_exprs_for_stubs(args, fn_name));
            r
        },
        Expr::Unary(_, x) => rvs_scan_expr_for_stubs(x, fn_name),
        Expr::Pair(_, a, b) => {
            let mut r = rvs_scan_expr_for_stubs(a, fn_name);
            rvs_append_stubs(&mut r, rvs_scan_expr_for_stubs(b, fn_name));
            r
        },
        Expr::Tuple(es) => rvs_scan_exprs_for_stubs(es, fn_name),
        Expr::Array(es) => rvs_scan_exprs_for_stubs(es, fn_name),
        Expr::Struct(fs, _) => rvs_scan_exprs_for_stubs(fs, fn_name),
        Expr::Range(a, b) => {
            let mut r = rvs_opt_stubs(a, fn_name);
            rvs_append_stubs(&mut r, rvs_opt_stubs(b, fn_name));
            r
        },
        Expr::Return(x) => rvs_opt_stubs(x, fn_name),
        Expr::Break(x) => rvs_opt_stubs(x, fn_name),
        Expr::Path(_) => {
            let r: Vec<StubMacroInfo> = Vec::new();
            assert(spec_stub_rows(r@) =~= Seq::<StubRow>::empty());
            r
        },
        Expr::Other => {
            let r: Vec<StubMacroInfo> = Vec::new();
            assert(spec_stub_rows(r@) =~= Seq::<StubRow>::empty());
            r
        },
    }
}

fn rvs_scan_exprs_for_stubs(es: &Vec<Expr>, fn_name: &str) -> (r: Vec<StubMacroInfo>)
    ensures
        spec_stub_rows(r@) == spec_exprs_stubs(es@, fn_name@),
    decreases es,
{
    let mut r: Vec<StubMacroInfo> = Vec::new();
    let mut i: usize = 0;
    assert(spec_stub_rows(r@) =~= spec_exprs_stubs(es@.take(0), fn_name@));
    while i < es.len()
        invariant
            i <= es@.len(),
            spec_stub_rows(r@) == spec_exprs_stubs(es@.take(i as int), fn_name@),
        decreases es@.len() - i,
    {
        assert(es@.take(i + 1).drop_last() =~= es@.take(i as int));
        assert(es@.take(i + 1).last() == es@[i as int]);
        rvs_append_stubs(&mut r, rvs_scan_expr_for_stubs(&es[i], fn_name));
        i = i + 1;
    }
    assert(es@.take(es@.len() as int) =~= es@);
    r
}

fn rvs_scan_arms_for_stubs(arms: &Vec<Arm>, fn_name: &str) -> (r: Vec<StubMacroInfo>)
    ensures
        spec_stub_rows(r@) == spec_arms_stubs(arms@, fn_name@),
    decreases arms,
{
    let mut r: Vec<StubMacroInfo> = Vec::new();
    let mut i: usize = 0;
    assert(spec_stub_rows(r@) =~= spec_arms_stubs(arms@.take(0), fn_name@));
    while i < arms.len()
        invariant
            i <= arms@.len(),
            spec_stub_rows(r@) == spec_arms_stubs(arms@.take(i as int), fn_name@),
        decreases arms@.len() - i,
    {
        assert(arms@.take(i + 1).drop_last() =~= arms@.take(i as int));
        assert(arms@.take(i + 1).last() == arms@[i as int]);
        let arm = &arms[i];
        match &arm.guard {
            Some(g) => rvs_append_stubs(&mut r, rvs_scan_expr_for_stubs(g, fn_name)),
            None => {
                assert(spec_stub_rows(r@) + Seq::<StubRow>::empty() =~= spec_stub_rows(r@));
            },
        }
        rvs_append_stubs(&mut r, rvs_scan_expr_for_stubs(&arm.body, fn_name));
        i = i + 1;
    }
    assert(arms@.take(arms@.len() as int) =~= arms@);
    r
}

/// The stub uses in a block of function `fn_name`, in source order.
pub fn rvs_scan_block_for_stubs(b: &Block, fn_name: &str) -> (r: Vec<StubMacroInfo>)
    ensures
        spec_stub_rows(r@) == spec_block_stubs(*b, fn_name@),
    decreases b,
{
    let ss = &b.stmts;
    let mut r: Vec<StubMacroInfo> = Vec::new();
    let mut i: usize = 0;
    assert(spec_stub_rows(r@) =~= spec_stmts_stubs(ss@.take(0), fn_name@));
    while i < ss.len()
        invariant
            ss == &b.stmts,
            i <= ss@.len(),
            spec_stub_rows(r@) == spec_stmts_stubs(ss@.take(i as int), fn_name@),
        decreases ss@.len() - i,
    {
        assert(ss@.take(i + 1).drop_last() =~= ss@.take(i as int));
        assert(ss@.take(i + 1).last() == ss@[i as int]);
        match &ss[i] {
            Stmt::Local(init) => match init {
                Some(li) => {
                    let mut part = rvs_scan_expr_for_stubs(&li.expr, fn_name);
                    match &li.diverge {
                        Some(d) => rvs_append_stubs(&mut part, rvs_scan_expr_for_stubs(d, fn_name)),
                        None => {
                            assert(spec_stub_rows(part@) + Seq::<StubRow>::empty() =~= spec_stub_rows(part@));
                        },
                    }
                    rvs_append_stubs(&mut r, part);
                },
                None => {
                    assert(spec_stub_rows(r@) + Seq::<StubRow>::empty() =~= spec_stub_rows(r@));
                },
            },
            Stmt::Expr(e) => rvs_append_stubs(&mut r, rvs_scan_expr_for_stubs(e, fn_name)),
            Stmt::Item => {
                assert(spec_stub_rows(r@) + Seq::<StubRow>::empty() =~= spec_stub_rows(r@));
            },
            Stmt::Macro(m) => rvs_append_stubs(&mut r, rvs_macro_stub(m, fn_name)),
        }
        i = i + 1;
    }
    assert(ss@.take(ss@.len() as int) =~= ss@);
    r
}

// ------------------------------------------------------------------- laws

/// Every stub use is also a panic: an expression in which the stub scan
/// finds `todo!` or `unimplemented!` is one the panic scan flags.
pub proof fn lemma_expr_stub_is_panic(e: Expr, f: Seq<char>)
    ensures
        spec_expr_stubs(e, f).len() > 0 ==> spec_expr_has_panic(e),
    decreases e,
{
    match e {
        Expr::Macro(_) => {},
        Expr::Block(_, b) => lemma_block_stub_is_panic(b, f),
        Expr::If(c, t, els) => {
            lemma_expr_stub_is_panic(*c, f);
            lemma_block_stub_is_panic(t, f);
            match els {
                Some(x) => lemma_expr_stub_is_panic(*x, f),
                None => {},
            }
        },
        Expr::Match(x, arms) => {
            lemma_expr_stub_is_panic(*x, f);
            lemma_arms_stub_is_panic(arms@, f);
        },
        Expr::While(c, b) => {
            lemma_expr_stub_is_panic(*c, f);
            lemma_block_stub_is_panic(b, f);
        },
        Expr::ForLoop(c, b) => {
            lemma_expr_stub_is_panic(*c, f);
            lemma_block_stub_is_panic(b, f);
        },
        Expr::Closure(x) => lemma_expr_stub_is_panic(*x, f),
        Expr::Call(g, args) => {
            lemma_expr_stub_is_panic(*g, f);
            lemma_exprs_stub_is_panic(args@, f);
        },
        Expr::MethodCall(r, _, args) => {
            lemma_expr_stub_is_panic(*r, f);
            lemma_exprs_stub_is_panic(args@, f);
        },
        Expr::Unary(_, x) => lemma_expr_stub_is_panic(*x, f),
        Expr::Pair(_, a, b) => {
            lemma_expr_stub_is_panic(*a, f);
            lemma_expr_stub_is_panic(*b, f);
        },
        Expr::Tuple(es) => lemma_exprs_stub_is_panic(es@, f),
        Expr::Array(es) => lemma_exprs_stub_is_panic(es@, f),
        Expr::Struct(fs, _) => lemma_exprs_stub_is_panic(fs@, f),
        Expr::Range(a, b) => {
            match a {
                Some(x) => lemma_expr_stub_is_panic(*x, f),
                None => {},
            }
            match b {
                Some(x) => lemma_expr_stub_is_panic(*x, f),
                None => {},
            }
        },
        Expr::Return(x) => match x {
            Some(y) => lemma_expr_stub_is_panic(*y, f),
            None => {},
        },
        Expr::Break(x) => match x {
            Some(y) => lemma_expr_stub_is_panic(*y, f),
            None => {},
        },
        Expr::Path(_) => {},
        Expr::Other => {},
    }
}

/// Every stub use in a list of expressions is also a panic.
pub proof fn lemma_exprs_stub_is_panic(es: Seq<Expr>, f: Seq<char>)
    ensures
        spec_exprs_stubs(es, f).len() > 0 ==> spec_exprs_have_panic(es),
    decreases es,
{
    if es.len() > 0 {
        lemma_exprs_stub_is_panic(es.drop_last(), f);
        lemma_expr_stub_is_panic(es.last(), f);
    }
}

/// Every stub use in match arms is also a panic.
pub proof fn lemma_arms_stub_is_panic(arms: Seq<Arm>, f: Seq<char>)
    ensures
        spec_arms_stubs(arms, f).len() > 0 ==> spec_arms_have_panic(arms),
    decreases arms,
{
    if arms.len() > 0 {
        lemma_arms_stub_is_panic(arms.drop_last(), f);
        match arms.last().guard {
            Some(g) => lemma_expr_stub_is_panic(g, f),
            None => {},
        }
        lemma_expr_stub_is_panic(arms.last().body, f);
    }
}

/// Every stub use in a block is also a panic: a function body in which
/// `todo!` or `unimplemented!` is found is flagged as panicking.
pub proof fn lemma_block_stub_is_panic(b: Block, f: Seq<char>)
    ensures
        spec_block_stubs(b, f).len() > 0 ==> spec_block_has_panic(b),
    decreases b,
{
    lemma_stmts_stub_is_panic(b.stmts@, f);
}

/// Every stub use in statements is also a panic.
pub proof fn lemma_stmts_stub_is_panic(ss: Seq<Stmt>, f: Seq<char>)
    ensures
        spec_stmts_stubs(ss, f).len() > 0 ==> spec_stmts_have_panic(ss),
    decreases ss,
{
    if ss.len() > 0 {
        lemma_stmts_stub_is_panic(ss.drop_last(), f);
        match ss.last() {
            Stmt::Local(init) => match init {
                Some(li) => {
                    lemma_expr_stub_is_panic(li.expr, f);
                    match li.diverge {
                        Some(d) => lemma_expr_stub_is_panic(d, f),
                        None => {},
                    }
                },
                None => {},
            },
            Stmt::Expr(e) => lemma_expr_stub_is_panic(e, f),
            Stmt::Item => {},
            Stmt::Macro(_) => {},
        }
    }
}

// ------------------------------------------------------------ empty bodies

/// Whether an expression is only debug assertions: a `debug_assert` macro,
/// or a plain block holding nothing else.
pub open spec fn spec_expr_only_debug_asserts(e: Expr) -> bool
    decreases e,
{
    match e {
        Expr::Macro(m) => spec_is_debug_assert_name(m.name()),
        Expr::Block(k, b) => k == BlockKind::Plain && spec_block_is_empty(b),
        _ => false,
    }
}

/// Whether a block holds no logic: each statement is a `debug_assert`
/// macro or an expression that is only debug assertions.
pub open spec fn spec_block_is_empty(b: Block) -> bool
    decreases b,
{
    spec_stmts_only_debug_asserts(b.stmts@)
}

/// Whether each statement is a `debug_assert` macro or only debug
/// assertions.
pub open spec fn spec_stmts_only_debug_asserts(ss: Seq<Stmt>) -> bool
    decreases ss,
{
    if ss.len() == 0 {
        true
    } else {
        spec_stmts_only_debug_asserts(ss.drop_last()) && match ss.last() {
            Stmt::Macro(m) => spec_is_debug_assert_name(m.name()),
            Stmt::Expr(e) => spec_expr_only_debug_asserts(e),
            Stmt::Local(_) => false,
            Stmt::Item => false,
        }
    }
}

/// Whether an expression is only debug assertions.
pub fn rvs_is_only_debug_asserts_expr(e: &Expr) -> (r: bool)
    ensures
        r == spec_expr_only_debug_asserts(*e),
    decreases e,
{
    match e {
        Expr::Macro(m) => rvs_is_debug_assert(m),
        Expr::Block(k, b) => match k {
            BlockKind::Plain => rvs_is_empty_block(b),
            _ => false,
        },
        _ => false,
    }
}

/// Whether a block holds no logic besides debug assertions.
pub fn rvs_is_empty_block(b: &Block) -> (r: bool)
    ensures
        r == spec_block_is_empty(*b),
    decreases b,
{
    let ss = &b.stmts;
    let mut i: usize = 0;
    while i < ss.len()
        invariant
            ss == &b.stmts,
            i <= ss@.len(),
            spec_stmts_only_debug_asserts(ss@.take(i as int)),
        decreases ss@.len() - i,
    {
        assert(ss@.take(i + 1).drop_last() =~= ss@.take(i as int));
        assert(ss@.take(i + 1).last() == ss@[i as int]);
        let ok = match &ss[i] {
            Stmt::Macro(m) => rvs_is_debug_assert(m),
            Stmt::Expr(e) => rvs_is_only_debug_asserts_expr(e),
            Stmt::Local(_) => false,
            Stmt::Item => false,
        };
        if !ok {
            proof { lemma_stmts_debug_prefix(ss@, i as int + 1); }
            return false;
        }
        i = i + 1;
    }
    assert(ss@.take(ss@.len() as int) =~= ss@);
    true
}

/// A prefix that is not only debug assertions spoils the whole list.
proof fn lemma_stmts_debug_prefix(ss: Seq<Stmt>, k: int)
    requires
        0 <= k <= ss.len(),
        !spec_stmts_only_debug_asserts(ss.take(k)),
    ensures
        !spec_stmts_only_debug_asserts(ss),
    decreases ss.len() - k,
{
    if k < ss.len() {
        assert(ss.take(k + 1).drop_last() =~= ss.take(k));
        lemma_stmts_debug_prefix(ss, k + 1);
    } else {
        assert(ss.take(k) =~= ss);
    }
}

/// No `debug_assert` macro is a panicking macro or a stub macro.
pub proof fn lemma_debug_assert_is_not_panic(name: Seq<char>)
    requires
        spec_is_debug_assert_name(name),
    ensures
        !spec_is_panic_name(name),
        !spec_is_stub_name(name),
{
    reveal_strlit("debug_assert");
    reveal_strlit("panic");
    reveal_strlit("assert");
    reveal_strlit("assert_eq");
    reveal_strlit("assert_ne");
    reveal_strlit("unreachable");
    reveal_strlit("todo");
    reveal_strlit("unimplemented");
    let n = "debug_assert"@.len() as int;
    assert(name.subrange(0, n) == "debug_assert"@);
    assert(name.subrange(0, n)[0] == name[0]);
    assert(name[0] == 'd');
}

/// A body that is only debug assertions holds nothing that panics, no
/// `unsafe` block and no stub use.
pub proof fn lemma_empty_block_is_quiet(b: Block, f: Seq<char>)
    requires
        spec_block_is_empty(b),
    ensures
        !spec_block_has_panic(b),
        !spec_block_has_unsafe(b),
        spec_block_stubs(b, f).len() == 0,
    decreases b,
{
    lemma_empty_stmts_are_quiet(b.stmts@, f);
}

proof fn lemma_empty_stmts_are_quiet(ss: Seq<Stmt>, f: Seq<char>)
    requires
        spec_stmts_only_debug_asserts(ss),
    ensures
        !spec_stmts_have_panic(ss),
        !spec_stmts_have_unsafe(ss),
        spec_stmts_stubs(ss, f).len() == 0,
    decreases ss,
{
    if ss.len() > 0 {
        lemma_empty_stmts_are_quiet(ss.drop_last(), f);
        match ss.last() {
            Stmt::Macro(m) => lemma_debug_assert_is_not_panic(m.name()),
            Stmt::Expr(e) => lemma_debug_expr_is_quiet(e, f),
            _ => {},
        }
    }
}

proof fn lemma_debug_expr_is_quiet(e: Expr, f: Seq<char>)
    requires
        spec_expr_only_debug_asserts(e),
    ensures
        !spec_expr_has_panic(e),
        !spec_expr_has_unsafe(e),
        spec_expr_stubs(e, f).len() == 0,
    decreases e,
{
    match e {
        Expr::Macro(m) => lemma_debug_assert_is_not_panic(m.name()),
        Expr::Block(_, b) => lemma_empty_block_is_quiet(b, f),
        _ => {},
    }
}

// -------------------------------------------------------- debug asserts

/// The identifiers among the tokens, groups entered.
pub open spec fn spec_token_idents(ts: Seq<Token>) -> Set<Seq<char>>
    decreases ts,
{
    if ts.len() == 0 {
        Set::empty()
    } else {
        spec_token_idents(ts.drop_last()).union(match ts.last() {
            Token::Ident(s) => set![s@],
            Token::Group(_, inner) => spec_token_idents(inner@),
            _ => Set::empty(),
        })
    }
}

/// The identifiers a macro contributes if it is a `debug_assert`.
pub open spec fn spec_macro_assert_ids(m: MacroUse) -> Set<Seq<char>> {
    if spec_is_debug_assert_name(m.name()) {
        spec_token_idents(m.tokens@)
    } else {
        Set::empty()
    }
}

/// The identifiers named in the `debug_assert` macros of an expression.
/// Match scrutinees and guards, struct bases, casts, `async` blocks and
/// `try` blocks are not entered.
pub open spec fn spec_expr_assert_ids(e: Expr) -> Set<Seq<char>>
    decreases e,
{
    match e {
        Expr::Macro(m) => spec_macro_assert_ids(m),
        Expr::Block(k, b) => if k == BlockKind::Async || k == BlockKind::TryBlock {
            Set::empty()
        } else {
            spec_block_assert_ids(b)
        },
        Expr::If(c, t, els) => spec_expr_assert_ids(*c).union(spec_block_assert_ids(t)).union(match els {
            Some(x) => spec_expr_assert_ids(*x),
            None => Set::empty(),
        }),
        Expr::Match(_, arms) => spec_arms_assert_ids(arms@),
        Expr::While(c, b) => spec_expr_assert_ids(*c).union(spec_block_assert_ids(b)),
        Expr::ForLoop(c, b) => spec_expr_assert_ids(*c).union(spec_block_assert_ids(b)),
        Expr::Closure(x) => spec_expr_assert_ids(*x),
        Expr::Call(f, args) => spec_expr_assert_ids(*f).union(spec_exprs_assert_ids(args@)),
        Expr::MethodCall(r, _, args) => spec_expr_assert_ids(*r).union(spec_exprs_assert_ids(args@)),
        Expr::Unary(k, x) => if k == UnaryKind::Cast {
            Set::empty()
        } else {
            spec_expr_assert_ids(*x)
        },
        Expr::Pair(_, a, b) => spec_expr_assert_ids(*a).union(spec_expr_assert_ids(*b)),
        Expr::Tuple(es) => spec_exprs_assert_ids(es@),
        Expr::Array(es) => spec_exprs_assert_ids(es@),
        Expr::Struct(fs, _) => spec_exprs_assert_ids(fs@),
        Expr::Range(a, b) => (match a {
            Some(x) => spec_expr_assert_ids(*x),
            None => Set::empty(),
        }).union(match b {
            Some(x) => spec_expr_assert_ids(*x),
            None => Set::empty(),
        }),
        Expr::Return(x) => match x {
            Some(y) => spec_expr_assert_ids(*y),
            None => Set::empty(),
        },
        Expr::Break(x) => match x {
            Some(y) => spec_expr_assert_ids(*y),
            None => Set::empty(),
        },
        Expr::Path(_) => Set::empty(),
        Expr::Other => Set::empty(),
    }
}

pub open spec fn spec_exprs_assert_ids(es: Seq<Expr>) -> Set<Seq<char>>
    decreases es,
{
    if es.len() == 0 {
        Set::empty()
    } else {
        spec_exprs_assert_ids(es.drop_last()).union(spec_expr_assert_ids(es.last()))
    }
}

/// The identifiers in the debug assertions of the arm bodies.
pub open spec fn spec_arms_assert_ids(arms: Seq<Arm>) -> Set<Seq<char>>
    decreases arms,
{
    if arms.len() == 0 {
        Set::empty()
    } else {
        spec_arms_assert_ids(arms.drop_last()).union(spec_expr_assert_ids(arms.last().body))
    }
}

/// The identifiers named in the `debug_assert` macros of a block.
pub open spec fn spec_block_assert_ids(b: Block) -> Set<Seq<char>>
    decreases b,
{
    spec_stmts_assert_ids(b.stmts@)
}

/// The identifiers in the debug assertions of statements; of a `let` only
/// the initializer is entered.
pub open spec fn spec_stmts_assert_ids(ss: Seq<Stmt>) -> Set<Seq<char>>
    decreases ss,
{
    if ss.len() == 0 {
        Set::empty()
    } else {
        spec_stmts_assert_ids(ss.drop_last()).union(match ss.last() {
            Stmt::Macro(m) => spec_macro_assert_ids(m),
            Stmt::Expr(e) => spec_expr_assert_ids(e),
            Stmt::Local(init) => match init {
                Some(li) => spec_expr_assert_ids(li.expr),
                None => Set::empty(),
            },
            Stmt::Item => Set::empty(),
        })
    }
}

/// The texts of a list of strings, as a set.
pub open spec fn spec_text_set(v: Seq<String>) -> Set<Seq<char>> {
    Set::new(|x: Seq<char>| exists|i: int| 0 <= i < v.len() && #[trigger] v[i]@ == x)
}

fn rvs_append_ids(r: &mut Vec<String>, sub: Vec<String>)
    ensures
        spec_text_set(final(r)@) == spec_text_set(old(r)@).union(spec_text_set(sub@)),
{
    let mut sub = sub;
    let ghost a = r@;
    let ghost b = sub@;
    r.append(&mut sub);
    assert forall|x: Seq<char>| #[trigger] spec_text_set(r@).contains(x) == spec_text_set(a).union(spec_text_set(b)).contains(x) by {
        if spec_text_set(r@).contains(x) {
            let i = choose|i: int| 0 <= i < r@.len() && #[trigger] r@[i]@ == x;
            if i < a.len() {
                assert(a[i]@ == x);
            } else {
                assert(b[i - a.len()]@ == x);
            }
        }
        if spec_text_set(a).contains(x) {
            let i = choose|i: int| 0 <= i < a.len() && #[trigger] a[i]@ == x;
            assert(r@[i]@ == x);
        }
        if spec_text_set(b).contains(x) {
            let i = choose|i: int| 0 <= i < b.len() && #[trigger] b[i]@ == x;
            assert(r@[a.len() + i]@ == x);
        }
    }
    assert(spec_text_set(r@) =~= spec_text_set(a).union(spec_text_set(b)));
}

fn rvs_no_ids() -> (r: Vec<String>)
    ensures
        spec_text_set(r@) == Set::<Seq<char>>::empty(),
{
    let r: Vec<String> = Vec::new();
    assert(spec_text_set(r@) =~= Set::<Seq<char>>::empty());
    r
}

/// The identifiers among the tokens of a macro, groups entered.
pub fn rvs_collect_ident_tokens(tokens: &Vec<Token>) -> (r: Vec<String>)
    ensures
        spec_text_set(r@) == spec_token_idents(tokens@),
    decreases tokens,
{
    let mut r = rvs_no_ids();
    let mut i: usize = 0;
    while i < tokens.len()
        invariant
            i <= tokens@.len(),
            spec_text_set(r@) == spec_token_idents(tokens@.take(i as int)),
        decreases tokens@.len() - i,
    {
        assert(tokens@.take(i + 1).drop_last() =~= tokens@.take(i as int));
        assert(tokens@.take(i + 1).last() == tokens@[i as int]);
        match &tokens[i] {
            Token::Ident(s) => {
                let mut one: Vec<String> = Vec::new();
                one.push(s.clone());
                assert(spec_text_set(one@) =~= set![s@]) by {
                    assert(one@[0]@ == s@);
                }
                rvs_append_ids(&mut r, one);
            },
            Token::Group(_, inner) => rvs_append_ids(&mut r, rvs_collect_ident_tokens(inner)),
            _ => {
                assert(spec_text_set(r@).union(Set::empty()) =~= spec_text_set(r@));
            },
        }
        i = i + 1;
    }
    assert(tokens@.take(tokens@.len() as int) =~= tokens@);
    r
}

fn rvs_macro_assert_ids(m: &MacroUse) -> (r: Vec<String>)
    ensures
        spec_text_set(r@) == spec_macro_assert_ids(*m),
{
    if rvs_is_debug_assert(m) {
        rvs_collect_ident_tokens(&m.tokens)
    } else {
        rvs_no_ids()
    }
}

fn rvs_opt_assert_ids(x: &Option<Box<Expr>>) -> (r: Vec<String>)
    ensures
        spec_text_set(r@) == match *x {
            Some(y) => spec_expr_assert_ids(*y),
            None => Set::empty(),
        },
    decreases x,
{
    match x {
        Some(y) => rvs_collect_assert_ids_from_expr(y),
        None => rvs_no_ids(),
    }
}

/// The identifiers named in the `debug_assert` macros of an expression.
pub fn rvs_collect_assert_ids_from_expr(e: &Expr) -> (r: Vec<String>)
    ensures
        spec_text_set(r@) == spec_expr_assert_ids(*e),
    decreases e,
{
    match e {
        Expr::Macro(m) => rvs_macro_assert_ids(m),
        Expr::Block(k, b) => match k {
            BlockKind::Async => rvs_no_ids(),
            BlockKind::TryBlock => rvs_no_ids(),
            _ => rvs_collect_assert_ids_from_block(b),
        },
        Expr::If(c, t, els) => {
            let mut r = rvs_collect_assert_ids_from_expr(c);
            rvs_append_ids(&mut r, rvs_collect_assert_ids_from_block(t));
            rvs_append_ids(&mut r, rvs_opt_assert_ids(els));
            r
        },
        Expr::Match(_, arms) => rvs_collect_assert_ids_from_arms(arms),
        Expr::While(c, b) => {
            let mut r = rvs_collect_assert_ids_from_expr(c);
            rvs_append_ids(&mut r, rvs_collect_assert_ids_from_block(b));
            r
        },
        Expr::ForLoop(c, b) => {
            let mut r = rvs_collect_assert_ids_from_expr(c);
            rvs_append_ids(&mut r, rvs_collect_assert_ids_from_block(b));
            r
        },
        Expr::Closure(x) => rvs_collect_assert_ids_from_expr(x),
        Expr::Call(f, args) => {
            let mut r = rvs_collect_assert_ids_from_expr(f);
            rvs_append_ids(&mut r, rvs_collect_assert_ids_from_exprs(args));
            r
        },
        Expr::MethodCall(x, _, args) => {
            let mut r = rvs_collect_assert_ids_from_expr(x);
            rvs_append_ids(&mut r, rvs_collect_assert_ids_from_exprs(args));
            r
        },
        Expr::Unary(k, x) => match k {
            UnaryKind::Cast => rvs_no_ids(),
            _ => rvs_collect_assert_ids_from_expr(x),
        },
        Expr::Pair(_, a, b) => {
            let mut r = rvs_collect_assert_ids_from_expr(a);
            rvs_append_ids(&mut r, rvs_collect_assert_ids_from_expr(b));
            r
        },
        Expr::Tuple(es) => rvs_collect_assert_ids_from_exprs(es),
        Expr::Array(es) => rvs_collect_assert_ids_from_exprs(es),
        Expr::Struct(fs, _) => rvs_collect_assert_ids_from_exprs(fs),
        Expr::Range(a, b) => {
            let mut r = rvs_opt_assert_ids(a);
            rvs_append_ids(&mut r, rvs_opt_assert_ids(b));
            r
        },
        Expr::Return(x) => rvs_opt_assert_ids(x),
        Expr::Break(x) => rvs_opt_assert_ids(x),
        Expr::Path(_) => rvs_no_ids(),
        Expr::Other => rvs_no_ids(),
    }
}

fn rvs_collect_assert_ids_from_exprs(es: &Vec<Expr>) -> (r: Vec<String>)
    ensures
        spec_text_set(r@) == spec_exprs_assert_ids(es@),
    decreases es,
{
    let mut r = rvs_no_ids();
    let mut i: usize = 0;
    while i < es.len()
        invariant
            i <= es@.len(),
            spec_text_set(r@) == spec_exprs_assert_ids(es@.take(i as int)),
        decreases es@.len() - i,
    {
        assert(es@.take(i + 1).drop_last() =~= es@.take(i as int));
        assert(es@.take(i + 1).last() == es@[i as int]);
        rvs_append_ids(&mut r, rvs_collect_assert_ids_from_expr(&es[i]));
        i = i + 1;
    }
    assert(es@.take(es@.len() as int) =~= es@);
    r
}

fn rvs_collect_assert_ids_from_arms(arms: &Vec<Arm>) -> (r: Vec<String>)
    ensures
        spec_text_set(r@) == spec_arms_assert_ids(arms@),
    decreases arms,
{
    let mut r = rvs_no_ids();
    let mut i: usize = 0;
    while i < arms.len()
        invariant
            i <= arms@.len(),
            spec_text_set(r@) == spec_arms_assert_ids(arms@.take(i as int)),
        decreases arms@.len() - i,
    {
        assert(arms@.take(i + 1).drop_last() =~= arms@.take(i as int));
        assert(arms@.take(i + 1).last() == arms@[i as int]);
        rvs_append_ids(&mut r, rvs_collect_assert_ids_from_expr(&arms[i].body));
        i = i + 1;
    }
    assert(arms@.take(arms@.len() as int) =~= arms@);
    r
}

/// The identifiers named in the `debug_assert` macros of a block.
pub fn rvs_collect_assert_ids_from_block(b: &Block) -> (r: Vec<String>)
    ensures
        spec_text_set(r@) == spec_block_assert_ids(*b),
    decreases b,
{
    let ss = &b.stmts;
    let mut r = rvs_no_ids();
    let mut i: usize = 0;
    while i < ss.len()
        invariant
            ss == &b.stmts,
            i <= ss@.len(),
            spec_text_set(r@) == spec_stmts_assert_ids(ss@.take(i as int)),
        decreases ss@.len() - i,
    {
        assert(ss@.take(i + 1).drop_last() =~= ss@.take(i as int));
        assert(ss@.take(i + 1).last() == ss@[i as int]);
        match &ss[i] {
            Stmt::Macro(m) => rvs_append_ids(&mut r, rvs_macro_assert_ids(m)),
            Stmt::Expr(e) => rvs_append_ids(&mut r, rvs_collect_assert_ids_from_expr(e)),
            Stmt::Local(init) => match init {
                Some(li) => rvs_append_ids(&mut r, rvs_collect_assert_ids_from_expr(&li.expr)),
                None => {
                    assert(spec_text_set(r@).union(Set::empty()) =~= spec_text_set(r@));
                },
            },
            Stmt::Item => {
                assert(spec_text_set(r@).union(Set::empty()) =~= spec_text_set(r@));
            },
        }
        i = i + 1;
    }
    assert(ss@.take(ss@.len() as int) =~= ss@);
    r
}

/// Whether the strings strictly ascend.
pub open spec fn spec_strictly_ascending(v: Seq<String>) -> bool {
    forall|i: int, j: int| 0 <= i < j < v.len() ==> spec_lt(#[trigger] v[i]@, #[trigger] v[j]@)
}

/// The identifiers named in the `debug_assert` macros of a body, each once,
/// in ascending order.
pub fn rvs_collect_debug_asserted_params(b: &Block) -> (r: Vec<String>)
    ensures
        spec_strictly_ascending(r@),
        spec_text_set(r@) == spec_block_assert_ids(*b),
{
    let ids = rvs_collect_assert_ids_from_block(b);
    let mut set = rvs_set_new();
    let mut i: usize = 0;
    while i < ids.len()
        invariant
            set.wf(),
            i <= ids@.len(),
            forall|x: Seq<char>| #[trigger] set.has_key(x) == exists|j: int| 0 <= j < i && #[trigger] ids@[j]@ == x,
        decreases ids@.len() - i,
    {
        let p = DefPath::rvs_new(ids[i].as_str());
        rvs_set_insert_M(&mut set, &p);
        proof {
            assert forall|x: Seq<char>| #[trigger] set.has_key(x) == exists|j: int| 0 <= j < i + 1 && #[trigger] ids@[j]@ == x by {
                if x == ids@[i as int]@ {
                    assert(ids@[i as int]@ == x);
                } else if exists|j: int| 0 <= j < i + 1 && #[trigger] ids@[j]@ == x {
                    let j = choose|j: int| 0 <= j < i + 1 && #[trigger] ids@[j]@ == x;
                    assert(j < i);
                }
            }
        }
        i = i + 1;
    }
    let mut r: Vec<String> = Vec::new();
    let mut k: usize = 0;
    while k < set.rvs_len()
        invariant
            set.wf(),
            k <= set.len_spec(),
            r@.len() == k,
            forall|j: int| 0 <= j < k ==> #[trigger] r@[j]@ == set.key(j),
        decreases set.len_spec() - k,
    {
        r.push(set.rvs_key_at(k).rvs_to_string());
        k = k + 1;
    }
    proof {
        assert forall|a: int, c: int| 0 <= a < c < r@.len() implies spec_lt(#[trigger] r@[a]@, #[trigger] r@[c]@) by {
            assert(spec_lt(set.key(a), set.key(c)));
        }
        assert forall|x: Seq<char>| #[trigger] spec_text_set(r@).contains(x) == spec_text_set(ids@).contains(x) by {
            if spec_text_set(r@).contains(x) {
                let j = choose|j: int| 0 <= j < r@.len() && #[trigger] r@[j]@ == x;
                assert(set.key(j) == x);
                assert(set.has_key(x));
            }
            if spec_text_set(ids@).contains(x) {
                let j = choose|j: int| 0 <= j < ids@.len() && #[trigger] ids@[j]@ == x;
                assert(set.has_key(x));
                let m = choose|m: int| 0 <= m < set.len_spec() && #[trigger] set.key(m) == x;
                assert(r@[m]@ == x);
            }
        }
        assert(spec_text_set(r@) =~= spec_text_set(ids@));
    }
    r
}

} // verus!
