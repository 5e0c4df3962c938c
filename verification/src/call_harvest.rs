//! The calls and static references of a function body.
//!
//! A body is walked in source order.  A call through a path records the
//! path's text, a method call records the method's name, and a path that
//! names a declared static records a use of it.  Macro arguments are not
//! parsed: their tokens are scanned for `path(` shapes instead.
use vstd::prelude::*;

use crate::capability::CapabilitySet;
use crate::extract::{CalleeInfo, StaticRef};
use crate::syntax::{rvs_path_text, spec_path_text, Arm, Block, Expr, MacroUse, PathSegment, Stmt, Token};
use crate::text::{rvs_chars_eq, rvs_chars_of, rvs_join_parts, rvs_string_of, spec_join};

verus! {

/// A static declared in the file: its name and the capabilities a use of
/// it requires.
#[derive(Debug, Clone)]
pub struct StaticDecl {
    pub name: String,
    pub required_caps: CapabilitySet,
}

/// What a walk collects: calls and static references, in source order.
#[derive(Debug)]
pub struct Harvest {
    pub calls: Vec<CalleeInfo>,
    pub static_refs: Vec<StaticRef>,
}

/// A call as a row: the callee's text and its line.
pub type CallRow = (Seq<char>, usize);

/// A static reference as a row: name, required capabilities and line.
pub type StaticRow = (Seq<char>, CapabilitySet, usize);

/// What a walk collects, as rows.
pub type HarvestRows = (Seq<CallRow>, Seq<StaticRow>);

pub open spec fn spec_call_rows(v: Seq<CalleeInfo>) -> Seq<CallRow> {
    v.map_values(|c: CalleeInfo| (c.name@, c.line))
}

pub open spec fn spec_static_rows(v: Seq<StaticRef>) -> Seq<StaticRow> {
    v.map_values(|s: StaticRef| (s.name@, s.required_caps, s.line))
}

impl Harvest {
    pub open spec fn rows(self) -> HarvestRows {
        (spec_call_rows(self.calls@), spec_static_rows(self.static_refs@))
    }

    /// Nothing collected.
    pub fn rvs_empty() -> (r: Harvest)
        ensures
            r.rows() == spec_no_rows(),
    {
        let r = Harvest { calls: Vec::new(), static_refs: Vec::new() };
        assert(r.rows().0 =~= Seq::<CallRow>::empty());
        assert(r.rows().1 =~= Seq::<StaticRow>::empty());
        r
    }

    /// Appends what `other` collected.
    pub fn rvs_absorb_M(&mut self, other: Harvest)
        ensures
            final(self).rows() == spec_cat(old(self).rows(), other.rows()),
    {
        let ghost before = self.rows();
        let ghost added = other.rows();
        let Harvest { calls: mut calls, static_refs: mut static_refs } = other;
        let ghost c0 = self.calls@;
        let ghost s0 = self.static_refs@;
        let ghost c1 = calls@;
        let ghost s1 = static_refs@;
        self.calls.append(&mut calls);
        self.static_refs.append(&mut static_refs);
        assert(spec_call_rows(c0 + c1) =~= spec_call_rows(c0) + spec_call_rows(c1));
        assert(spec_static_rows(s0 + s1) =~= spec_static_rows(s0) + spec_static_rows(s1));
    }

    /// Everything the parts collected, in order.
    pub fn rvs_merge(parts: Vec<Harvest>) -> (r: Harvest)
        ensures
            r.rows() == spec_cat_all(parts@.map_values(|h: Harvest| h.rows())),
    {
        let ghost views = parts@.map_values(|h: Harvest| h.rows());
        let ghost original = parts@;
        let mut parts = parts;
        let mut r = Harvest::rvs_empty();
        let mut k: usize = 0;
        let n = parts.len();
        while k < n
            invariant
                n == original.len(),
                views == original.map_values(|h: Harvest| h.rows()),
                k <= n,
                parts@ == original.subrange(k as int, n as int),
                r.rows() == spec_cat_all(views.take(k as int)),
            decreases n - k,
        {
            let h = parts.remove(0);
            assert(h == original[k as int]);
            assert(views.take(k + 1).drop_last() =~= views.take(k as int));
            r.rvs_absorb_M(h);
            k = k + 1;
            assert(parts@ =~= original.subrange(k as int, n as int));
        }
        assert(views.take(n as int) =~= views);
        r
    }
}

/// Nothing collected, as rows.
pub open spec fn spec_no_rows() -> HarvestRows {
    (Seq::empty(), Seq::empty())
}

/// Two collections, one after the other.
pub open spec fn spec_cat(a: HarvestRows, b: HarvestRows) -> HarvestRows {
    (a.0 + b.0, a.1 + b.1)
}

/// Collections one after another.
pub open spec fn spec_cat_all(hs: Seq<HarvestRows>) -> HarvestRows
    decreases hs.len(),
{
    if hs.len() == 0 {
        spec_no_rows()
    } else {
        spec_cat(spec_cat_all(hs.drop_last()), hs.last())
    }
}

/// Only calls.
pub open spec fn spec_calls_only(c: Seq<CallRow>) -> HarvestRows {
    (c, Seq::empty())
}

/// Only static references.
pub open spec fn spec_statics_only(s: Seq<StaticRow>) -> HarvestRows {
    (Seq::empty(), s)
}

// ------------------------------------------------------------- statics

/// A declared static as a row: its name and required capabilities.
pub type DeclRow = (Seq<char>, CapabilitySet);

pub open spec fn spec_decl_rows(v: Seq<StaticDecl>) -> Seq<DeclRow> {
    v.map_values(|d: StaticDecl| (d.name@, d.required_caps))
}

/// The capabilities of the first static declared under `name`.
pub open spec fn spec_decl_caps(decls: Seq<DeclRow>, name: Seq<char>) -> Option<CapabilitySet>
    decreases decls.len(),
{
    if decls.len() == 0 {
        None
    } else if decls[0].0 == name {
        Some(decls[0].1)
    } else {
        spec_decl_caps(decls.drop_first(), name)
    }
}

/// The static a path names, if its last segment is a declared static: the
/// reference, on the line of that segment.
pub open spec fn spec_path_static(path: Seq<PathSegment>, decls: Seq<DeclRow>) -> Seq<StaticRow> {
    if path.len() == 0 {
        Seq::empty()
    } else {
        match spec_decl_caps(decls, path.last().ident@) {
            Some(caps) => seq![(path.last().ident@, caps, path.last().line)],
            None => Seq::empty(),
        }
    }
}

/// The static a path names, if any.
pub fn rvs_check_path_for_static(path: &Vec<PathSegment>, statics: &Vec<StaticDecl>) -> (r: Option<StaticRef>)
    ensures
        match r {
            Some(s) => spec_path_static(path@, spec_decl_rows(statics@)) == seq![(s.name@, s.required_caps, s.line)],
            None => spec_path_static(path@, spec_decl_rows(statics@)).len() == 0,
        },
{
    let n = path.len();
    if n == 0 {
        return None;
    }
    let seg = &path[n - 1];
    let name = rvs_chars_of(seg.ident.as_str());
    let mut i: usize = 0;
    let ghost rows = spec_decl_rows(statics@);
    assert(rows.subrange(0, rows.len() as int) =~= rows);
    while i < statics.len()
        invariant
            i <= statics@.len(),
            n == path@.len(),
            n > 0,
            *seg == path@[n - 1],
            name@ == path@.last().ident@,
            rows == spec_decl_rows(statics@),
            spec_decl_caps(rows, name@) == spec_decl_caps(rows.subrange(i as int, rows.len() as int), name@),
        decreases statics@.len() - i,
    {
        let tail = Ghost(rows.subrange(i as int, rows.len() as int));
        assert(tail@[0] == rows[i as int]);
        assert(tail@.drop_first() =~= rows.subrange(i + 1, rows.len() as int));
        let decl_name = rvs_chars_of(statics[i].name.as_str());
        if rvs_chars_eq(decl_name.as_slice(), name.as_slice()) {
            assert(spec_decl_caps(rows, name@) == Some(statics@[i as int].required_caps));
            return Some(StaticRef {
                name: statics[i].name.clone(),
                required_caps: statics[i].required_caps,
                line: seg.line,
            });
        }
        i = i + 1;
    }
    None
}

fn rvs_static_harvest(path: &Vec<PathSegment>, statics: &Vec<StaticDecl>) -> (r: Harvest)
    ensures
        r.rows() == spec_statics_only(spec_path_static(path@, spec_decl_rows(statics@))),
{
    let mut r = Harvest::rvs_empty();
    match rvs_check_path_for_static(path, statics) {
        Some(s) => {
            r.static_refs.push(s);
        },
        None => {},
    }
    assert(r.rows().0 =~= spec_statics_only(spec_path_static(path@, spec_decl_rows(statics@))).0);
    assert(r.rows().1 =~= spec_statics_only(spec_path_static(path@, spec_decl_rows(statics@))).1);
    r
}

// -------------------------------------------------------------- tokens

/// Whether a token is the punctuation `:`.
pub open spec fn spec_is_colon(t: Token) -> bool {
    match t {
        Token::Punct(c, _) => c == ':',
        _ => false,
    }
}

/// The call recorded at a delimiter when path parts are pending.
pub open spec fn spec_pending_call(parts: Seq<Seq<char>>, line: usize) -> Seq<CallRow> {
    if parts.len() > 0 {
        seq![(spec_join(parts, "::"@), line)]
    } else {
        Seq::empty()
    }
}

/// The calls found in macro tokens, with the path parts read so far.
/// Identifiers build a path, `::` continues it, and a following `(` or
/// delimited group makes it a call on the delimiter's line; any other
/// token drops the path.  A `.` drops it too, unless the last part read is
/// `::` itself.  Groups are scanned in turn.
pub open spec fn spec_token_calls(ts: Seq<Token>, parts: Seq<Seq<char>>) -> Seq<CallRow>
    decreases ts,
{
    if ts.len() == 0 {
        Seq::empty()
    } else {
        let rest = ts.subrange(1, ts.len() as int);
        match ts[0] {
            Token::Ident(s) => spec_token_calls(rest, parts.push(s@)),
            Token::Punct(c, line) => if c == ':' {
                if ts.len() > 1 && spec_is_colon(ts[1]) {
                    spec_token_calls(ts.subrange(2, ts.len() as int), parts)
                } else {
                    spec_token_calls(rest, Seq::empty())
                }
            } else if c == '(' {
                spec_pending_call(parts, line) + spec_token_calls(rest, Seq::empty())
            } else if c == '.' {
                if parts.len() > 0 && parts.last() != "::"@ {
                    spec_token_calls(rest, Seq::empty())
                } else {
                    spec_token_calls(rest, parts)
                }
            } else {
                spec_token_calls(rest, Seq::empty())
            },
            Token::Group(line, inner) => spec_pending_call(parts, line) + spec_token_calls(inner@, Seq::empty())
                + spec_token_calls(rest, Seq::empty()),
            Token::Literal => spec_token_calls(rest, Seq::empty()),
        }
    }
}

pub open spec fn spec_parts_view(parts: Seq<Vec<char>>) -> Seq<Seq<char>> {
    parts.map_values(|p: Vec<char>| p@)
}

fn rvs_pending_call(parts: &Vec<Vec<char>>, line: usize, calls: &mut Vec<CalleeInfo>)
    ensures
        spec_call_rows(final(calls)@) == spec_call_rows(old(calls)@) + spec_pending_call(spec_parts_view(parts@), line),
{
    let ghost before = calls@;
    if parts.len() > 0 {
        let sep = rvs_chars_of("::");
        let name = rvs_join_parts(parts, sep.as_slice());
        calls.push(CalleeInfo { name: rvs_string_of(name.as_slice()), line });
        assert(spec_call_rows(calls@) =~= spec_call_rows(before) + spec_pending_call(spec_parts_view(parts@), line));
    } else {
        assert(spec_call_rows(calls@) =~= spec_call_rows(before) + spec_pending_call(spec_parts_view(parts@), line));
    }
}

/// The calls found in the tokens of a macro invocation.  No static
/// reference is taken from tokens.
pub fn rvs_harvest_calls_from_tokens(tokens: &Vec<Token>) -> (r: Harvest)
    ensures
        r.rows() == spec_calls_only(spec_token_calls(tokens@, Seq::empty())),
    decreases tokens,
{
    let ghost all = tokens@;
    let n = tokens.len();
    let mut calls: Vec<CalleeInfo> = Vec::new();
    let mut parts: Vec<Vec<char>> = Vec::new();
    let mut i: usize = 0;
    assert(all.subrange(0, n as int) =~= all);
    assert(spec_parts_view(parts@) =~= Seq::<Seq<char>>::empty());
    while i < n
        invariant
            n == tokens@.len(),
            all == tokens@,
            i <= n,
            spec_call_rows(calls@) + spec_token_calls(all.subrange(i as int, n as int), spec_parts_view(parts@))
                == spec_token_calls(all, Seq::empty()),
        decreases n - i,
    {
        let ghost ts = all.subrange(i as int, n as int);
        let ghost pv = spec_parts_view(parts@);
        assert(ts[0] == all[i as int]);
        assert(ts.subrange(1, ts.len() as int) =~= all.subrange(i + 1, n as int));
        match &tokens[i] {
            Token::Ident(s) => {
                parts.push(rvs_chars_of(s.as_str()));
                assert(spec_parts_view(parts@) =~= pv.push(s@));
                i = i + 1;
            },
            Token::Punct(c, line) => {
                if *c == ':' {
                    let double = i + 1 < n && match &tokens[i + 1] {
                        Token::Punct(d, _) => *d == ':',
                        _ => false,
                    };
                    if double {
                        assert(ts[1] == all[i + 1]);
                        assert(ts.subrange(2, ts.len() as int) =~= all.subrange(i + 2, n as int));
                        i = i + 2;
                    } else {
                        parts = Vec::new();
                        assert(spec_parts_view(parts@) =~= Seq::<Seq<char>>::empty());
                        i = i + 1;
                    }
                } else if *c == '(' {
                    let ghost before = calls@;
                    rvs_pending_call(&parts, *line, &mut calls);
                    parts = Vec::new();
                    assert(spec_parts_view(parts@) =~= Seq::<Seq<char>>::empty());
                    i = i + 1;
                } else if *c == '.' {
                    let k = parts.len();
                    if k > 0 {
                        let sep = rvs_chars_of("::");
                        assert(pv.last() == parts@[k - 1]@);
                        if !rvs_chars_eq(parts[k - 1].as_slice(), sep.as_slice()) {
                            parts = Vec::new();
                            assert(spec_parts_view(parts@) =~= Seq::<Seq<char>>::empty());
                        }
                    }
                    i = i + 1;
                } else {
                    parts = Vec::new();
                    assert(spec_parts_view(parts@) =~= Seq::<Seq<char>>::empty());
                    i = i + 1;
                }
            },
            Token::Group(line, inner) => {
                rvs_pending_call(&parts, *line, &mut calls);
                parts = Vec::new();
                assert(spec_parts_view(parts@) =~= Seq::<Seq<char>>::empty());
                let sub = rvs_harvest_calls_from_tokens(inner);
                let Harvest { calls: mut sub_calls, static_refs: _ } = sub;
                let ghost c0 = calls@;
                let ghost c1 = sub_calls@;
                calls.append(&mut sub_calls);
                assert(spec_call_rows(c0 + c1) =~= spec_call_rows(c0) + spec_call_rows(c1));
                i = i + 1;
            },
            Token::Literal => {
                parts = Vec::new();
                assert(spec_parts_view(parts@) =~= Seq::<Seq<char>>::empty());
                i = i + 1;
            },
        }
    }
    assert(all.subrange(n as int, n as int) =~= Seq::<Token>::empty());
    let r = Harvest { calls, static_refs: Vec::new() };
    assert(r.rows().0 =~= spec_token_calls(all, Seq::empty()));
    assert(r.rows().1 =~= Seq::<StaticRow>::empty());
    r
}

// --------------------------------------------------------- expressions

/// The call a callee expression makes directly: a path with a non-empty
/// text, recorded on the line of its last segment.
pub open spec fn spec_direct_call(f: Expr) -> Seq<CallRow> {
    match f {
        Expr::Path(segs) => if segs@.len() > 0 && spec_path_text(segs@).len() > 0 {
            seq![(spec_path_text(segs@), segs@.last().line)]
        } else {
            Seq::empty()
        },
        _ => Seq::empty(),
    }
}

pub open spec fn spec_opt_harvest(x: Option<Box<Expr>>, decls: Seq<DeclRow>) -> HarvestRows
    decreases x,
{
    match x {
        Some(y) => spec_expr_harvest(*y, decls),
        None => spec_no_rows(),
    }
}

/// The calls and static references of an expression, in source order.
pub open spec fn spec_expr_harvest(e: Expr, decls: Seq<DeclRow>) -> HarvestRows
    decreases e,
{
    match e {
        Expr::Call(f, args) => spec_cat(spec_cat(spec_calls_only(spec_direct_call(*f)), spec_expr_harvest(*f, decls)),
            spec_exprs_harvest(args@, decls)),
        Expr::MethodCall(r, m, args) => spec_cat(spec_cat(spec_calls_only(seq![(m.ident@, m.line)]),
            spec_expr_harvest(*r, decls)), spec_exprs_harvest(args@, decls)),
        Expr::Path(segs) => spec_statics_only(spec_path_static(segs@, decls)),
        Expr::Block(_, b) => spec_block_harvest(b, decls),
        Expr::If(c, t, els) => spec_cat(spec_cat(spec_expr_harvest(*c, decls), spec_block_harvest(t, decls)),
            match els {
                Some(x) => spec_expr_harvest(*x, decls),
                None => spec_no_rows(),
            }),
        Expr::Match(x, arms) => spec_cat(spec_expr_harvest(*x, decls), spec_arms_harvest(arms@, decls)),
        Expr::While(c, b) => spec_cat(spec_expr_harvest(*c, decls), spec_block_harvest(b, decls)),
        Expr::ForLoop(c, b) => spec_cat(spec_expr_harvest(*c, decls), spec_block_harvest(b, decls)),
        Expr::Closure(x) => spec_expr_harvest(*x, decls),
        Expr::Unary(_, x) => spec_expr_harvest(*x, decls),
        Expr::Pair(_, a, b) => spec_cat(spec_expr_harvest(*a, decls), spec_expr_harvest(*b, decls)),
        Expr::Tuple(es) => spec_exprs_harvest(es@, decls),
        Expr::Array(es) => spec_exprs_harvest(es@, decls),
        Expr::Struct(fs, rest) => spec_cat(spec_exprs_harvest(fs@, decls), match rest {
            Some(x) => spec_expr_harvest(*x, decls),
            None => spec_no_rows(),
        }),
        Expr::Range(a, b) => spec_cat(match a {
            Some(x) => spec_expr_harvest(*x, decls),
            None => spec_no_rows(),
        }, match b {
            Some(x) => spec_expr_harvest(*x, decls),
            None => spec_no_rows(),
        }),
        Expr::Return(x) => match x {
            Some(y) => spec_expr_harvest(*y, decls),
            None => spec_no_rows(),
        },
        Expr::Break(x) => match x {
            Some(y) => spec_expr_harvest(*y, decls),
            None => spec_no_rows(),
        },
        Expr::Macro(m) => (spec_token_calls(m.tokens@, Seq::empty()), spec_path_static(m.path@, decls)),
        Expr::Other => spec_no_rows(),
    }
}

/// The calls and static references of a list of expressions.
pub open spec fn spec_exprs_harvest(es: Seq<Expr>, decls: Seq<DeclRow>) -> HarvestRows
    decreases es,
{
    if es.len() == 0 {
        spec_no_rows()
    } else {
        spec_cat(spec_exprs_harvest(es.drop_last(), decls), spec_expr_harvest(es.last(), decls))
    }
}

/// The calls and static references of match arms: each guard, then each
/// body.
pub open spec fn spec_arms_harvest(arms: Seq<Arm>, decls: Seq<DeclRow>) -> HarvestRows
    decreases arms,
{
    if arms.len() == 0 {
        spec_no_rows()
    } else {
        spec_cat(spec_cat(spec_arms_harvest(arms.drop_last(), decls), match arms.last().guard {
            Some(g) => spec_expr_harvest(g, decls),
            None => spec_no_rows(),
        }), spec_expr_harvest(arms.last().body, decls))
    }
}

/// The calls and static references of a block.
pub open spec fn spec_block_harvest(b: Block, decls: Seq<DeclRow>) -> HarvestRows
    decreases b,
{
    spec_stmts_harvest(b.stmts@, decls)
}

/// The calls and static references of statements.  Items are not
/// entered; a statement macro gives the calls in its tokens.
pub open spec fn spec_stmts_harvest(ss: Seq<Stmt>, decls: Seq<DeclRow>) -> HarvestRows
    decreases ss,
{
    if ss.len() == 0 {
        spec_no_rows()
    } else {
        spec_cat(spec_stmts_harvest(ss.drop_last(), decls), match ss.last() {
            Stmt::Local(init) => match init {
                Some(li) => spec_cat(spec_expr_harvest(li.expr, decls), match li.diverge {
                    Some(d) => spec_expr_harvest(d, decls),
                    None => spec_no_rows(),
                }),
                None => spec_no_rows(),
            },
            Stmt::Expr(e) => spec_expr_harvest(e, decls),
            Stmt::Item => spec_no_rows(),
            Stmt::Macro(m) => spec_calls_only(spec_token_calls(m.tokens@, Seq::empty())),
        })
    }
}

proof fn lemma_cat_empty(a: HarvestRows)
    ensures
        spec_cat(a, spec_no_rows()) == a,
        spec_cat(spec_no_rows(), a) == a,
{
    assert(spec_cat(a, spec_no_rows()).0 =~= a.0);
    assert(spec_cat(a, spec_no_rows()).1 =~= a.1);
    assert(spec_cat(spec_no_rows(), a).0 =~= a.0);
    assert(spec_cat(spec_no_rows(), a).1 =~= a.1);
}

proof fn lemma_cat_assoc(a: HarvestRows, b: HarvestRows, c: HarvestRows)
    ensures
        spec_cat(spec_cat(a, b), c) == spec_cat(a, spec_cat(b, c)),
{
    assert(spec_cat(spec_cat(a, b), c).0 =~= spec_cat(a, spec_cat(b, c)).0);
    assert(spec_cat(spec_cat(a, b), c).1 =~= spec_cat(a, spec_cat(b, c)).1);
}

/// The call a callee expression makes directly, if it is a path.
fn rvs_direct_call(f: &Expr) -> (r: Harvest)
    ensures
        r.rows() == spec_calls_only(spec_direct_call(*f)),
{
    let mut r = Harvest::rvs_empty();
    match f {
        Expr::Path(segs) => {
            let n = segs.len();
            if n > 0 {
                let name = rvs_path_text(segs);
                if name.len() > 0 {
                    r.calls.push(CalleeInfo { name: rvs_string_of(name.as_slice()), line: segs[n - 1].line });
                }
            }
        },
        _ => {},
    }
    assert(r.rows().0 =~= spec_calls_only(spec_direct_call(*f)).0);
    assert(r.rows().1 =~= spec_calls_only(spec_direct_call(*f)).1);
    r
}

fn rvs_harvest_opt(x: &Option<Box<Expr>>, statics: &Vec<StaticDecl>) -> (r: Harvest)
    ensures
        r.rows() == spec_opt_harvest(*x, spec_decl_rows(statics@)),
    decreases x, 0nat,
{
    match x {
        Some(y) => rvs_harvest_from_expr(y, statics),
        None => Harvest::rvs_empty(),
    }
}

/// The calls and static references of a call expression: the callee's
/// path, then what the callee and the arguments hold.
pub fn rvs_harvest_from_expr_call(call: &Expr, statics: &Vec<StaticDecl>) -> (r: Harvest)
    requires
        call is Call,
    ensures
        r.rows() == spec_expr_harvest(*call, spec_decl_rows(statics@)),
    decreases call, 0nat,
{
    match call {
        Expr::Call(f, args) => {
            let mut r = rvs_direct_call(f);
            r.rvs_absorb_M(rvs_harvest_from_expr(f, statics));
            r.rvs_absorb_M(rvs_harvest_from_exprs(args, statics));
            r
        },
        _ => Harvest::rvs_empty(),
    }
}

/// The calls and static references of a method call: the method's name,
/// then what the receiver and the arguments hold.
pub fn rvs_harvest_from_expr_method_call(call: &Expr, statics: &Vec<StaticDecl>) -> (r: Harvest)
    requires
        call is MethodCall,
    ensures
        r.rows() == spec_expr_harvest(*call, spec_decl_rows(statics@)),
    decreases call, 0nat,
{
    match call {
        Expr::MethodCall(receiver, method, args) => {
            let mut r = Harvest::rvs_empty();
            r.calls.push(CalleeInfo { name: method.ident.clone(), line: method.line });
            assert(r.rows().0 =~= spec_calls_only(seq![(method.ident@, method.line)]).0);
            assert(r.rows().1 =~= spec_calls_only(seq![(method.ident@, method.line)]).1);
            r.rvs_absorb_M(rvs_harvest_from_expr(receiver, statics));
            r.rvs_absorb_M(rvs_harvest_from_exprs(args, statics));
            r
        },
        _ => Harvest::rvs_empty(),
    }
}

/// The calls and static references of an expression, in source order.
pub fn rvs_harvest_from_expr(e: &Expr, statics: &Vec<StaticDecl>) -> (r: Harvest)
    ensures
        r.rows() == spec_expr_harvest(*e, spec_decl_rows(statics@)),
    decreases e, 1nat,
{
    match e {
        Expr::Call(..) => rvs_harvest_from_expr_call(e, statics),
        Expr::MethodCall(..) => rvs_harvest_from_expr_method_call(e, statics),
        Expr::Path(segs) => rvs_static_harvest(segs, statics),
        Expr::Block(_, b) => rvs_harvest_from_block(b, statics),
        Expr::If(c, t, els) => {
            let mut r = rvs_harvest_from_expr(c, statics);
            r.rvs_absorb_M(rvs_harvest_from_block(t, statics));
            r.rvs_absorb_M(rvs_harvest_opt(els, statics));
            r
        },
        Expr::Match(x, arms) => {
            let mut r = rvs_harvest_from_expr(x, statics);
            r.rvs_absorb_M(rvs_harvest_from_arms(arms, statics));
            r
        },
        Expr::While(c, b) => {
            let mut r = rvs_harvest_from_expr(c, statics);
            r.rvs_absorb_M(rvs_harvest_from_block(b, statics));
            r
        },
        Expr::ForLoop(c, b) => {
            let mut r = rvs_harvest_from_expr(c, statics);
            r.rvs_absorb_M(rvs_harvest_from_block(b, statics));
            r
        },
        Expr::Closure(x) => rvs_harvest_from_expr(x, statics),
        Expr::Unary(_, x) => rvs_harvest_from_expr(x, statics),
        Expr::Pair(_, a, b) => {
            let mut r = rvs_harvest_from_expr(a, statics);
            r.rvs_absorb_M(rvs_harvest_from_expr(b, statics));
            r
        },
        Expr::Tuple(es) => rvs_harvest_from_exprs(es, statics),
        Expr::Array(es) => rvs_harvest_from_exprs(es, statics),
        Expr::Struct(fs, rest) => {
            let mut r = rvs_harvest_from_exprs(fs, statics);
            r.rvs_absorb_M(rvs_harvest_opt(rest, statics));
            r
        },
        Expr::Range(a, b) => {
            let mut r = rvs_harvest_opt(a, statics);
            r.rvs_absorb_M(rvs_harvest_opt(b, statics));
            r
        },
        Expr::Return(x) => rvs_harvest_opt(x, statics),
        Expr::Break(x) => rvs_harvest_opt(x, statics),
        Expr::Macro(m) => {
            let mut r = rvs_harvest_calls_from_tokens(&m.tokens);
            proof { lemma_cat_empty(spec_calls_only(spec_token_calls(m.tokens@, Seq::empty()))); }
            r.rvs_absorb_M(rvs_static_harvest(&m.path, statics));
            assert(r.rows().0 =~= spec_expr_harvest(*e, spec_decl_rows(statics@)).0);
            assert(r.rows().1 =~= spec_expr_harvest(*e, spec_decl_rows(statics@)).1);
            r
        },
        Expr::Other => Harvest::rvs_empty(),
    }
}

fn rvs_harvest_from_exprs(es: &Vec<Expr>, statics: &Vec<StaticDecl>) -> (r: Harvest)
    ensures
        r.rows() == spec_exprs_harvest(es@, spec_decl_rows(statics@)),
    decreases es, 0nat,
{
    let mut r = Harvest::rvs_empty();
    let mut i: usize = 0;
    while i < es.len()
        invariant
            i <= es@.len(),
            r.rows() == spec_exprs_harvest(es@.take(i as int), spec_decl_rows(statics@)),
        decreases es@.len() - i,
    {
        assert(es@.take(i + 1).drop_last() =~= es@.take(i as int));
        assert(es@.take(i + 1).last() == es@[i as int]);
        r.rvs_absorb_M(rvs_harvest_from_expr(&es[i], statics));
        i = i + 1;
    }
    assert(es@.take(es@.len() as int) =~= es@);
    r
}

fn rvs_harvest_from_arms(arms: &Vec<Arm>, statics: &Vec<StaticDecl>) -> (r: Harvest)
    ensures
        r.rows() == spec_arms_harvest(arms@, spec_decl_rows(statics@)),
    decreases arms, 0nat,
{
    let mut r = Harvest::rvs_empty();
    let mut i: usize = 0;
    while i < arms.len()
        invariant
            i <= arms@.len(),
            r.rows() == spec_arms_harvest(arms@.take(i as int), spec_decl_rows(statics@)),
        decreases arms@.len() - i,
    {
        assert(arms@.take(i + 1).drop_last() =~= arms@.take(i as int));
        assert(arms@.take(i + 1).last() == arms@[i as int]);
        let arm = &arms[i];
        match &arm.guard {
            Some(g) => r.rvs_absorb_M(rvs_harvest_from_expr(g, statics)),
            None => {
                proof { lemma_cat_empty(r.rows()); }
            },
        }
        r.rvs_absorb_M(rvs_harvest_from_expr(&arm.body, statics));
        i = i + 1;
    }
    assert(arms@.take(arms@.len() as int) =~= arms@);
    r
}

/// The calls and static references of a block, in source order.
pub fn rvs_harvest_from_block(b: &Block, statics: &Vec<StaticDecl>) -> (r: Harvest)
    ensures
        r.rows() == spec_block_harvest(*b, spec_decl_rows(statics@)),
    decreases b, 0nat,
{
    let ss = &b.stmts;
    let mut r = Harvest::rvs_empty();
    let mut i: usize = 0;
    while i < ss.len()
        invariant
            ss == &b.stmts,
            i <= ss@.len(),
            r.rows() == spec_stmts_harvest(ss@.take(i as int), spec_decl_rows(statics@)),
        decreases ss@.len() - i,
    {
        assert(ss@.take(i + 1).drop_last() =~= ss@.take(i as int));
        assert(ss@.take(i + 1).last() == ss@[i as int]);
        match &ss[i] {
            Stmt::Local(init) => match init {
                Some(li) => {
                    let mut part = rvs_harvest_from_expr(&li.expr, statics);
                    match &li.diverge {
                        Some(d) => part.rvs_absorb_M(rvs_harvest_from_expr(d, statics)),
                        None => {
                            proof { lemma_cat_empty(part.rows()); }
                        },
                    }
                    r.rvs_absorb_M(part);
                },
                None => {
                    proof { lemma_cat_empty(r.rows()); }
                },
            },
            Stmt::Expr(e) => r.rvs_absorb_M(rvs_harvest_from_expr(e, statics)),
            Stmt::Item => {
                proof { lemma_cat_empty(r.rows()); }
            },
            Stmt::Macro(m) => r.rvs_absorb_M(rvs_harvest_calls_from_tokens(&m.tokens)),
        }
        i = i + 1;
    }
    assert(ss@.take(ss@.len() as int) =~= ss@);
    r
}

/// The calls and the static references of a function body.
pub fn rvs_collect_calls_and_statics(b: &Block, statics: &Vec<StaticDecl>) -> (r: (Vec<CalleeInfo>, Vec<StaticRef>))
    ensures
        (spec_call_rows(r.0@), spec_static_rows(r.1@)) == spec_block_harvest(*b, spec_decl_rows(statics@)),
{
    let h = rvs_harvest_from_block(b, statics);
    (h.calls, h.static_refs)
}

} // verus!
