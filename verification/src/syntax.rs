//! The part of a parsed Rust source file that the source scanner reads:
//! items, function bodies, statements, expressions, macro invocations and
//! the token trees inside them.  Each value holds plain data only (names,
//! lines and nested values), so the scans over it can be stated and proved.
use vstd::prelude::*;

use crate::text::{rvs_chars_eq, rvs_chars_of, rvs_push_all, rvs_starts_with, spec_join, spec_starts_with};

verus! {

/// One segment of a path: its identifier and the line it stands on.
#[derive(Debug, Clone)]
pub struct PathSegment {
    pub ident: String,
    pub line: usize,
}

/// A token tree inside a macro invocation.
#[derive(Debug)]
pub enum Token {
    Ident(String),
    /// A punctuation character and its line.
    Punct(char, usize),
    /// A delimited group: the line of its opening delimiter and its contents.
    Group(usize, Vec<Token>),
    Literal,
}

/// A macro invocation: the macro's path and the tokens it was given.
#[derive(Debug)]
pub struct MacroUse {
    pub path: Vec<PathSegment>,
    pub tokens: Vec<Token>,
}

/// Expressions with one operand, told apart where a scan treats them
/// differently.
#[derive(Debug, Clone, Copy, PartialEq, Eq, Structural)]
pub enum UnaryKind {
    Unary,
    Paren,
    Group,
    Reference,
    Try,
    Await,
    Let,
    Field,
    Cast,
}

/// Expressions with two operands, in source order.
#[derive(Debug, Clone, Copy, PartialEq, Eq, Structural)]
pub enum PairKind {
    Assign,
    Binary,
    Index,
    Repeat,
}

/// Expressions made of a block alone.
#[derive(Debug, Clone, Copy, PartialEq, Eq, Structural)]
pub enum BlockKind {
    Plain,
    Loop,
    Unsafe,
    Async,
    TryBlock,
}

/// An expression.
#[derive(Debug)]
pub enum Expr {
    Macro(MacroUse),
    /// A block expression of the given kind.
    Block(BlockKind, Block),
    /// Condition, then-branch and else-branch.
    If(Box<Expr>, Block, Option<Box<Expr>>),
    /// Scrutinee and arms.
    Match(Box<Expr>, Vec<Arm>),
    /// `while`: condition and body.
    While(Box<Expr>, Block),
    /// `for`: the iterated expression and the body.
    ForLoop(Box<Expr>, Block),
    /// A closure's body.
    Closure(Box<Expr>),
    /// Callee and arguments.
    Call(Box<Expr>, Vec<Expr>),
    /// Receiver, method name and arguments.
    MethodCall(Box<Expr>, PathSegment, Vec<Expr>),
    Unary(UnaryKind, Box<Expr>),
    Pair(PairKind, Box<Expr>, Box<Expr>),
    Tuple(Vec<Expr>),
    Array(Vec<Expr>),
    /// Field values and the base after `..`.
    Struct(Vec<Expr>, Option<Box<Expr>>),
    /// Start and end.
    Range(Option<Box<Expr>>, Option<Box<Expr>>),
    Return(Option<Box<Expr>>),
    Break(Option<Box<Expr>>),
    Path(Vec<PathSegment>),
    /// Literals, `continue`, and everything the scans do not enter.
    Other,
}

/// A match arm: its guard and its body.
#[derive(Debug)]
pub struct Arm {
    pub guard: Option<Expr>,
    pub body: Expr,
}

/// The initializer of a `let`: its expression and its `else` branch.
#[derive(Debug)]
pub struct LocalInit {
    pub expr: Expr,
    pub diverge: Option<Expr>,
}

/// A statement.
#[derive(Debug)]
pub enum Stmt {
    Local(Option<LocalInit>),
    Expr(Expr),
    Item,
    Macro(MacroUse),
}

/// A block: its statements.
#[derive(Debug)]
pub struct Block {
    pub stmts: Vec<Stmt>,
}

impl MacroUse {
    /// The macro's name: the last segment of its path, or nothing.
    pub open spec fn name(self) -> Seq<char> {
        if self.path@.len() == 0 {
            Seq::empty()
        } else {
            self.path@.last().ident@
        }
    }

    /// The line of the macro's name, or 0 for an empty path.
    pub open spec fn line(self) -> usize {
        if self.path@.len() == 0 {
            0
        } else {
            self.path@.last().line
        }
    }

    /// The macro's name.
    pub fn rvs_name(&self) -> (r: Vec<char>)
        ensures
            r@ == self.name(),
    {
        let n = self.path.len();
        if n == 0 {
            Vec::new()
        } else {
            rvs_chars_of(self.path[n - 1].ident.as_str())
        }
    }

    /// The line of the macro's name.
    pub fn rvs_line(&self) -> (r: usize)
        ensures
            r == self.line(),
    {
        let n = self.path.len();
        if n == 0 {
            0
        } else {
            self.path[n - 1].line
        }
    }
}

/// The stub macros: `todo!` and `unimplemented!`.
pub open spec fn spec_is_stub_name(name: Seq<char>) -> bool {
    name == "todo"@ || name == "unimplemented"@
}

/// The macros that panic: `panic!`, the `assert` family (not the
/// `debug_assert` one), `unreachable!` and the stub macros.
pub open spec fn spec_is_panic_name(name: Seq<char>) -> bool {
    ||| name == "panic"@
    ||| name == "assert"@
    ||| name == "assert_eq"@
    ||| name == "assert_ne"@
    ||| name == "unreachable"@
    ||| name == "todo"@
    ||| name == "unimplemented"@
}

/// The `debug_assert` family: names that start with `debug_assert`.
pub open spec fn spec_is_debug_assert_name(name: Seq<char>) -> bool {
    spec_starts_with(name, "debug_assert"@)
}

/// Whether a character sequence spells the given text.
pub fn rvs_spells(name: &[char], text: &str) -> (r: bool)
    ensures
        r == (name@ == text@),
{
    let t = rvs_chars_of(text);
    rvs_chars_eq(name, t.as_slice())
}

/// Whether the macro is `todo!` or `unimplemented!`.
pub fn rvs_is_stub_macro(m: &MacroUse) -> (r: bool)
    ensures
        r == spec_is_stub_name(m.name()),
{
    let name = m.rvs_name();
    rvs_spells(&name, "todo") || rvs_spells(&name, "unimplemented")
}

/// Whether the macro panics when reached.
pub fn rvs_is_panic_macro(m: &MacroUse) -> (r: bool)
    ensures
        r == spec_is_panic_name(m.name()),
{
    let name = m.rvs_name();
    rvs_spells(&name, "panic") || rvs_spells(&name, "assert") || rvs_spells(&name, "assert_eq")
        || rvs_spells(&name, "assert_ne") || rvs_spells(&name, "unreachable")
        || rvs_spells(&name, "todo") || rvs_spells(&name, "unimplemented")
}

/// Whether the macro is one of the `debug_assert` family.
pub fn rvs_is_debug_assert(m: &MacroUse) -> (r: bool)
    ensures
        r == spec_is_debug_assert_name(m.name()),
{
    let name = m.rvs_name();
    let prefix = rvs_chars_of("debug_assert");
    rvs_starts_with(&name, &prefix)
}

/// The identifiers of a path's segments, joined by `::`.
pub open spec fn spec_path_text(path: Seq<PathSegment>) -> Seq<char> {
    spec_join(path.map_values(|s: PathSegment| s.ident@), "::"@)
}

/// The identifiers of a path's segments, joined by `::`.
pub fn rvs_path_text(path: &Vec<PathSegment>) -> (r: Vec<char>)
    ensures
        r@ == spec_path_text(path@),
{
    let ghost parts = path@.map_values(|s: PathSegment| s.ident@);
    let sep = rvs_chars_of("::");
    let mut r: Vec<char> = Vec::new();
    let mut i: usize = 0;
    while i < path.len()
        invariant
            i <= path@.len(),
            sep@ == "::"@,
            parts == path@.map_values(|s: PathSegment| s.ident@),
            r@ == spec_join(parts.take(i as int), "::"@),
        decreases path@.len() - i,
    {
        let part = rvs_chars_of(path[i].ident.as_str());
        if i > 0 {
            rvs_push_all(&mut r, sep.as_slice());
        }
        rvs_push_all(&mut r, part.as_slice());
        proof {
            assert(parts.take(i + 1).drop_last() =~= parts.take(i as int));
            assert(parts.take(i + 1).last() == path@[i as int].ident@);
            if i == 0 {
                assert(parts.take(1) =~= seq![path@[0].ident@]);
            }
        }
        i = i + 1;
    }
    assert(parts.take(path@.len() as int) =~= parts);
    r
}

/// An attribute: its path, its line, and what follows the path.
#[derive(Debug)]
pub struct Attribute {
    pub path: Vec<PathSegment>,
    pub line: usize,
    /// For `#[name(...)]`: the tokens inside the parentheses, as text.
    pub list_tokens: Option<String>,
    /// For `#[name = "text"]`: the string.
    pub value_text: Option<String>,
    /// For `#[name(...)]` whose contents are paths separated by commas:
    /// those paths.
    pub arg_paths: Option<Vec<Vec<PathSegment>>>,
}

/// A generic argument: a type, or something else (a lifetime, a constant).
#[derive(Debug)]
pub enum GenericArg {
    Type(TypeExpr),
    Other,
}

/// A segment of a type path: its identifier, its line, and its
/// angle-bracketed arguments if it has them.
#[derive(Debug)]
pub struct TypeSegment {
    pub ident: String,
    pub line: usize,
    pub angle_args: Option<Vec<GenericArg>>,
}

/// A type, as far as the scans read it.
#[derive(Debug)]
pub enum TypeExpr {
    Path(Vec<TypeSegment>),
    /// A reference: whether it is `&mut`, and the referenced type.
    Reference(bool, Box<TypeExpr>),
    Tuple(Vec<TypeExpr>),
    Other,
}

/// A function parameter.
#[derive(Debug)]
pub enum FnArg {
    /// `self`, `&self` or `&mut self`: whether it is mutable.
    Receiver(bool),
    /// A typed parameter: its name when the pattern is a plain identifier,
    /// and its type.
    Typed(Option<String>, TypeExpr),
}

/// A function signature.
#[derive(Debug)]
pub struct Signature {
    pub ident: PathSegment,
    /// The line of the `fn` keyword.
    pub fn_line: usize,
    pub is_async: bool,
    pub is_unsafe: bool,
    pub inputs: Vec<FnArg>,
    /// The declared return type; `None` for `()` by default.
    pub output: Option<TypeExpr>,
}

/// A function body and the line its closing brace ends on.
#[derive(Debug)]
pub struct FnBody {
    pub block: Block,
    pub end_line: usize,
}

/// A function, method or trait method.  Functions and methods always have
/// a body; a trait method has one when it has a default.
#[derive(Debug)]
pub struct FnItem {
    pub attrs: Vec<Attribute>,
    pub is_pub: bool,
    pub sig: Signature,
    pub body: Option<FnBody>,
}

/// A member of an `impl` block.
#[derive(Debug)]
pub enum ImplMember {
    Fn(FnItem),
    /// An associated constant: its name and type.
    Const(String, TypeExpr),
    /// An associated type: its name and type.
    Type(String, TypeExpr),
    Other,
}

/// An `impl` block.
#[derive(Debug)]
pub struct ImplBlock {
    pub attrs: Vec<Attribute>,
    /// The implemented trait's path, for a trait impl.
    pub trait_path: Option<Vec<TypeSegment>>,
    pub self_ty: TypeExpr,
    pub members: Vec<ImplMember>,
}

/// A `use` tree.
#[derive(Debug)]
pub enum UseTree {
    Path(String, Box<UseTree>),
    Name(String),
    Rename(String, String),
    Glob,
    Group(Vec<UseTree>),
}

/// A type declaration (struct or enum): visibility, attributes and name.
#[derive(Debug)]
pub struct TypeDecl {
    pub is_pub: bool,
    pub attrs: Vec<Attribute>,
    pub ident: PathSegment,
}

/// An item.
#[derive(Debug)]
pub enum Item {
    Fn(FnItem),
    Impl(ImplBlock),
    /// A trait: its attributes and its methods.
    Trait(Vec<Attribute>, Vec<FnItem>),
    /// A module: its attributes and, when inline, its items.
    Mod(Vec<Attribute>, Option<Vec<Item>>),
    /// A `static`: its name and whether it is `mut`.
    Static(String, bool),
    Macro(MacroUse),
    /// A `use`: its line and tree.
    Use(usize, UseTree),
    Struct(TypeDecl),
    Enum(TypeDecl),
    Other,
}

/// A parsed source file: its inner attributes and its items.
#[derive(Debug)]
pub struct SourceFile {
    pub attrs: Vec<Attribute>,
    pub items: Vec<Item>,
}

} // verus!
