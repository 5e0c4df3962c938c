//! Item-level reading of a source file: attributes, declared statics, and
//! the functions the checks work on.
use vstd::prelude::*;

use crate::call_harvest::{spec_decl_rows, DeclRow, StaticDecl};
use crate::capability::{lemma_set_ext, spec_capability_of, spec_letter, spec_set_of, Capability, CapabilitySet};
use crate::body_scan::{
    rvs_collect_debug_asserted_params, rvs_scan_block_has_panic, rvs_scan_block_has_unsafe, spec_block_assert_ids,
    spec_block_has_panic, spec_block_has_unsafe, spec_strictly_ascending, spec_text_set,
};
use crate::call_harvest::{rvs_collect_calls_and_statics, spec_block_harvest, spec_call_rows, spec_static_rows};
use crate::extract::{FnDef, ParamInfo, ParamType};
use crate::names::{rvs_extract_raw_suffix, rvs_parse_function, spec_parsed_caps, spec_raw_suffix};
use crate::syntax::{rvs_spells, Attribute, FnArg, FnItem, ImplMember, Item, MacroUse, PathSegment, Token, TypeExpr};
use crate::text::{rvs_chars_eq, rvs_chars_of, rvs_contains_text, rvs_string_of, rvs_starts_with, rvs_trim, spec_contains_text, spec_starts_with, spec_trim};

verus! {

// ------------------------------------------------------------ attributes

/// The last identifier of a path, if it has segments.
pub open spec fn spec_last_ident(path: Seq<PathSegment>) -> Option<Seq<char>> {
    if path.len() == 0 {
        None
    } else {
        Some(path.last().ident@)
    }
}

/// Whether a path is exactly the single identifier `name`.
pub open spec fn spec_is_ident(path: Seq<PathSegment>, name: Seq<char>) -> bool {
    path.len() == 1 && path[0].ident@ == name
}

/// Whether the attribute's path ends in `name`.
pub open spec fn spec_attr_named(a: Attribute, name: Seq<char>) -> bool {
    spec_last_ident(a.path@) == Some(name)
}

/// Whether the attribute's list tokens hold `word`.
pub open spec fn spec_list_holds(a: Attribute, word: Seq<char>) -> bool {
    match a.list_tokens {
        Some(t) => spec_contains_text(t@, word),
        None => false,
    }
}

/// `#[test]` (by the last segment of the path).
pub open spec fn spec_is_test_fn(attrs: Seq<Attribute>) -> bool {
    exists|i: int| 0 <= i < attrs.len() && spec_attr_named(#[trigger] attrs[i], "test"@)
}

/// `#[cfg(...)]` whose tokens mention `test`.
pub open spec fn spec_is_cfg_test(attrs: Seq<Attribute>) -> bool {
    exists|i: int| 0 <= i < attrs.len() && spec_attr_named(#[trigger] attrs[i], "cfg"@)
        && spec_list_holds(attrs[i], "test"@)
}

/// `#[allow(...)]` whose tokens mention `dead_code` or `unused`.
pub open spec fn spec_allows_dead_code(attrs: Seq<Attribute>) -> bool {
    exists|i: int| 0 <= i < attrs.len() && spec_attr_named(#[trigger] attrs[i], "allow"@)
        && (spec_list_holds(attrs[i], "dead_code"@) || spec_list_holds(attrs[i], "unused"@))
}

/// `#[allow(...)]` whose tokens mention `non_snake_case`.
pub open spec fn spec_allows_non_snake_case(attrs: Seq<Attribute>) -> bool {
    exists|i: int| 0 <= i < attrs.len() && spec_attr_named(#[trigger] attrs[i], "allow"@)
        && spec_list_holds(attrs[i], "non_snake_case"@)
}

/// A documentation attribute, `#[doc = ...]` or a doc comment.
pub open spec fn spec_has_doc_attr(attrs: Seq<Attribute>) -> bool {
    exists|i: int| 0 <= i < attrs.len() && spec_is_ident(#[trigger] attrs[i].path@, "doc"@)
}

/// A documentation line whose trimmed text starts with `heading`.
pub open spec fn spec_has_doc_section(attrs: Seq<Attribute>, heading: Seq<char>) -> bool {
    exists|i: int| 0 <= i < attrs.len() && spec_is_ident(#[trigger] attrs[i].path@, "doc"@) && match attrs[i].value_text {
        Some(v) => spec_starts_with(spec_trim(v@), heading),
        None => false,
    }
}

/// `#[derive(...)]` listing `Debug` as a plain identifier.
pub open spec fn spec_has_debug_derive(attrs: Seq<Attribute>) -> bool {
    exists|i: int| 0 <= i < attrs.len() && spec_is_ident(#[trigger] attrs[i].path@, "derive"@) && match attrs[i].arg_paths {
        Some(ps) => exists|j: int| 0 <= j < ps.len() && spec_is_ident(#[trigger] ps@[j]@, "Debug"@),
        None => false,
    }
}

/// Whether the attribute's path ends in `name`.
pub fn rvs_attr_named(a: &Attribute, name: &str) -> (r: bool)
    ensures
        r == spec_attr_named(*a, name@),
{
    let n = a.path.len();
    if n == 0 {
        return false;
    }
    let last = rvs_chars_of(a.path[n - 1].ident.as_str());
    rvs_spells(last.as_slice(), name)
}

/// Whether the attribute's list tokens hold `word`.
fn rvs_list_holds(a: &Attribute, word: &str) -> (r: bool)
    ensures
        r == spec_list_holds(*a, word@),
{
    match &a.list_tokens {
        Some(t) => {
            let text = rvs_chars_of(t.as_str());
            let w = rvs_chars_of(word);
            rvs_contains_text(text.as_slice(), w.as_slice())
        },
        None => false,
    }
}

/// Whether a path is exactly the identifier `name`.
fn rvs_is_ident(path: &Vec<PathSegment>, name: &str) -> (r: bool)
    ensures
        r == spec_is_ident(path@, name@),
{
    if path.len() != 1 {
        return false;
    }
    let first = rvs_chars_of(path[0].ident.as_str());
    rvs_spells(first.as_slice(), name)
}

/// Whether a function carries `#[test]`.
pub fn rvs_is_test_fn(attrs: &Vec<Attribute>) -> (r: bool)
    ensures
        r == spec_is_test_fn(attrs@),
{
    let mut i: usize = 0;
    while i < attrs.len()
        invariant
            i <= attrs@.len(),
            forall|j: int| 0 <= j < i ==> !spec_attr_named(#[trigger] attrs@[j], "test"@),
        decreases attrs@.len() - i,
    {
        if rvs_attr_named(&attrs[i], "test") {
            return true;
        }
        i = i + 1;
    }
    false
}

/// Whether an item carries `#[cfg(...)]` mentioning `test`.
pub fn rvs_is_cfg_test(attrs: &Vec<Attribute>) -> (r: bool)
    ensures
        r == spec_is_cfg_test(attrs@),
{
    let mut i: usize = 0;
    while i < attrs.len()
        invariant
            i <= attrs@.len(),
            forall|j: int| 0 <= j < i ==> !(spec_attr_named(#[trigger] attrs@[j], "cfg"@) && spec_list_holds(attrs@[j], "test"@)),
        decreases attrs@.len() - i,
    {
        if rvs_attr_named(&attrs[i], "cfg") && rvs_list_holds(&attrs[i], "test") {
            return true;
        }
        i = i + 1;
    }
    false
}

/// Whether an item carries `#[allow(...)]` for `dead_code` or `unused`.
pub fn rvs_allows_dead_code(attrs: &Vec<Attribute>) -> (r: bool)
    ensures
        r == spec_allows_dead_code(attrs@),
{
    let mut i: usize = 0;
    while i < attrs.len()
        invariant
            i <= attrs@.len(),
            forall|j: int| 0 <= j < i ==> !(spec_attr_named(#[trigger] attrs@[j], "allow"@)
                && (spec_list_holds(attrs@[j], "dead_code"@) || spec_list_holds(attrs@[j], "unused"@))),
        decreases attrs@.len() - i,
    {
        if rvs_attr_named(&attrs[i], "allow") && (rvs_list_holds(&attrs[i], "dead_code") || rvs_list_holds(&attrs[i], "unused")) {
            return true;
        }
        i = i + 1;
    }
    false
}

/// Whether an item carries `#[allow(...)]` for `non_snake_case`.
pub fn rvs_allows_non_snake_case(attrs: &Vec<Attribute>) -> (r: bool)
    ensures
        r == spec_allows_non_snake_case(attrs@),
{
    let mut i: usize = 0;
    while i < attrs.len()
        invariant
            i <= attrs@.len(),
            forall|j: int| 0 <= j < i ==> !(spec_attr_named(#[trigger] attrs@[j], "allow"@)
                && spec_list_holds(attrs@[j], "non_snake_case"@)),
        decreases attrs@.len() - i,
    {
        if rvs_attr_named(&attrs[i], "allow") && rvs_list_holds(&attrs[i], "non_snake_case") {
            return true;
        }
        i = i + 1;
    }
    false
}

/// Whether an item carries documentation.
pub fn rvs_has_doc_attr(attrs: &Vec<Attribute>) -> (r: bool)
    ensures
        r == spec_has_doc_attr(attrs@),
{
    let mut i: usize = 0;
    while i < attrs.len()
        invariant
            i <= attrs@.len(),
            forall|j: int| 0 <= j < i ==> !spec_is_ident(#[trigger] attrs@[j].path@, "doc"@),
        decreases attrs@.len() - i,
    {
        if rvs_is_ident(&attrs[i].path, "doc") {
            return true;
        }
        i = i + 1;
    }
    false
}

/// Whether an item's documentation has a line starting with `heading`.
pub fn rvs_has_doc_section(attrs: &Vec<Attribute>, heading: &str) -> (r: bool)
    ensures
        r == spec_has_doc_section(attrs@, heading@),
{
    let h = rvs_chars_of(heading);
    let mut i: usize = 0;
    while i < attrs.len()
        invariant
            h@ == heading@,
            i <= attrs@.len(),
            forall|j: int| 0 <= j < i ==> !(spec_is_ident(#[trigger] attrs@[j].path@, "doc"@) && match attrs@[j].value_text {
                Some(v) => spec_starts_with(spec_trim(v@), heading@),
                None => false,
            }),
        decreases attrs@.len() - i,
    {
        if rvs_is_ident(&attrs[i].path, "doc") {
            match &attrs[i].value_text {
                Some(v) => {
                    let text = rvs_chars_of(v.as_str());
                    let trimmed = rvs_trim(text.as_slice());
                    if rvs_starts_with(trimmed.as_slice(), h.as_slice()) {
                        return true;
                    }
                },
                None => {},
            }
        }
        i = i + 1;
    }
    false
}

/// Whether a type derives `Debug`.
pub fn rvs_has_debug_derive(attrs: &Vec<Attribute>) -> (r: bool)
    ensures
        r == spec_has_debug_derive(attrs@),
{
    let mut i: usize = 0;
    while i < attrs.len()
        invariant
            i <= attrs@.len(),
            forall|j: int| 0 <= j < i ==> !(spec_is_ident(#[trigger] attrs@[j].path@, "derive"@) && match attrs@[j].arg_paths {
                Some(ps) => exists|k: int| 0 <= k < ps.len() && spec_is_ident(#[trigger] ps@[k]@, "Debug"@),
                None => false,
            }),
        decreases attrs@.len() - i,
    {
        if rvs_is_ident(&attrs[i].path, "derive") {
            match &attrs[i].arg_paths {
                Some(ps) => {
                    let mut k: usize = 0;
                    while k < ps.len()
                        invariant
                            i < attrs@.len(),
                            spec_is_ident(attrs@[i as int].path@, "derive"@),
                            attrs@[i as int].arg_paths == Some(*ps),
                            k <= ps@.len(),
                            forall|m: int| 0 <= m < k ==> !spec_is_ident(#[trigger] ps@[m]@, "Debug"@),
                        decreases ps@.len() - k,
                    {
                        if rvs_is_ident(&ps[k], "Debug") {
                            assert(spec_is_ident(ps@[k as int]@, "Debug"@));
                            assert(spec_is_ident(attrs@[i as int].path@, "derive"@));
                            let ghost qs = attrs@[i as int].arg_paths->0;
                            assert(qs == *ps);
                            assert(spec_is_ident(qs@[k as int]@, "Debug"@));
                            assert(match attrs@[i as int].arg_paths {
                                Some(qs) => exists|j: int| 0 <= j < qs.len() && spec_is_ident(#[trigger] qs@[j]@, "Debug"@),
                                None => false,
                            });
                            return true;
                        }
                        k = k + 1;
                    }
                },
                None => {},
            }
        }
        i = i + 1;
    }
    false
}

// --------------------------------------------------------------- statics

/// The capabilities named by the letters of `s`.
pub open spec fn spec_caps_of_text(s: Seq<char>) -> CapabilitySet {
    spec_set_of(|c: Capability| s.contains(spec_letter(c)))
}

fn rvs_caps_of_text(s: &str) -> (r: CapabilitySet)
    requires
        forall|j: int| 0 <= j < s@.len() ==> spec_capability_of(#[trigger] s@[j]) is Some,
    ensures
        r == spec_caps_of_text(s@),
{
    let r = CapabilitySet::rvs_from_validated(s);
    proof {
        lemma_set_ext(r, spec_caps_of_text(s@));
    }
    r
}

/// After `static` in a `thread_local!`: `:` tokens are skipped, and the
/// next identifier is the name unless it is `mut`; anything else ends the
/// search without being consumed.
pub open spec fn spec_after_static(ts: Seq<Token>) -> Seq<Seq<char>>
    decreases ts, 1int,
{
    if ts.len() == 0 {
        Seq::empty()
    } else {
        let rest = ts.subrange(1, ts.len() as int);
        match ts[0] {
            Token::Ident(name) => (if name@ != "mut"@ {
                seq![name@]
            } else {
                Seq::empty()
            }) + spec_thread_local_names(rest),
            Token::Punct(c, _) => if c == ':' {
                spec_after_static(rest)
            } else {
                spec_thread_local_names(ts)
            },
            _ => spec_thread_local_names(ts),
        }
    }
}

/// The names a `thread_local!` declares: the identifier after each
/// `static`, groups entered.
pub open spec fn spec_thread_local_names(ts: Seq<Token>) -> Seq<Seq<char>>
    decreases ts, 0int,
{
    if ts.len() == 0 {
        Seq::empty()
    } else {
        let rest = ts.subrange(1, ts.len() as int);
        match ts[0] {
            Token::Group(_, inner) => spec_thread_local_names(inner@) + spec_thread_local_names(rest),
            Token::Ident(s) => if s@ == "static"@ {
                spec_after_static(rest)
            } else {
                spec_thread_local_names(rest)
            },
            _ => spec_thread_local_names(rest),
        }
    }
}

pub open spec fn spec_text_rows(v: Seq<String>) -> Seq<Seq<char>> {
    v.map_values(|s: String| s@)
}

fn rvs_append_texts(r: &mut Vec<String>, sub: Vec<String>)
    ensures
        spec_text_rows(final(r)@) == spec_text_rows(old(r)@) + spec_text_rows(sub@),
{
    let mut sub = sub;
    let ghost a = r@;
    let ghost b = sub@;
    r.append(&mut sub);
    assert(spec_text_rows(r@) =~= spec_text_rows(a) + spec_text_rows(b));
}

/// The names a `thread_local!` declares, in order.
pub fn rvs_parse_thread_local_names(tokens: &Vec<Token>) -> (r: Vec<String>)
    ensures
        spec_text_rows(r@) == spec_thread_local_names(tokens@),
    decreases tokens,
{
    let ghost all = tokens@;
    let n = tokens.len();
    let mut r: Vec<String> = Vec::new();
    let mut i: usize = 0;
    assert(all.subrange(0, n as int) =~= all);
    assert(spec_text_rows(r@) =~= Seq::<Seq<char>>::empty());
    while i < n
        invariant
            n == tokens@.len(),
            all == tokens@,
            i <= n,
            spec_text_rows(r@) + spec_thread_local_names(all.subrange(i as int, n as int)) == spec_thread_local_names(all),
        decreases n - i,
    {
        let ghost ts = all.subrange(i as int, n as int);
        assert(ts[0] == all[i as int]);
        assert(ts.subrange(1, ts.len() as int) =~= all.subrange(i + 1, n as int));
        match &tokens[i] {
            Token::Group(_, inner) => {
                let ghost before = spec_text_rows(r@);
                rvs_append_texts(&mut r, rvs_parse_thread_local_names(inner));
                assert(before + spec_thread_local_names(ts) =~= spec_text_rows(r@) + spec_thread_local_names(all.subrange(i + 1, n as int)));
                i = i + 1;
            },
            Token::Ident(s) => {
                let word = rvs_chars_of(s.as_str());
                i = i + 1;
                let ghost start = i;
                if rvs_spells(word.as_slice(), "static") {
                    // skip `:` tokens, then take the name
                    loop
                        invariant_except_break
                            spec_text_rows(r@) + spec_after_static(all.subrange(i as int, n as int)) == spec_thread_local_names(all),
                        invariant
                            n == tokens@.len(),
                            all == tokens@,
                            start <= i <= n,
                        ensures
                            spec_text_rows(r@) + spec_thread_local_names(all.subrange(i as int, n as int)) == spec_thread_local_names(all),
                        decreases n - i,
                    {
                        let ghost us = all.subrange(i as int, n as int);
                        if i >= n {
                            assert(us =~= Seq::<Token>::empty());
                            break;
                        }
                        assert(us[0] == all[i as int]);
                        assert(us.subrange(1, us.len() as int) =~= all.subrange(i + 1, n as int));
                        match &tokens[i] {
                            Token::Ident(name) => {
                                let text = rvs_chars_of(name.as_str());
                                if !rvs_spells(text.as_slice(), "mut") {
                                    let ghost before = r@;
                                    r.push(name.clone());
                                    assert(spec_text_rows(r@) =~= spec_text_rows(before) + seq![name@]);
                                }
                                i = i + 1;
                                break;
                            },
                            Token::Punct(c, _) => {
                                if *c == ':' {
                                    i = i + 1;
                                } else {
                                    break;
                                }
                            },
                            _ => {
                                break;
                            },
                        }
                    }
                }
            },
            _ => {
                i = i + 1;
            },
        }
    }
    assert(all.subrange(n as int, n as int) =~= Seq::<Token>::empty());
    assert(spec_text_rows(r@) + Seq::<Seq<char>>::empty() =~= spec_text_rows(r@));
    r
}

/// The statics an item declares: `static` items (`S`, or `SU` when
/// `mut`), the names of a `thread_local!` (`ST`), and those of inline
/// modules.
pub open spec fn spec_item_static_decls(item: Item) -> Seq<DeclRow>
    decreases item,
{
    match item {
        Item::Static(name, is_mut) => seq![(name@, spec_caps_of_text(if is_mut { "SU"@ } else { "S"@ }))],
        Item::Macro(m) => if m.name() == "thread_local"@ {
            spec_thread_local_names(m.tokens@).map_values(|n: Seq<char>| (n, spec_caps_of_text("ST"@)))
        } else {
            Seq::empty()
        },
        Item::Mod(_, content) => match content {
            Some(items) => spec_items_static_decls(items@),
            None => Seq::empty(),
        },
        _ => Seq::empty(),
    }
}

/// The statics the items declare, in order.
pub open spec fn spec_items_static_decls(items: Seq<Item>) -> Seq<DeclRow>
    decreases items,
{
    if items.len() == 0 {
        Seq::empty()
    } else {
        spec_items_static_decls(items.drop_last()) + spec_item_static_decls(items.last())
    }
}

fn rvs_append_decls(r: &mut Vec<StaticDecl>, sub: Vec<StaticDecl>)
    ensures
        spec_decl_rows(final(r)@) == spec_decl_rows(old(r)@) + spec_decl_rows(sub@),
{
    let mut sub = sub;
    let ghost a = r@;
    let ghost b = sub@;
    r.append(&mut sub);
    assert(spec_decl_rows(r@) =~= spec_decl_rows(a) + spec_decl_rows(b));
}

fn rvs_item_static_decls(item: &Item) -> (r: Vec<StaticDecl>)
    ensures
        spec_decl_rows(r@) == spec_item_static_decls(*item),
    decreases item,
{
    let mut r: Vec<StaticDecl> = Vec::new();
    assert(spec_decl_rows(r@) =~= Seq::<DeclRow>::empty());
    match item {
        Item::Static(name, is_mut) => {
            let caps = if *is_mut {
                proof { reveal_strlit("SU"); }
                rvs_caps_of_text("SU")
            } else {
                proof { reveal_strlit("S"); }
                rvs_caps_of_text("S")
            };
            r.push(StaticDecl { name: name.clone(), required_caps: caps });
            assert(spec_decl_rows(r@) =~= spec_item_static_decls(*item));
        },
        Item::Macro(m) => {
            let macro_name = m.rvs_name();
            if rvs_spells(macro_name.as_slice(), "thread_local") {
                proof { reveal_strlit("ST"); }
                let caps = rvs_caps_of_text("ST");
                let names = rvs_parse_thread_local_names(&m.tokens);
                let mut k: usize = 0;
                while k < names.len()
                    invariant
                        k <= names@.len(),
                        r@.len() == k,
                        caps == spec_caps_of_text("ST"@),
                        spec_decl_rows(r@) =~= spec_text_rows(names@.take(k as int)).map_values(|n: Seq<char>| (n, spec_caps_of_text("ST"@))),
                    decreases names@.len() - k,
                {
                    let ghost before = r@;
                    r.push(StaticDecl { name: names[k].clone(), required_caps: caps });
                    assert(r@[k as int].name@ == names@[k as int]@);
                    assert(spec_decl_rows(r@) =~= spec_decl_rows(before).push((names@[k as int]@, caps)));
                    assert(spec_text_rows(names@.take(k + 1)) =~= spec_text_rows(names@.take(k as int)).push(names@[k as int]@));
                    k = k + 1;
                    assert(spec_decl_rows(r@) =~= spec_text_rows(names@.take(k as int)).map_values(|n: Seq<char>| (n, spec_caps_of_text("ST"@))));
                }
                assert(names@.take(names@.len() as int) =~= names@);
            } else {
                assert(spec_decl_rows(r@) =~= spec_item_static_decls(*item));
            }
        },
        Item::Mod(_, content) => match content {
            Some(items) => {
                r = rvs_collect_static_decls_from_items(items);
            },
            None => {
                assert(spec_decl_rows(r@) =~= spec_item_static_decls(*item));
            },
        },
        _ => {
            assert(spec_decl_rows(r@) =~= spec_item_static_decls(*item));
        },
    }
    r
}

/// The statics the items declare, in order, inline modules entered.
pub fn rvs_collect_static_decls_from_items(items: &Vec<Item>) -> (r: Vec<StaticDecl>)
    ensures
        spec_decl_rows(r@) == spec_items_static_decls(items@),
    decreases items,
{
    let mut r: Vec<StaticDecl> = Vec::new();
    let mut i: usize = 0;
    assert(spec_decl_rows(r@) =~= spec_items_static_decls(items@.take(0)));
    while i < items.len()
        invariant
            i <= items@.len(),
            spec_decl_rows(r@) == spec_items_static_decls(items@.take(i as int)),
        decreases items@.len() - i,
    {
        assert(items@.take(i + 1).drop_last() =~= items@.take(i as int));
        assert(items@.take(i + 1).last() == items@[i as int]);
        rvs_append_decls(&mut r, rvs_item_static_decls(&items[i]));
        i = i + 1;
    }
    assert(items@.take(items@.len() as int) =~= items@);
    r
}

// ------------------------------------------------------------ parameters

/// The type names counted as primitive numbers.
pub open spec fn spec_primitive_numeric_names() -> Seq<Seq<char>> {
    seq!["i8"@, "i16"@, "i32"@, "i64"@, "i128"@, "u8"@, "u16"@, "u32"@, "u64"@, "u128"@,
        seq!['f', '3', '2'], seq!['f', '6', '4'], "isize"@, "usize"@]
}

/// A parameter type's kind: a path ending in a primitive number type, or
/// anything else.
pub open spec fn spec_classify_param_type(ty: TypeExpr) -> ParamType {
    match ty {
        TypeExpr::Path(segs) => if segs@.len() > 0 && spec_primitive_numeric_names().contains(segs@.last().ident@) {
            ParamType::PrimitiveNumeric
        } else {
            ParamType::Other
        },
        _ => ParamType::Other,
    }
}

/// The type names counted as primitive numbers.
pub fn rvs_primitive_numeric_texts() -> (r: Vec<Vec<char>>)
    ensures
        r@.len() == spec_primitive_numeric_names().len(),
        forall|i: int| 0 <= i < r@.len() ==> #[trigger] r@[i]@ == spec_primitive_numeric_names()[i],
{
    let mut r: Vec<Vec<char>> = Vec::new();
    r.push(rvs_chars_of("i8"));
    r.push(rvs_chars_of("i16"));
    r.push(rvs_chars_of("i32"));
    r.push(rvs_chars_of("i64"));
    r.push(rvs_chars_of("i128"));
    r.push(rvs_chars_of("u8"));
    r.push(rvs_chars_of("u16"));
    r.push(rvs_chars_of("u32"));
    r.push(rvs_chars_of("u64"));
    r.push(rvs_chars_of("u128"));
    r.push(vec!['f', '3', '2']);
    r.push(vec!['f', '6', '4']);
    r.push(rvs_chars_of("isize"));
    r.push(rvs_chars_of("usize"));
    r
}

/// A parameter type's kind.
pub fn rvs_classify_param_type(ty: &TypeExpr) -> (r: ParamType)
    ensures
        r == spec_classify_param_type(*ty),
{
    match ty {
        TypeExpr::Path(segs) => {
            let n = segs.len();
            if n == 0 {
                return ParamType::Other;
            }
            let last = rvs_chars_of(segs[n - 1].ident.as_str());
            let names = rvs_primitive_numeric_texts();
            let mut i: usize = 0;
            assert(last@ == segs@.last().ident@);
            while i < names.len()
                invariant
                    spec_classify_param_type(*ty) == if spec_primitive_numeric_names().contains(last@) {
                        ParamType::PrimitiveNumeric
                    } else {
                        ParamType::Other
                    },
                    i <= names@.len(),
                    names@.len() == spec_primitive_numeric_names().len(),
                    forall|j: int| 0 <= j < names@.len() ==> #[trigger] names@[j]@ == spec_primitive_numeric_names()[j],
                    forall|j: int| 0 <= j < i ==> spec_primitive_numeric_names()[j] != last@,
                decreases names@.len() - i,
            {
                if rvs_chars_eq(names[i].as_slice(), last.as_slice()) {
                    assert(spec_primitive_numeric_names()[i as int] == last@);
                    assert(spec_primitive_numeric_names().contains(last@));
                    return ParamType::PrimitiveNumeric;
                }
                i = i + 1;
            }
            ParamType::Other
        },
        _ => ParamType::Other,
    }
}

/// The named parameters (receivers and pattern parameters skipped).
pub open spec fn spec_params(inputs: Seq<FnArg>) -> Seq<(Seq<char>, ParamType)>
    decreases inputs.len(),
{
    if inputs.len() == 0 {
        Seq::empty()
    } else {
        spec_params(inputs.drop_last()) + match inputs.last() {
            FnArg::Typed(Some(name), ty) => seq![(name@, spec_classify_param_type(ty))],
            _ => Seq::empty(),
        }
    }
}

pub open spec fn spec_param_rows(v: Seq<ParamInfo>) -> Seq<(Seq<char>, ParamType)> {
    v.map_values(|p: ParamInfo| (p.name@, p.ty))
}

/// The named parameters of a signature, with their type kinds.
pub fn rvs_extract_param_names(inputs: &Vec<FnArg>) -> (r: Vec<ParamInfo>)
    ensures
        spec_param_rows(r@) == spec_params(inputs@),
{
    let mut r: Vec<ParamInfo> = Vec::new();
    let mut i: usize = 0;
    assert(spec_param_rows(r@) =~= spec_params(inputs@.take(0)));
    while i < inputs.len()
        invariant
            i <= inputs@.len(),
            spec_param_rows(r@) == spec_params(inputs@.take(i as int)),
        decreases inputs@.len() - i,
    {
        assert(inputs@.take(i + 1).drop_last() =~= inputs@.take(i as int));
        assert(inputs@.take(i + 1).last() == inputs@[i as int]);
        let ghost before = r@;
        match &inputs[i] {
            FnArg::Typed(Some(name), ty) => {
                r.push(ParamInfo { name: name.clone(), ty: rvs_classify_param_type(ty) });
                assert(spec_param_rows(r@) =~= spec_param_rows(before) + seq![(name@, spec_classify_param_type(*ty))]);
            },
            _ => {
                assert(spec_param_rows(r@) =~= spec_param_rows(before) + Seq::<(Seq<char>, ParamType)>::empty());
            },
        }
        i = i + 1;
    }
    assert(inputs@.take(inputs@.len() as int) =~= inputs@);
    r
}

/// A `&mut self` receiver.
pub open spec fn spec_has_mut_receiver(inputs: Seq<FnArg>) -> bool {
    exists|i: int| 0 <= i < inputs.len() && #[trigger] inputs[i] matches FnArg::Receiver(true)
}

/// A parameter of type `&mut T`.
pub open spec fn spec_has_mut_typed_param(inputs: Seq<FnArg>) -> bool {
    exists|i: int| 0 <= i < inputs.len() && #[trigger] inputs[i] matches FnArg::Typed(_, TypeExpr::Reference(true, _))
}

/// Whether the signature takes `&mut self`.
pub fn rvs_has_mut_receiver(inputs: &Vec<FnArg>) -> (r: bool)
    ensures
        r == spec_has_mut_receiver(inputs@),
{
    let mut i: usize = 0;
    while i < inputs.len()
        invariant
            i <= inputs@.len(),
            forall|j: int| 0 <= j < i ==> !(#[trigger] inputs@[j] matches FnArg::Receiver(true)),
        decreases inputs@.len() - i,
    {
        match &inputs[i] {
            FnArg::Receiver(m) => {
                if *m {
                    return true;
                }
            },
            _ => {},
        }
        i = i + 1;
    }
    false
}

/// Whether the signature takes a `&mut T` parameter.
pub fn rvs_has_mut_typed_param(inputs: &Vec<FnArg>) -> (r: bool)
    ensures
        r == spec_has_mut_typed_param(inputs@),
{
    let mut i: usize = 0;
    while i < inputs.len()
        invariant
            i <= inputs@.len(),
            forall|j: int| 0 <= j < i ==> !(#[trigger] inputs@[j] matches FnArg::Typed(_, TypeExpr::Reference(true, _))),
        decreases inputs@.len() - i,
    {
        match &inputs[i] {
            FnArg::Typed(_, TypeExpr::Reference(m, _)) => {
                if *m {
                    return true;
                }
            },
            _ => {},
        }
        i = i + 1;
    }
    false
}

// ------------------------------------------------------------- functions

/// A function's lines can be counted: its body does not end before its
/// `fn` keyword, and the count fits.
pub open spec fn spec_fn_lines_ok(f: FnItem) -> bool {
    match f.body {
        Some(b) => f.sig.fn_line <= b.end_line && b.end_line - f.sig.fn_line < usize::MAX,
        None => true,
    }
}

pub open spec fn spec_fns_lines_ok(fs: Seq<FnItem>) -> bool {
    forall|i: int| 0 <= i < fs.len() ==> spec_fn_lines_ok(#[trigger] fs[i])
}

pub open spec fn spec_members_lines_ok(ms: Seq<ImplMember>) -> bool {
    forall|i: int| 0 <= i < ms.len() ==> match #[trigger] ms[i] {
        ImplMember::Fn(f) => spec_fn_lines_ok(f),
        _ => true,
    }
}

/// Every function of an item has countable lines.
pub open spec fn spec_item_lines_ok(item: Item) -> bool
    decreases item,
{
    match item {
        Item::Fn(f) => spec_fn_lines_ok(f),
        Item::Impl(im) => spec_members_lines_ok(im.members@),
        Item::Trait(_, fs) => spec_fns_lines_ok(fs@),
        Item::Mod(_, content) => match content {
            Some(items) => spec_items_lines_ok(items@),
            None => true,
        },
        _ => true,
    }
}

pub open spec fn spec_items_lines_ok(items: Seq<Item>) -> bool
    decreases items,
{
    if items.len() == 0 {
        true
    } else {
        spec_items_lines_ok(items.drop_last()) && spec_item_lines_ok(items.last())
    }
}

fn rvs_fn_lines_ok(f: &FnItem) -> (r: bool)
    ensures
        r == spec_fn_lines_ok(*f),
{
    match &f.body {
        Some(b) => f.sig.fn_line <= b.end_line && b.end_line - f.sig.fn_line < usize::MAX,
        None => true,
    }
}

fn rvs_fns_lines_ok(fs: &Vec<FnItem>) -> (r: bool)
    ensures
        r == spec_fns_lines_ok(fs@),
{
    let mut i: usize = 0;
    while i < fs.len()
        invariant
            i <= fs@.len(),
            forall|j: int| 0 <= j < i ==> spec_fn_lines_ok(#[trigger] fs@[j]),
        decreases fs@.len() - i,
    {
        if !rvs_fn_lines_ok(&fs[i]) {
            return false;
        }
        i = i + 1;
    }
    true
}

fn rvs_members_lines_ok(ms: &Vec<ImplMember>) -> (r: bool)
    ensures
        r == spec_members_lines_ok(ms@),
{
    let mut i: usize = 0;
    while i < ms.len()
        invariant
            i <= ms@.len(),
            forall|j: int| 0 <= j < i ==> match #[trigger] ms@[j] {
                ImplMember::Fn(f) => spec_fn_lines_ok(f),
                _ => true,
            },
        decreases ms@.len() - i,
    {
        match &ms[i] {
            ImplMember::Fn(f) => {
                if !rvs_fn_lines_ok(f) {
                    return false;
                }
            },
            _ => {},
        }
        i = i + 1;
    }
    true
}

fn rvs_item_lines_ok(item: &Item) -> (r: bool)
    ensures
        r == spec_item_lines_ok(*item),
    decreases item,
{
    match item {
        Item::Fn(f) => rvs_fn_lines_ok(f),
        Item::Impl(im) => rvs_members_lines_ok(&im.members),
        Item::Trait(_, fs) => rvs_fns_lines_ok(fs),
        Item::Mod(_, content) => match content {
            Some(items) => rvs_items_lines_ok(items),
            None => true,
        },
        _ => true,
    }
}

/// Whether every function of the items has countable lines.
pub fn rvs_items_lines_ok(items: &Vec<Item>) -> (r: bool)
    ensures
        r == spec_items_lines_ok(items@),
    decreases items,
{
    let mut i: usize = 0;
    while i < items.len()
        invariant
            i <= items@.len(),
            spec_items_lines_ok(items@.subrange(0, i as int)),
        decreases items@.len() - i,
    {
        assert(items@.subrange(0, i + 1).drop_last() =~= items@.subrange(0, i as int));
        if !rvs_item_lines_ok(&items[i]) {
            proof {
                if spec_items_lines_ok(items@) {
                    lemma_items_lines_ok_prefix(items@, i as int + 1);
                }
            }
            return false;
        }
        i = i + 1;
    }
    assert(items@.subrange(0, items@.len() as int) =~= items@);
    true
}

/// A sequence whose items have countable lines has a prefix that does.
proof fn lemma_items_lines_ok_prefix(items: Seq<Item>, n: int)
    requires
        0 <= n <= items.len(),
        spec_items_lines_ok(items),
    ensures
        spec_items_lines_ok(items.subrange(0, n)),
    decreases items.len(),
{
    if n < items.len() {
        assert(items.drop_last() =~= items.subrange(0, items.len() - 1));
        lemma_items_lines_ok_prefix(items.drop_last(), n);
        assert(items.drop_last().subrange(0, n) =~= items.subrange(0, n));
    } else {
        assert(items.subrange(0, n) =~= items);
    }
}

/// The record of one function: `dead` and `snake` are whether dead code
/// and non-snake-case names are allowed where it stands.
pub open spec fn spec_fn_def_of(d: FnDef, f: FnItem, dead: bool, snake: bool, decls: Seq<DeclRow>) -> bool {
    &&& d.name@ == f.sig.ident.ident@
    &&& spec_parsed_caps(d.name@) == Some(d.capabilities)
    &&& d.raw_suffix@ == spec_raw_suffix(d.name@)
    &&& d.line == f.sig.ident.line
    &&& d.is_async_fn == f.sig.is_async
    &&& d.is_unsafe_fn == f.sig.is_unsafe
    &&& d.has_mut_self == spec_has_mut_receiver(f.sig.inputs@)
    &&& d.has_mut_param == spec_has_mut_typed_param(f.sig.inputs@)
    &&& !d.is_test
    &&& d.allows_dead_code == dead
    &&& d.has_allow_non_snake_case == snake
    &&& match f.body {
        Some(b) => {
            &&& d.has_body
            &&& d.line_count == b.end_line - f.sig.fn_line + 1
            &&& (spec_call_rows(d.calls@), spec_static_rows(d.static_refs@)) == spec_block_harvest(b.block, decls)
            &&& spec_param_rows(d.params@) == spec_params(f.sig.inputs@)
            &&& spec_strictly_ascending(d.debug_asserted_params@)
            &&& spec_text_set(d.debug_asserted_params@) == spec_block_assert_ids(b.block)
            &&& d.has_unsafe_block == spec_block_has_unsafe(b.block)
            &&& d.has_panic_macro == spec_block_has_panic(b.block)
        },
        None => {
            &&& !d.has_body
            &&& d.line_count == 1
            &&& d.calls@.len() == 0
            &&& d.static_refs@.len() == 0
            &&& d.params@.len() == 0
            &&& d.debug_asserted_params@.len() == 0
            &&& !d.has_unsafe_block
            &&& !d.has_panic_macro
        },
    }
}

/// The record of a checked function (one whose name declares its
/// capabilities); `None` for any other name.
pub fn rvs_extract_fn_def(f: &FnItem, statics: &Vec<StaticDecl>, dead: bool, snake: bool) -> (r: Option<FnDef>)
    requires
        spec_fn_lines_ok(*f),
    ensures
        match r {
            Some(d) => spec_fn_def_of(d, *f, dead, snake, spec_decl_rows(statics@)),
            None => spec_parsed_caps(f.sig.ident.ident@) is None,
        },
{
    let name = rvs_chars_of(f.sig.ident.ident.as_str());
    let caps = match rvs_parse_function(name.as_slice()) {
        Some(p) => p.1,
        None => {
            return None;
        },
    };
    let raw_suffix = rvs_extract_raw_suffix(name.as_slice());
    let has_mut_self = rvs_has_mut_receiver(&f.sig.inputs);
    let has_mut_param = rvs_has_mut_typed_param(&f.sig.inputs);
    match &f.body {
        Some(b) => {
            let (calls, static_refs) = rvs_collect_calls_and_statics(&b.block, statics);
            Some(FnDef {
                name: f.sig.ident.ident.clone(),
                capabilities: caps,
                calls,
                static_refs,
                line: f.sig.ident.line,
                line_count: b.end_line - f.sig.fn_line + 1,
                params: rvs_extract_param_names(&f.sig.inputs),
                debug_asserted_params: rvs_collect_debug_asserted_params(&b.block),
                has_body: true,
                has_unsafe_block: rvs_scan_block_has_unsafe(&b.block),
                is_async_fn: f.sig.is_async,
                is_unsafe_fn: f.sig.is_unsafe,
                has_mut_param,
                has_mut_self,
                has_panic_macro: rvs_scan_block_has_panic(&b.block),
                raw_suffix: rvs_string_of(raw_suffix.as_slice()),
                is_test: false,
                allows_dead_code: dead,
                has_allow_non_snake_case: snake,
            })
        },
        None => Some(FnDef {
            name: f.sig.ident.ident.clone(),
            capabilities: caps,
            calls: Vec::new(),
            static_refs: Vec::new(),
            line: f.sig.ident.line,
            line_count: 1,
            params: Vec::new(),
            debug_asserted_params: Vec::new(),
            has_body: false,
            has_unsafe_block: false,
            is_async_fn: f.sig.is_async,
            is_unsafe_fn: f.sig.is_unsafe,
            has_mut_param,
            has_mut_self,
            has_panic_macro: false,
            raw_suffix: rvs_string_of(raw_suffix.as_slice()),
            is_test: false,
            allows_dead_code: dead,
            has_allow_non_snake_case: snake,
        }),
    }
}

/// A selected function and the two allowances that hold for it.
pub type FnPick = (FnItem, bool, bool);

/// The checked functions among the members of an `impl` block.
pub open spec fn spec_impl_picks(ms: Seq<ImplMember>, dead: bool, snake: bool) -> Seq<FnPick>
    decreases ms.len(),
{
    if ms.len() == 0 {
        Seq::empty()
    } else {
        spec_impl_picks(ms.drop_last(), dead, snake) + match ms.last() {
            ImplMember::Fn(f) => if !spec_is_test_fn(f.attrs@) && spec_parsed_caps(f.sig.ident.ident@) is Some {
                seq![(f, dead || spec_allows_dead_code(f.attrs@), snake || spec_allows_non_snake_case(f.attrs@))]
            } else {
                Seq::empty()
            },
            _ => Seq::empty(),
        }
    }
}

/// The checked functions among the methods of a trait.
pub open spec fn spec_trait_picks(fs: Seq<FnItem>, snake: bool) -> Seq<FnPick>
    decreases fs.len(),
{
    if fs.len() == 0 {
        Seq::empty()
    } else {
        spec_trait_picks(fs.drop_last(), snake) + if !spec_is_test_fn(fs.last().attrs@)
            && spec_parsed_caps(fs.last().sig.ident.ident@) is Some {
            seq![(fs.last(), spec_allows_dead_code(fs.last().attrs@), snake || spec_allows_non_snake_case(fs.last().attrs@))]
        } else {
            Seq::empty()
        }
    }
}

/// The checked functions of an item: free functions, methods of `impl`
/// blocks and of traits, and those of inline modules.  Tests, `impl`
/// blocks and modules under `#[cfg(test)]`, and functions whose names do
/// not declare capabilities are left out.  `snake` is whether an enclosing
/// item allows non-snake-case names.
pub open spec fn spec_item_picks(item: Item, snake: bool) -> Seq<FnPick>
    decreases item,
{
    match item {
        Item::Fn(f) => if !spec_is_test_fn(f.attrs@) && spec_parsed_caps(f.sig.ident.ident@) is Some {
            seq![(f, spec_allows_dead_code(f.attrs@), snake || spec_allows_non_snake_case(f.attrs@))]
        } else {
            Seq::empty()
        },
        Item::Impl(im) => if spec_is_cfg_test(im.attrs@) {
            Seq::empty()
        } else {
            spec_impl_picks(im.members@, spec_allows_dead_code(im.attrs@), snake || spec_allows_non_snake_case(im.attrs@))
        },
        Item::Trait(attrs, fs) => spec_trait_picks(fs@, snake || spec_allows_non_snake_case(attrs@)),
        Item::Mod(attrs, content) => if spec_is_cfg_test(attrs@) {
            Seq::empty()
        } else {
            match content {
                Some(items) => spec_items_picks(items@, snake || spec_allows_non_snake_case(attrs@)),
                None => Seq::empty(),
            }
        },
        _ => Seq::empty(),
    }
}

pub open spec fn spec_items_picks(items: Seq<Item>, snake: bool) -> Seq<FnPick>
    decreases items,
{
    if items.len() == 0 {
        Seq::empty()
    } else {
        spec_items_picks(items.drop_last(), snake) + spec_item_picks(items.last(), snake)
    }
}

/// The records match the picked functions one for one.
pub open spec fn spec_defs_match(ds: Seq<FnDef>, picks: Seq<FnPick>, decls: Seq<DeclRow>) -> bool {
    &&& ds.len() == picks.len()
    &&& forall|i: int| 0 <= i < ds.len() ==> spec_fn_def_of(#[trigger] ds[i], picks[i].0, picks[i].1, picks[i].2, decls)
}

fn rvs_append_defs(r: &mut Vec<FnDef>, sub: Vec<FnDef>, Ghost(a): Ghost<Seq<FnPick>>, Ghost(b): Ghost<Seq<FnPick>>, Ghost(decls): Ghost<Seq<DeclRow>>)
    requires
        spec_defs_match(old(r)@, a, decls),
        spec_defs_match(sub@, b, decls),
    ensures
        spec_defs_match(final(r)@, a + b, decls),
{
    let mut sub = sub;
    let ghost x = r@;
    let ghost y = sub@;
    r.append(&mut sub);
    assert forall|i: int| 0 <= i < r@.len() implies spec_fn_def_of(#[trigger] r@[i], (a + b)[i].0, (a + b)[i].1, (a + b)[i].2, decls) by {
        if i < x.len() {
            assert(r@[i] == x[i]);
        } else {
            assert(r@[i] == y[i - x.len()]);
        }
    }
}

fn rvs_push_def(r: &mut Vec<FnDef>, d: Option<FnDef>, Ghost(a): Ghost<Seq<FnPick>>, Ghost(p): Ghost<FnPick>, Ghost(decls): Ghost<Seq<DeclRow>>)
    requires
        spec_defs_match(old(r)@, a, decls),
        d matches Some(x) && spec_fn_def_of(x, p.0, p.1, p.2, decls),
    ensures
        spec_defs_match(final(r)@, a.push(p), decls),
{
    match d {
        Some(x) => {
            let ghost before = r@;
            r.push(x);
            assert forall|i: int| 0 <= i < r@.len() implies spec_fn_def_of(#[trigger] r@[i], a.push(p)[i].0, a.push(p)[i].1, a.push(p)[i].2, decls) by {
                if i < before.len() {
                    assert(r@[i] == before[i]);
                }
            }
        },
        None => {},
    }
}

fn rvs_extract_from_impl(members: &Vec<ImplMember>, statics: &Vec<StaticDecl>, dead: bool, snake: bool) -> (r: Vec<FnDef>)
    requires
        spec_members_lines_ok(members@),
    ensures
        spec_defs_match(r@, spec_impl_picks(members@, dead, snake), spec_decl_rows(statics@)),
{
    let ghost decls = spec_decl_rows(statics@);
    let mut r: Vec<FnDef> = Vec::new();
    let mut i: usize = 0;
    while i < members.len()
        invariant
            spec_members_lines_ok(members@),
            decls == spec_decl_rows(statics@),
            i <= members@.len(),
            spec_defs_match(r@, spec_impl_picks(members@.take(i as int), dead, snake), decls),
        decreases members@.len() - i,
    {
        assert(members@.take(i + 1).drop_last() =~= members@.take(i as int));
        assert(members@.take(i + 1).last() == members@[i as int]);
        let ghost before = spec_impl_picks(members@.take(i as int), dead, snake);
        match &members[i] {
            ImplMember::Fn(f) => {
                assert(spec_fn_lines_ok(*f));
                if !rvs_is_test_fn(&f.attrs) {
                    let d_dead = dead || rvs_allows_dead_code(&f.attrs);
                    let d_snake = snake || rvs_allows_non_snake_case(&f.attrs);
                    let d = rvs_extract_fn_def(f, statics, d_dead, d_snake);
                    if d.is_some() {
                        rvs_push_def(&mut r, d, Ghost(before), Ghost((*f, d_dead, d_snake)), Ghost(decls));
                    } else {
                        assert(before + Seq::<FnPick>::empty() =~= before);
                    }
                } else {
                    assert(before + Seq::<FnPick>::empty() =~= before);
                }
            },
            _ => {
                assert(before + Seq::<FnPick>::empty() =~= before);
            },
        }
        i = i + 1;
    }
    assert(members@.take(members@.len() as int) =~= members@);
    r
}

fn rvs_extract_from_trait(fs: &Vec<FnItem>, statics: &Vec<StaticDecl>, snake: bool) -> (r: Vec<FnDef>)
    requires
        spec_fns_lines_ok(fs@),
    ensures
        spec_defs_match(r@, spec_trait_picks(fs@, snake), spec_decl_rows(statics@)),
{
    let ghost decls = spec_decl_rows(statics@);
    let mut r: Vec<FnDef> = Vec::new();
    let mut i: usize = 0;
    while i < fs.len()
        invariant
            spec_fns_lines_ok(fs@),
            decls == spec_decl_rows(statics@),
            i <= fs@.len(),
            spec_defs_match(r@, spec_trait_picks(fs@.take(i as int), snake), decls),
        decreases fs@.len() - i,
    {
        assert(fs@.take(i + 1).drop_last() =~= fs@.take(i as int));
        assert(fs@.take(i + 1).last() == fs@[i as int]);
        let ghost before = spec_trait_picks(fs@.take(i as int), snake);
        let f = &fs[i];
        assert(spec_fn_lines_ok(*f));
        if !rvs_is_test_fn(&f.attrs) {
            let d_dead = rvs_allows_dead_code(&f.attrs);
            let d_snake = snake || rvs_allows_non_snake_case(&f.attrs);
            let d = rvs_extract_fn_def(f, statics, d_dead, d_snake);
            if d.is_some() {
                rvs_push_def(&mut r, d, Ghost(before), Ghost((*f, d_dead, d_snake)), Ghost(decls));
            } else {
                assert(before + Seq::<FnPick>::empty() =~= before);
            }
        } else {
            assert(before + Seq::<FnPick>::empty() =~= before);
        }
        i = i + 1;
    }
    assert(fs@.take(fs@.len() as int) =~= fs@);
    r
}

fn rvs_extract_from_item(item: &Item, statics: &Vec<StaticDecl>, snake: bool) -> (r: Vec<FnDef>)
    requires
        spec_item_lines_ok(*item),
    ensures
        spec_defs_match(r@, spec_item_picks(*item, snake), spec_decl_rows(statics@)),
    decreases item,
{
    let ghost decls = spec_decl_rows(statics@);
    let mut r: Vec<FnDef> = Vec::new();
    match item {
        Item::Fn(f) => {
            if !rvs_is_test_fn(&f.attrs) {
                let d_dead = rvs_allows_dead_code(&f.attrs);
                let d_snake = snake || rvs_allows_non_snake_case(&f.attrs);
                let d = rvs_extract_fn_def(f, statics, d_dead, d_snake);
                if d.is_some() {
                    rvs_push_def(&mut r, d, Ghost(Seq::empty()), Ghost((*f, d_dead, d_snake)), Ghost(decls));
                    assert(Seq::<FnPick>::empty().push((*f, d_dead, d_snake)) =~= spec_item_picks(*item, snake));
                }
            }
        },
        Item::Impl(im) => {
            if !rvs_is_cfg_test(&im.attrs) {
                let dead = rvs_allows_dead_code(&im.attrs);
                let im_snake = snake || rvs_allows_non_snake_case(&im.attrs);
                r = rvs_extract_from_impl(&im.members, statics, dead, im_snake);
            }
        },
        Item::Trait(attrs, fs) => {
            let t_snake = snake || rvs_allows_non_snake_case(attrs);
            r = rvs_extract_from_trait(fs, statics, t_snake);
        },
        Item::Mod(attrs, content) => {
            if !rvs_is_cfg_test(attrs) {
                match content {
                    Some(items) => {
                        let m_snake = snake || rvs_allows_non_snake_case(attrs);
                        r = rvs_extract_from_items(items, statics, m_snake);
                    },
                    None => {},
                }
            }
        },
        _ => {},
    }
    r
}

/// The records of the checked functions of the items, in source order,
/// inline modules entered.  `inherited_allow_snake` is whether an
/// enclosing item allows non-snake-case names.
pub fn rvs_extract_from_items(items: &Vec<Item>, statics: &Vec<StaticDecl>, inherited_allow_snake: bool) -> (r: Vec<FnDef>)
    requires
        spec_items_lines_ok(items@),
    ensures
        spec_defs_match(r@, spec_items_picks(items@, inherited_allow_snake), spec_decl_rows(statics@)),
    decreases items,
{
    let ghost decls = spec_decl_rows(statics@);
    let mut r: Vec<FnDef> = Vec::new();
    let mut i: usize = 0;
    while i < items.len()
        invariant
            spec_items_lines_ok(items@),
            decls == spec_decl_rows(statics@),
            i <= items@.len(),
            spec_defs_match(r@, spec_items_picks(items@.take(i as int), inherited_allow_snake), decls),
        decreases items@.len() - i,
    {
        assert(items@.take(i + 1).drop_last() =~= items@.take(i as int));
        assert(items@.take(i + 1).last() == items@[i as int]);
        proof { lemma_items_lines_ok_at(items@, i as int); }
        let sub = rvs_extract_from_item(&items[i], statics, inherited_allow_snake);
        rvs_append_defs(&mut r, sub, Ghost(spec_items_picks(items@.take(i as int), inherited_allow_snake)),
            Ghost(spec_item_picks(items@[i as int], inherited_allow_snake)), Ghost(decls));
        i = i + 1;
    }
    assert(items@.take(items@.len() as int) =~= items@);
    r
}

proof fn lemma_items_lines_ok_at(items: Seq<Item>, i: int)
    requires
        spec_items_lines_ok(items),
        0 <= i < items.len(),
    ensures
        spec_item_lines_ok(items[i]),
    decreases items.len(),
{
    if i < items.len() - 1 {
        assert(items.drop_last()[i] == items[i]);
        lemma_items_lines_ok_at(items.drop_last(), i);
    }
}

} // verus!
