//! The source-level findings of a file: its tests, its stub uses, its
//! empty functions, and the functions and types that break a naming,
//! documentation or signature rule.
//!
//! Each collector walks the items in source order and enters inline
//! modules; which `impl` blocks and traits it enters is stated with it.
use vstd::prelude::*;

use crate::body_scan::{spec_strictly_ascending, spec_text_set, rvs_is_empty_block, rvs_scan_block_for_stubs, spec_block_is_empty, spec_block_stubs, spec_stub_rows, StubRow};
use crate::call_harvest::{rvs_collect_calls_and_statics, spec_block_harvest, spec_call_rows, spec_decl_rows, CallRow, DeclRow, StaticDecl};
use crate::capability::Capability;
use crate::collections::{rvs_set_insert_M, rvs_set_new};
use crate::order::spec_lt;
use crate::symbols::DefPath;
use crate::extract::{CalleeInfo, BorrowedParamInfo, ConsumedArgOnErrorInfo, DerefPolymorphismInfo, EmptyFnInfo, ImportInfo, IntoImplInfo, MissingDebugInfo, MissingPanicsDocInfo, NonRvsFnInfo, PubItemInfo, StubMacroInfo, TestName, UnsafeFnInfo};
use crate::item_scan::{rvs_attr_named, spec_attr_named, rvs_has_debug_derive, spec_has_debug_derive, rvs_has_doc_attr, rvs_has_doc_section, rvs_is_test_fn, spec_has_doc_attr, spec_has_doc_section, spec_is_test_fn};
use crate::names::{rvs_parse_function, spec_parsed_caps};
use crate::syntax::{rvs_spells, Attribute, SourceFile, FnArg, FnItem, GenericArg, Signature, ImplBlock, ImplMember, Item, TypeDecl, TypeExpr, TypeSegment, UseTree};
use crate::item_scan::{rvs_collect_static_decls_from_items, spec_items_static_decls, spec_text_rows};
use crate::lints::{rvs_unresolved_call_name, spec_unresolved_call_name};
use crate::text::{lemma_first_index_of, rvs_chars_eq, rvs_chars_of, rvs_find_char_from, rvs_slice_chars, rvs_trim, spec_first_index_of, spec_trim, rvs_push_all, rvs_starts_with, rvs_string_of, spec_starts_with};

verus! {

// ------------------------------------------------------------------ tests

pub open spec fn spec_test_rows(v: Seq<TestName>) -> Seq<(Seq<char>, usize)> {
    v.map_values(|t: TestName| (t.name@, t.line))
}

/// A function as a test row, if it is a `#[test]`.
pub open spec fn spec_fn_test(f: FnItem) -> Seq<(Seq<char>, usize)> {
    if spec_is_test_fn(f.attrs@) {
        seq![(f.sig.ident.ident@, f.sig.ident.line)]
    } else {
        Seq::empty()
    }
}

pub open spec fn spec_members_tests(ms: Seq<ImplMember>) -> Seq<(Seq<char>, usize)>
    decreases ms.len(),
{
    if ms.len() == 0 {
        Seq::empty()
    } else {
        spec_members_tests(ms.drop_last()) + match ms.last() {
            ImplMember::Fn(f) => spec_fn_test(f),
            _ => Seq::empty(),
        }
    }
}

/// The `#[test]` functions of an item: free functions, methods of `impl`
/// blocks, and those of inline modules, `#[cfg(test)]` ones included.
pub open spec fn spec_item_tests(item: Item) -> Seq<(Seq<char>, usize)>
    decreases item,
{
    match item {
        Item::Fn(f) => spec_fn_test(f),
        Item::Impl(im) => spec_members_tests(im.members@),
        Item::Mod(_, content) => match content {
            Some(items) => spec_items_tests(items@),
            None => Seq::empty(),
        },
        _ => Seq::empty(),
    }
}

pub open spec fn spec_items_tests(items: Seq<Item>) -> Seq<(Seq<char>, usize)>
    decreases items,
{
    if items.len() == 0 {
        Seq::empty()
    } else {
        spec_items_tests(items.drop_last()) + spec_item_tests(items.last())
    }
}

fn rvs_append_tests(r: &mut Vec<TestName>, sub: Vec<TestName>)
    ensures
        spec_test_rows(final(r)@) == spec_test_rows(old(r)@) + spec_test_rows(sub@),
{
    let mut sub = sub;
    let ghost a = r@;
    let ghost b = sub@;
    r.append(&mut sub);
    assert(spec_test_rows(r@) =~= spec_test_rows(a) + spec_test_rows(b));
}

fn rvs_fn_test(f: &FnItem) -> (r: Vec<TestName>)
    ensures
        spec_test_rows(r@) == spec_fn_test(*f),
{
    let mut r: Vec<TestName> = Vec::new();
    if rvs_is_test_fn(&f.attrs) {
        r.push(TestName { name: f.sig.ident.ident.clone(), line: f.sig.ident.line });
    }
    assert(spec_test_rows(r@) =~= spec_fn_test(*f));
    r
}

fn rvs_item_tests(item: &Item) -> (r: Vec<TestName>)
    ensures
        spec_test_rows(r@) == spec_item_tests(*item),
    decreases item,
{
    match item {
        Item::Fn(f) => rvs_fn_test(f),
        Item::Impl(im) => {
            let ms = &im.members;
            let mut r: Vec<TestName> = Vec::new();
            let mut i: usize = 0;
            assert(spec_test_rows(r@) =~= spec_members_tests(ms@.take(0)));
            while i < ms.len()
                invariant
                    i <= ms@.len(),
                    spec_test_rows(r@) == spec_members_tests(ms@.take(i as int)),
                decreases ms@.len() - i,
            {
                assert(ms@.take(i + 1).drop_last() =~= ms@.take(i as int));
                assert(ms@.take(i + 1).last() == ms@[i as int]);
                match &ms[i] {
                    ImplMember::Fn(f) => rvs_append_tests(&mut r, rvs_fn_test(f)),
                    _ => {
                        assert(spec_test_rows(r@) + Seq::<(Seq<char>, usize)>::empty() =~= spec_test_rows(r@));
                    },
                }
                i = i + 1;
            }
            assert(ms@.take(ms@.len() as int) =~= ms@);
            r
        },
        Item::Mod(_, content) => match content {
            Some(items) => rvs_collect_tests_from_items(items),
            None => {
                let r: Vec<TestName> = Vec::new();
                assert(spec_test_rows(r@) =~= Seq::<(Seq<char>, usize)>::empty());
                r
            },
        },
        _ => {
            let r: Vec<TestName> = Vec::new();
            assert(spec_test_rows(r@) =~= spec_item_tests(*item));
            r
        },
    }
}

/// The `#[test]` functions of the items, with their lines.
pub fn rvs_collect_tests_from_items(items: &Vec<Item>) -> (r: Vec<TestName>)
    ensures
        spec_test_rows(r@) == spec_items_tests(items@),
    decreases items,
{
    let mut r: Vec<TestName> = Vec::new();
    let mut i: usize = 0;
    assert(spec_test_rows(r@) =~= spec_items_tests(items@.take(0)));
    while i < items.len()
        invariant
            i <= items@.len(),
            spec_test_rows(r@) == spec_items_tests(items@.take(i as int)),
        decreases items@.len() - i,
    {
        assert(items@.take(i + 1).drop_last() =~= items@.take(i as int));
        assert(items@.take(i + 1).last() == items@[i as int]);
        rvs_append_tests(&mut r, rvs_item_tests(&items[i]));
        i = i + 1;
    }
    assert(items@.take(items@.len() as int) =~= items@);
    r
}

// ----------------------------------------------------------- stub macros

/// The stub uses in a function's body.
pub open spec fn spec_fn_stubs(f: FnItem) -> Seq<StubRow> {
    match f.body {
        Some(b) => spec_block_stubs(b.block, f.sig.ident.ident@),
        None => Seq::empty(),
    }
}

pub open spec fn spec_members_stubs(ms: Seq<ImplMember>) -> Seq<StubRow>
    decreases ms.len(),
{
    if ms.len() == 0 {
        Seq::empty()
    } else {
        spec_members_stubs(ms.drop_last()) + match ms.last() {
            ImplMember::Fn(f) => spec_fn_stubs(f),
            _ => Seq::empty(),
        }
    }
}

/// The stub uses of an item: in free functions, in methods of `impl`
/// blocks, and in inline modules.
pub open spec fn spec_item_stubs(item: Item) -> Seq<StubRow>
    decreases item,
{
    match item {
        Item::Fn(f) => spec_fn_stubs(f),
        Item::Impl(im) => spec_members_stubs(im.members@),
        Item::Mod(_, content) => match content {
            Some(items) => spec_items_stubs(items@),
            None => Seq::empty(),
        },
        _ => Seq::empty(),
    }
}

pub open spec fn spec_items_stubs(items: Seq<Item>) -> Seq<StubRow>
    decreases items,
{
    if items.len() == 0 {
        Seq::empty()
    } else {
        spec_items_stubs(items.drop_last()) + spec_item_stubs(items.last())
    }
}

fn rvs_append_stub_infos(r: &mut Vec<StubMacroInfo>, sub: Vec<StubMacroInfo>)
    ensures
        spec_stub_rows(final(r)@) == spec_stub_rows(old(r)@) + spec_stub_rows(sub@),
{
    let mut sub = sub;
    let ghost a = r@;
    let ghost b = sub@;
    r.append(&mut sub);
    assert(spec_stub_rows(r@) =~= spec_stub_rows(a) + spec_stub_rows(b));
}

fn rvs_fn_stubs(f: &FnItem) -> (r: Vec<StubMacroInfo>)
    ensures
        spec_stub_rows(r@) == spec_fn_stubs(*f),
{
    match &f.body {
        Some(b) => rvs_scan_block_for_stubs(&b.block, f.sig.ident.ident.as_str()),
        None => {
            let r: Vec<StubMacroInfo> = Vec::new();
            assert(spec_stub_rows(r@) =~= Seq::<StubRow>::empty());
            r
        },
    }
}

fn rvs_item_stubs(item: &Item) -> (r: Vec<StubMacroInfo>)
    ensures
        spec_stub_rows(r@) == spec_item_stubs(*item),
    decreases item,
{
    match item {
        Item::Fn(f) => rvs_fn_stubs(f),
        Item::Impl(im) => {
            let ms = &im.members;
            let mut r: Vec<StubMacroInfo> = Vec::new();
            let mut i: usize = 0;
            assert(spec_stub_rows(r@) =~= spec_members_stubs(ms@.take(0)));
            while i < ms.len()
                invariant
                    i <= ms@.len(),
                    spec_stub_rows(r@) == spec_members_stubs(ms@.take(i as int)),
                decreases ms@.len() - i,
            {
                assert(ms@.take(i + 1).drop_last() =~= ms@.take(i as int));
                assert(ms@.take(i + 1).last() == ms@[i as int]);
                match &ms[i] {
                    ImplMember::Fn(f) => rvs_append_stub_infos(&mut r, rvs_fn_stubs(f)),
                    _ => {
                        assert(spec_stub_rows(r@) + Seq::<StubRow>::empty() =~= spec_stub_rows(r@));
                    },
                }
                i = i + 1;
            }
            assert(ms@.take(ms@.len() as int) =~= ms@);
            r
        },
        Item::Mod(_, content) => match content {
            Some(items) => rvs_collect_stub_macros_from_items(items),
            None => {
                let r: Vec<StubMacroInfo> = Vec::new();
                assert(spec_stub_rows(r@) =~= Seq::<StubRow>::empty());
                r
            },
        },
        _ => {
            let r: Vec<StubMacroInfo> = Vec::new();
            assert(spec_stub_rows(r@) =~= spec_item_stubs(*item));
            r
        },
    }
}

/// The `todo!()` and `unimplemented!()` uses of the items, each with its
/// function and line.
pub fn rvs_collect_stub_macros_from_items(items: &Vec<Item>) -> (r: Vec<StubMacroInfo>)
    ensures
        spec_stub_rows(r@) == spec_items_stubs(items@),
    decreases items,
{
    let mut r: Vec<StubMacroInfo> = Vec::new();
    let mut i: usize = 0;
    assert(spec_stub_rows(r@) =~= spec_items_stubs(items@.take(0)));
    while i < items.len()
        invariant
            i <= items@.len(),
            spec_stub_rows(r@) == spec_items_stubs(items@.take(i as int)),
        decreases items@.len() - i,
    {
        assert(items@.take(i + 1).drop_last() =~= items@.take(i as int));
        assert(items@.take(i + 1).last() == items@[i as int]);
        rvs_append_stub_infos(&mut r, rvs_item_stubs(&items[i]));
        i = i + 1;
    }
    assert(items@.take(items@.len() as int) =~= items@);
    r
}

// ----------------------------------------------------------- empty bodies

pub open spec fn spec_empty_rows(v: Seq<EmptyFnInfo>) -> Seq<(Seq<char>, usize)> {
    v.map_values(|e: EmptyFnInfo| (e.function@, e.line))
}

/// A function as an empty-body row, if its body is only debug assertions.
pub open spec fn spec_fn_empty(f: FnItem) -> Seq<(Seq<char>, usize)> {
    match f.body {
        Some(b) => if spec_block_is_empty(b.block) {
            seq![(f.sig.ident.ident@, f.sig.ident.line)]
        } else {
            Seq::empty()
        },
        None => Seq::empty(),
    }
}

pub open spec fn spec_members_empty(ms: Seq<ImplMember>) -> Seq<(Seq<char>, usize)>
    decreases ms.len(),
{
    if ms.len() == 0 {
        Seq::empty()
    } else {
        spec_members_empty(ms.drop_last()) + match ms.last() {
            ImplMember::Fn(f) => spec_fn_empty(f),
            _ => Seq::empty(),
        }
    }
}

/// The functions of an item whose bodies hold only debug assertions: free
/// functions, methods of `impl` blocks, and those of inline modules.
pub open spec fn spec_item_empty(item: Item) -> Seq<(Seq<char>, usize)>
    decreases item,
{
    match item {
        Item::Fn(f) => spec_fn_empty(f),
        Item::Impl(im) => spec_members_empty(im.members@),
        Item::Mod(_, content) => match content {
            Some(items) => spec_items_empty(items@),
            None => Seq::empty(),
        },
        _ => Seq::empty(),
    }
}

pub open spec fn spec_items_empty(items: Seq<Item>) -> Seq<(Seq<char>, usize)>
    decreases items,
{
    if items.len() == 0 {
        Seq::empty()
    } else {
        spec_items_empty(items.drop_last()) + spec_item_empty(items.last())
    }
}

fn rvs_append_empty(r: &mut Vec<EmptyFnInfo>, sub: Vec<EmptyFnInfo>)
    ensures
        spec_empty_rows(final(r)@) == spec_empty_rows(old(r)@) + spec_empty_rows(sub@),
{
    let mut sub = sub;
    let ghost a = r@;
    let ghost b = sub@;
    r.append(&mut sub);
    assert(spec_empty_rows(r@) =~= spec_empty_rows(a) + spec_empty_rows(b));
}

fn rvs_fn_empty(f: &FnItem) -> (r: Vec<EmptyFnInfo>)
    ensures
        spec_empty_rows(r@) == spec_fn_empty(*f),
{
    let mut r: Vec<EmptyFnInfo> = Vec::new();
    match &f.body {
        Some(b) => {
            if rvs_is_empty_block(&b.block) {
                r.push(EmptyFnInfo { function: f.sig.ident.ident.clone(), line: f.sig.ident.line });
            }
        },
        None => {},
    }
    assert(spec_empty_rows(r@) =~= spec_fn_empty(*f));
    r
}

fn rvs_item_empty(item: &Item) -> (r: Vec<EmptyFnInfo>)
    ensures
        spec_empty_rows(r@) == spec_item_empty(*item),
    decreases item,
{
    match item {
        Item::Fn(f) => rvs_fn_empty(f),
        Item::Impl(im) => {
            let ms = &im.members;
            let mut r: Vec<EmptyFnInfo> = Vec::new();
            let mut i: usize = 0;
            assert(spec_empty_rows(r@) =~= spec_members_empty(ms@.take(0)));
            while i < ms.len()
                invariant
                    i <= ms@.len(),
                    spec_empty_rows(r@) == spec_members_empty(ms@.take(i as int)),
                decreases ms@.len() - i,
            {
                assert(ms@.take(i + 1).drop_last() =~= ms@.take(i as int));
                assert(ms@.take(i + 1).last() == ms@[i as int]);
                match &ms[i] {
                    ImplMember::Fn(f) => rvs_append_empty(&mut r, rvs_fn_empty(f)),
                    _ => {
                        assert(spec_empty_rows(r@) + Seq::<(Seq<char>, usize)>::empty() =~= spec_empty_rows(r@));
                    },
                }
                i = i + 1;
            }
            assert(ms@.take(ms@.len() as int) =~= ms@);
            r
        },
        Item::Mod(_, content) => match content {
            Some(items) => rvs_collect_empty_fns_from_items(items),
            None => {
                let r: Vec<EmptyFnInfo> = Vec::new();
                assert(spec_empty_rows(r@) =~= Seq::<(Seq<char>, usize)>::empty());
                r
            },
        },
        _ => {
            let r: Vec<EmptyFnInfo> = Vec::new();
            assert(spec_empty_rows(r@) =~= spec_item_empty(*item));
            r
        },
    }
}

/// The functions of the items whose bodies hold only debug assertions.
pub fn rvs_collect_empty_fns_from_items(items: &Vec<Item>) -> (r: Vec<EmptyFnInfo>)
    ensures
        spec_empty_rows(r@) == spec_items_empty(items@),
    decreases items,
{
    let mut r: Vec<EmptyFnInfo> = Vec::new();
    let mut i: usize = 0;
    assert(spec_empty_rows(r@) =~= spec_items_empty(items@.take(0)));
    while i < items.len()
        invariant
            i <= items@.len(),
            spec_empty_rows(r@) == spec_items_empty(items@.take(i as int)),
        decreases items@.len() - i,
    {
        assert(items@.take(i + 1).drop_last() =~= items@.take(i as int));
        assert(items@.take(i + 1).last() == items@[i as int]);
        rvs_append_empty(&mut r, rvs_item_empty(&items[i]));
        i = i + 1;
    }
    assert(items@.take(items@.len() as int) =~= items@);
    r
}

// ------------------------------------------------------ missing prefixes

pub open spec fn spec_nonrvs_rows(v: Seq<NonRvsFnInfo>) -> Seq<(Seq<char>, usize, bool)> {
    v.map_values(|x: NonRvsFnInfo| (x.name@, x.line, x.has_rvs_prefix))
}

/// A function without the `rvs_` prefix as a naming row (its flag is then
/// always false); a test function or one with the prefix gives none.
pub open spec fn spec_fn_nonrvs(f: FnItem) -> Seq<(Seq<char>, usize, bool)> {
    if spec_is_test_fn(f.attrs@) || spec_starts_with(f.sig.ident.ident@, "rvs_"@) {
        Seq::empty()
    } else {
        seq![(f.sig.ident.ident@, f.sig.ident.line, false)]
    }
}

pub open spec fn spec_members_nonrvs(ms: Seq<ImplMember>) -> Seq<(Seq<char>, usize, bool)>
    decreases ms.len(),
{
    if ms.len() == 0 {
        Seq::empty()
    } else {
        spec_members_nonrvs(ms.drop_last()) + match ms.last() {
            ImplMember::Fn(f) => spec_fn_nonrvs(f),
            _ => Seq::empty(),
        }
    }
}

/// The functions an item contributes to the prefix check: free functions
/// other than tests and `main`, methods (not tests) of inherent `impl`
/// blocks, and those of inline modules.
pub open spec fn spec_item_nonrvs(item: Item) -> Seq<(Seq<char>, usize, bool)>
    decreases item,
{
    match item {
        Item::Fn(f) => if f.sig.ident.ident@ == "main"@ {
            Seq::empty()
        } else {
            spec_fn_nonrvs(f)
        },
        Item::Impl(im) => if im.trait_path is Some {
            Seq::empty()
        } else {
            spec_members_nonrvs(im.members@)
        },
        Item::Mod(_, content) => match content {
            Some(items) => spec_items_nonrvs(items@),
            None => Seq::empty(),
        },
        _ => Seq::empty(),
    }
}

pub open spec fn spec_items_nonrvs(items: Seq<Item>) -> Seq<(Seq<char>, usize, bool)>
    decreases items,
{
    if items.len() == 0 {
        Seq::empty()
    } else {
        spec_items_nonrvs(items.drop_last()) + spec_item_nonrvs(items.last())
    }
}

fn rvs_append_nonrvs(r: &mut Vec<NonRvsFnInfo>, sub: Vec<NonRvsFnInfo>)
    ensures
        spec_nonrvs_rows(final(r)@) == spec_nonrvs_rows(old(r)@) + spec_nonrvs_rows(sub@),
{
    let mut sub = sub;
    let ghost a = r@;
    let ghost b = sub@;
    r.append(&mut sub);
    assert(spec_nonrvs_rows(r@) =~= spec_nonrvs_rows(a) + spec_nonrvs_rows(b));
}

fn rvs_fn_nonrvs(f: &FnItem) -> (r: Vec<NonRvsFnInfo>)
    ensures
        spec_nonrvs_rows(r@) == spec_fn_nonrvs(*f),
{
    let mut r: Vec<NonRvsFnInfo> = Vec::new();
    let name = rvs_chars_of(f.sig.ident.ident.as_str());
    let prefix = rvs_chars_of("rvs_");
    if !rvs_is_test_fn(&f.attrs) && !rvs_starts_with(name.as_slice(), prefix.as_slice()) {
        r.push(NonRvsFnInfo { name: f.sig.ident.ident.clone(), line: f.sig.ident.line, has_rvs_prefix: false });
    }
    assert(spec_nonrvs_rows(r@) =~= spec_fn_nonrvs(*f));
    r
}

fn rvs_members_nonrvs(ms: &Vec<ImplMember>) -> (r: Vec<NonRvsFnInfo>)
    ensures
        spec_nonrvs_rows(r@) == spec_members_nonrvs(ms@),
{
    let mut r: Vec<NonRvsFnInfo> = Vec::new();
    let mut i: usize = 0;
    assert(spec_nonrvs_rows(r@) =~= spec_members_nonrvs(ms@.take(0)));
    while i < ms.len()
        invariant
            i <= ms@.len(),
            spec_nonrvs_rows(r@) == spec_members_nonrvs(ms@.take(i as int)),
        decreases ms@.len() - i,
    {
        assert(ms@.take(i + 1).drop_last() =~= ms@.take(i as int));
        assert(ms@.take(i + 1).last() == ms@[i as int]);
        match &ms[i] {
            ImplMember::Fn(f) => rvs_append_nonrvs(&mut r, rvs_fn_nonrvs(f)),
            _ => {
                assert(spec_nonrvs_rows(r@) + Seq::<(Seq<char>, usize, bool)>::empty() =~= spec_nonrvs_rows(r@));
            },
        }
        i = i + 1;
    }
    assert(ms@.take(ms@.len() as int) =~= ms@);
    r
}

fn rvs_item_nonrvs(item: &Item) -> (r: Vec<NonRvsFnInfo>)
    ensures
        spec_nonrvs_rows(r@) == spec_item_nonrvs(*item),
    decreases item,
{
    match item {
        Item::Fn(f) => {
            let name = rvs_chars_of(f.sig.ident.ident.as_str());
            if rvs_spells(name.as_slice(), "main") {
                let r: Vec<NonRvsFnInfo> = Vec::new();
                assert(spec_nonrvs_rows(r@) =~= Seq::<(Seq<char>, usize, bool)>::empty());
                r
            } else {
                rvs_fn_nonrvs(f)
            }
        },
        Item::Impl(im) => match &im.trait_path {
            Some(_) => {
                let r: Vec<NonRvsFnInfo> = Vec::new();
                assert(spec_nonrvs_rows(r@) =~= Seq::<(Seq<char>, usize, bool)>::empty());
                r
            },
            None => rvs_members_nonrvs(&im.members),
        },
        Item::Mod(_, content) => match content {
            Some(items) => rvs_collect_non_rvs_fns_from_items(items),
            None => {
                let r: Vec<NonRvsFnInfo> = Vec::new();
                assert(spec_nonrvs_rows(r@) =~= Seq::<(Seq<char>, usize, bool)>::empty());
                r
            },
        },
        _ => {
            let r: Vec<NonRvsFnInfo> = Vec::new();
            assert(spec_nonrvs_rows(r@) =~= spec_item_nonrvs(*item));
            r
        },
    }
}

/// Every function of the items but tests, `main` and methods of trait
/// impls, with whether its name has the `rvs_` prefix.
pub fn rvs_collect_non_rvs_fns_from_items(items: &Vec<Item>) -> (r: Vec<NonRvsFnInfo>)
    ensures
        spec_nonrvs_rows(r@) == spec_items_nonrvs(items@),
    decreases items,
{
    let mut r: Vec<NonRvsFnInfo> = Vec::new();
    let mut i: usize = 0;
    assert(spec_nonrvs_rows(r@) =~= spec_items_nonrvs(items@.take(0)));
    while i < items.len()
        invariant
            i <= items@.len(),
            spec_nonrvs_rows(r@) == spec_items_nonrvs(items@.take(i as int)),
        decreases items@.len() - i,
    {
        assert(items@.take(i + 1).drop_last() =~= items@.take(i as int));
        assert(items@.take(i + 1).last() == items@[i as int]);
        rvs_append_nonrvs(&mut r, rvs_item_nonrvs(&items[i]));
        i = i + 1;
    }
    assert(items@.take(items@.len() as int) =~= items@);
    r
}

// ------------------------------------------------------- documentation

pub open spec fn spec_pubs_rows(v: Seq<PubItemInfo>) -> Seq<(Seq<char>, usize, bool)> {
    v.map_values(|x: PubItemInfo| (x.name@, x.line, x.has_doc))
}

/// A public function as a row, with whether it is documented.
pub open spec fn spec_fn_pubs(f: FnItem) -> Seq<(Seq<char>, usize, bool)> {
    if f.is_pub && !spec_is_test_fn(f.attrs@) {
        seq![(f.sig.ident.ident@, f.sig.ident.line, spec_has_doc_attr(f.attrs@))]
    } else {
        Seq::empty()
    }
}

pub open spec fn spec_members_pubs(ms: Seq<ImplMember>) -> Seq<(Seq<char>, usize, bool)>
    decreases ms.len(),
{
    if ms.len() == 0 {
        Seq::empty()
    } else {
        spec_members_pubs(ms.drop_last()) + match ms.last() {
            ImplMember::Fn(f) => spec_fn_pubs(f),
            _ => Seq::empty(),
        }
    }
}

/// The public functions of an item: free functions and methods of inherent
/// `impl` blocks, tests left out, and those of inline modules.
pub open spec fn spec_item_pubs(item: Item) -> Seq<(Seq<char>, usize, bool)>
    decreases item,
{
    match item {
        Item::Fn(f) => spec_fn_pubs(f),
        Item::Impl(im) => if im.trait_path is Some {
            Seq::empty()
        } else {
            spec_members_pubs(im.members@)
        },
        Item::Mod(_, content) => match content {
            Some(items) => spec_items_pubs(items@),
            None => Seq::empty(),
        },
        _ => Seq::empty(),
    }
}

pub open spec fn spec_items_pubs(items: Seq<Item>) -> Seq<(Seq<char>, usize, bool)>
    decreases items,
{
    if items.len() == 0 {
        Seq::empty()
    } else {
        spec_items_pubs(items.drop_last()) + spec_item_pubs(items.last())
    }
}

fn rvs_append_pubs(r: &mut Vec<PubItemInfo>, sub: Vec<PubItemInfo>)
    ensures
        spec_pubs_rows(final(r)@) == spec_pubs_rows(old(r)@) + spec_pubs_rows(sub@),
{
    let mut sub = sub;
    let ghost a = r@;
    let ghost b = sub@;
    r.append(&mut sub);
    assert(spec_pubs_rows(r@) =~= spec_pubs_rows(a) + spec_pubs_rows(b));
}

fn rvs_fn_pubs(f: &FnItem) -> (r: Vec<PubItemInfo>)
    ensures
        spec_pubs_rows(r@) == spec_fn_pubs(*f),
{
    let mut r: Vec<PubItemInfo> = Vec::new();
    if f.is_pub && !rvs_is_test_fn(&f.attrs) {
        r.push(PubItemInfo { name: f.sig.ident.ident.clone(), line: f.sig.ident.line, has_doc: rvs_has_doc_attr(&f.attrs) });
    }
    assert(spec_pubs_rows(r@) =~= spec_fn_pubs(*f));
    r
}

fn rvs_members_pubs(ms: &Vec<ImplMember>) -> (r: Vec<PubItemInfo>)
    ensures
        spec_pubs_rows(r@) == spec_members_pubs(ms@),
{
    let mut r: Vec<PubItemInfo> = Vec::new();
    let mut i: usize = 0;
    assert(spec_pubs_rows(r@) =~= spec_members_pubs(ms@.take(0)));
    while i < ms.len()
        invariant
            i <= ms@.len(),
            spec_pubs_rows(r@) == spec_members_pubs(ms@.take(i as int)),
        decreases ms@.len() - i,
    {
        assert(ms@.take(i + 1).drop_last() =~= ms@.take(i as int));
        assert(ms@.take(i + 1).last() == ms@[i as int]);
        match &ms[i] {
            ImplMember::Fn(f) => rvs_append_pubs(&mut r, rvs_fn_pubs(f)),
            _ => {
                assert(spec_pubs_rows(r@) + Seq::<(Seq<char>, usize, bool)>::empty() =~= spec_pubs_rows(r@));
            },
        }
        i = i + 1;
    }
    assert(ms@.take(ms@.len() as int) =~= ms@);
    r
}

fn rvs_item_pubs(item: &Item) -> (r: Vec<PubItemInfo>)
    ensures
        spec_pubs_rows(r@) == spec_item_pubs(*item),
    decreases item,
{
    match item {
        Item::Fn(f) => rvs_fn_pubs(f),
        Item::Impl(im) => match &im.trait_path {
            Some(_) => {
                let r: Vec<PubItemInfo> = Vec::new();
                assert(spec_pubs_rows(r@) =~= Seq::<(Seq<char>, usize, bool)>::empty());
                r
            },
            None => rvs_members_pubs(&im.members),
        },
        Item::Mod(_, content) => match content {
            Some(items) => rvs_collect_pub_items_from_items(items),
            None => {
                let r: Vec<PubItemInfo> = Vec::new();
                assert(spec_pubs_rows(r@) =~= Seq::<(Seq<char>, usize, bool)>::empty());
                r
            },
        },
        _ => {
            let r: Vec<PubItemInfo> = Vec::new();
            assert(spec_pubs_rows(r@) =~= spec_item_pubs(*item));
            r
        },
    }
}

/// The public functions and methods of the items, with whether each is
/// documented.
pub fn rvs_collect_pub_items_from_items(items: &Vec<Item>) -> (r: Vec<PubItemInfo>)
    ensures
        spec_pubs_rows(r@) == spec_items_pubs(items@),
    decreases items,
{
    let mut r: Vec<PubItemInfo> = Vec::new();
    let mut i: usize = 0;
    assert(spec_pubs_rows(r@) =~= spec_items_pubs(items@.take(0)));
    while i < items.len()
        invariant
            i <= items@.len(),
            spec_pubs_rows(r@) == spec_items_pubs(items@.take(i as int)),
        decreases items@.len() - i,
    {
        assert(items@.take(i + 1).drop_last() =~= items@.take(i as int));
        assert(items@.take(i + 1).last() == items@[i as int]);
        rvs_append_pubs(&mut r, rvs_item_pubs(&items[i]));
        i = i + 1;
    }
    assert(items@.take(items@.len() as int) =~= items@);
    r
}

// ---------------------------------------------------------------- unsafe

pub open spec fn spec_unsafes_rows(v: Seq<UnsafeFnInfo>) -> Seq<(Seq<char>, usize, bool)> {
    v.map_values(|x: UnsafeFnInfo| (x.name@, x.line, x.has_safety_doc))
}

/// An `unsafe fn` as a row, with whether it has a `# Safety` section.
pub open spec fn spec_fn_unsafes(f: FnItem) -> Seq<(Seq<char>, usize, bool)> {
    if f.sig.is_unsafe {
        seq![(f.sig.ident.ident@, f.sig.ident.line, spec_has_doc_section(f.attrs@, "# Safety"@))]
    } else {
        Seq::empty()
    }
}

pub open spec fn spec_trait_unsafes(fs: Seq<FnItem>) -> Seq<(Seq<char>, usize, bool)>
    decreases fs.len(),
{
    if fs.len() == 0 {
        Seq::empty()
    } else {
        spec_trait_unsafes(fs.drop_last()) + spec_fn_unsafes(fs.last())
    }
}

pub open spec fn spec_members_unsafes(ms: Seq<ImplMember>) -> Seq<(Seq<char>, usize, bool)>
    decreases ms.len(),
{
    if ms.len() == 0 {
        Seq::empty()
    } else {
        spec_members_unsafes(ms.drop_last()) + match ms.last() {
            ImplMember::Fn(f) => spec_fn_unsafes(f),
            _ => Seq::empty(),
        }
    }
}

/// The `unsafe fn`s of an item: free functions, methods of any `impl`
/// block and of traits, and those of inline modules.
pub open spec fn spec_item_unsafes(item: Item) -> Seq<(Seq<char>, usize, bool)>
    decreases item,
{
    match item {
        Item::Fn(f) => spec_fn_unsafes(f),
        Item::Impl(im) => spec_members_unsafes(im.members@),
        Item::Trait(_, fs) => spec_trait_unsafes(fs@),
        Item::Mod(_, content) => match content {
            Some(items) => spec_items_unsafes(items@),
            None => Seq::empty(),
        },
        _ => Seq::empty(),
    }
}

pub open spec fn spec_items_unsafes(items: Seq<Item>) -> Seq<(Seq<char>, usize, bool)>
    decreases items,
{
    if items.len() == 0 {
        Seq::empty()
    } else {
        spec_items_unsafes(items.drop_last()) + spec_item_unsafes(items.last())
    }
}

fn rvs_append_unsafes(r: &mut Vec<UnsafeFnInfo>, sub: Vec<UnsafeFnInfo>)
    ensures
        spec_unsafes_rows(final(r)@) == spec_unsafes_rows(old(r)@) + spec_unsafes_rows(sub@),
{
    let mut sub = sub;
    let ghost a = r@;
    let ghost b = sub@;
    r.append(&mut sub);
    assert(spec_unsafes_rows(r@) =~= spec_unsafes_rows(a) + spec_unsafes_rows(b));
}

fn rvs_fn_unsafes(f: &FnItem) -> (r: Vec<UnsafeFnInfo>)
    ensures
        spec_unsafes_rows(r@) == spec_fn_unsafes(*f),
{
    let mut r: Vec<UnsafeFnInfo> = Vec::new();
    if f.sig.is_unsafe {
        r.push(UnsafeFnInfo {
            name: f.sig.ident.ident.clone(),
            line: f.sig.ident.line,
            has_safety_doc: rvs_has_doc_section(&f.attrs, "# Safety"),
        });
    }
    assert(spec_unsafes_rows(r@) =~= spec_fn_unsafes(*f));
    r
}

fn rvs_trait_unsafes(fs: &Vec<FnItem>) -> (r: Vec<UnsafeFnInfo>)
    ensures
        spec_unsafes_rows(r@) == spec_trait_unsafes(fs@),
{
    let mut r: Vec<UnsafeFnInfo> = Vec::new();
    let mut i: usize = 0;
    assert(spec_unsafes_rows(r@) =~= spec_trait_unsafes(fs@.take(0)));
    while i < fs.len()
        invariant
            i <= fs@.len(),
            spec_unsafes_rows(r@) == spec_trait_unsafes(fs@.take(i as int)),
        decreases fs@.len() - i,
    {
        assert(fs@.take(i + 1).drop_last() =~= fs@.take(i as int));
        assert(fs@.take(i + 1).last() == fs@[i as int]);
        rvs_append_unsafes(&mut r, rvs_fn_unsafes(&fs[i]));
        i = i + 1;
    }
    assert(fs@.take(fs@.len() as int) =~= fs@);
    r
}

fn rvs_members_unsafes(ms: &Vec<ImplMember>) -> (r: Vec<UnsafeFnInfo>)
    ensures
        spec_unsafes_rows(r@) == spec_members_unsafes(ms@),
{
    let mut r: Vec<UnsafeFnInfo> = Vec::new();
    let mut i: usize = 0;
    assert(spec_unsafes_rows(r@) =~= spec_members_unsafes(ms@.take(0)));
    while i < ms.len()
        invariant
            i <= ms@.len(),
            spec_unsafes_rows(r@) == spec_members_unsafes(ms@.take(i as int)),
        decreases ms@.len() - i,
    {
        assert(ms@.take(i + 1).drop_last() =~= ms@.take(i as int));
        assert(ms@.take(i + 1).last() == ms@[i as int]);
        match &ms[i] {
            ImplMember::Fn(f) => rvs_append_unsafes(&mut r, rvs_fn_unsafes(f)),
            _ => {
                assert(spec_unsafes_rows(r@) + Seq::<(Seq<char>, usize, bool)>::empty() =~= spec_unsafes_rows(r@));
            },
        }
        i = i + 1;
    }
    assert(ms@.take(ms@.len() as int) =~= ms@);
    r
}

fn rvs_item_unsafes(item: &Item) -> (r: Vec<UnsafeFnInfo>)
    ensures
        spec_unsafes_rows(r@) == spec_item_unsafes(*item),
    decreases item,
{
    match item {
        Item::Fn(f) => rvs_fn_unsafes(f),
        Item::Impl(im) => rvs_members_unsafes(&im.members),
        Item::Trait(_, fs) => rvs_trait_unsafes(fs),
        Item::Mod(_, content) => match content {
            Some(items) => rvs_collect_unsafe_fns_from_items(items),
            None => {
                let r: Vec<UnsafeFnInfo> = Vec::new();
                assert(spec_unsafes_rows(r@) =~= Seq::<(Seq<char>, usize, bool)>::empty());
                r
            },
        },
        _ => {
            let r: Vec<UnsafeFnInfo> = Vec::new();
            assert(spec_unsafes_rows(r@) =~= spec_item_unsafes(*item));
            r
        },
    }
}

/// The `unsafe fn`s of the items, with whether each documents its safety
/// conditions in a `# Safety` section.
pub fn rvs_collect_unsafe_fns_from_items(items: &Vec<Item>) -> (r: Vec<UnsafeFnInfo>)
    ensures
        spec_unsafes_rows(r@) == spec_items_unsafes(items@),
    decreases items,
{
    let mut r: Vec<UnsafeFnInfo> = Vec::new();
    let mut i: usize = 0;
    assert(spec_unsafes_rows(r@) =~= spec_items_unsafes(items@.take(0)));
    while i < items.len()
        invariant
            i <= items@.len(),
            spec_unsafes_rows(r@) == spec_items_unsafes(items@.take(i as int)),
        decreases items@.len() - i,
    {
        assert(items@.take(i + 1).drop_last() =~= items@.take(i as int));
        assert(items@.take(i + 1).last() == items@[i as int]);
        rvs_append_unsafes(&mut r, rvs_item_unsafes(&items[i]));
        i = i + 1;
    }
    assert(items@.take(items@.len() as int) =~= items@);
    r
}

pub open spec fn spec_panicdoc_rows(v: Seq<MissingPanicsDocInfo>) -> Seq<(Seq<char>, usize)> {
    v.map_values(|x: MissingPanicsDocInfo| (x.function@, x.line))
}

/// A function declaring `P` without a `# Panics` section, as a row.
pub open spec fn spec_fn_panicdoc(f: FnItem) -> Seq<(Seq<char>, usize)> {
    match spec_parsed_caps(f.sig.ident.ident@) {
        Some(caps) => if caps.has(Capability::P) && !spec_has_doc_section(f.attrs@, "# Panics"@) {
            seq![(f.sig.ident.ident@, f.sig.ident.line)]
        } else {
            Seq::empty()
        },
        None => Seq::empty(),
    }
}

pub open spec fn spec_members_panicdoc(ms: Seq<ImplMember>) -> Seq<(Seq<char>, usize)>
    decreases ms.len(),
{
    if ms.len() == 0 {
        Seq::empty()
    } else {
        spec_members_panicdoc(ms.drop_last()) + match ms.last() {
            ImplMember::Fn(f) => spec_fn_panicdoc(f),
            _ => Seq::empty(),
        }
    }
}

/// The functions of an item that declare `P` without a `# Panics`
/// section: free functions, methods of inherent `impl` blocks, and those of
/// inline modules.
pub open spec fn spec_item_panicdoc(item: Item) -> Seq<(Seq<char>, usize)>
    decreases item,
{
    match item {
        Item::Fn(f) => spec_fn_panicdoc(f),
        Item::Impl(im) => if im.trait_path is Some {
            Seq::empty()
        } else {
            spec_members_panicdoc(im.members@)
        },
        Item::Mod(_, content) => match content {
            Some(items) => spec_items_panicdoc(items@),
            None => Seq::empty(),
        },
        _ => Seq::empty(),
    }
}

pub open spec fn spec_items_panicdoc(items: Seq<Item>) -> Seq<(Seq<char>, usize)>
    decreases items,
{
    if items.len() == 0 {
        Seq::empty()
    } else {
        spec_items_panicdoc(items.drop_last()) + spec_item_panicdoc(items.last())
    }
}

fn rvs_append_panicdoc(r: &mut Vec<MissingPanicsDocInfo>, sub: Vec<MissingPanicsDocInfo>)
    ensures
        spec_panicdoc_rows(final(r)@) == spec_panicdoc_rows(old(r)@) + spec_panicdoc_rows(sub@),
{
    let mut sub = sub;
    let ghost a = r@;
    let ghost b = sub@;
    r.append(&mut sub);
    assert(spec_panicdoc_rows(r@) =~= spec_panicdoc_rows(a) + spec_panicdoc_rows(b));
}

fn rvs_fn_panicdoc(f: &FnItem) -> (r: Vec<MissingPanicsDocInfo>)
    ensures
        spec_panicdoc_rows(r@) == spec_fn_panicdoc(*f),
{
    let mut r: Vec<MissingPanicsDocInfo> = Vec::new();
    let name = rvs_chars_of(f.sig.ident.ident.as_str());
    match rvs_parse_function(name.as_slice()) {
        Some(p) => {
            if p.1.rvs_contains(Capability::P) && !rvs_has_doc_section(&f.attrs, "# Panics") {
                r.push(MissingPanicsDocInfo { function: f.sig.ident.ident.clone(), line: f.sig.ident.line });
            }
        },
        None => {},
    }
    assert(spec_panicdoc_rows(r@) =~= spec_fn_panicdoc(*f));
    r
}

fn rvs_members_panicdoc(ms: &Vec<ImplMember>) -> (r: Vec<MissingPanicsDocInfo>)
    ensures
        spec_panicdoc_rows(r@) == spec_members_panicdoc(ms@),
{
    let mut r: Vec<MissingPanicsDocInfo> = Vec::new();
    let mut i: usize = 0;
    assert(spec_panicdoc_rows(r@) =~= spec_members_panicdoc(ms@.take(0)));
    while i < ms.len()
        invariant
            i <= ms@.len(),
            spec_panicdoc_rows(r@) == spec_members_panicdoc(ms@.take(i as int)),
        decreases ms@.len() - i,
    {
        assert(ms@.take(i + 1).drop_last() =~= ms@.take(i as int));
        assert(ms@.take(i + 1).last() == ms@[i as int]);
        match &ms[i] {
            ImplMember::Fn(f) => rvs_append_panicdoc(&mut r, rvs_fn_panicdoc(f)),
            _ => {
                assert(spec_panicdoc_rows(r@) + Seq::<(Seq<char>, usize)>::empty() =~= spec_panicdoc_rows(r@));
            },
        }
        i = i + 1;
    }
    assert(ms@.take(ms@.len() as int) =~= ms@);
    r
}

fn rvs_item_panicdoc(item: &Item) -> (r: Vec<MissingPanicsDocInfo>)
    ensures
        spec_panicdoc_rows(r@) == spec_item_panicdoc(*item),
    decreases item,
{
    match item {
        Item::Fn(f) => rvs_fn_panicdoc(f),
        Item::Impl(im) => match &im.trait_path {
            Some(_) => {
                let r: Vec<MissingPanicsDocInfo> = Vec::new();
                assert(spec_panicdoc_rows(r@) =~= Seq::<(Seq<char>, usize)>::empty());
                r
            },
            None => rvs_members_panicdoc(&im.members),
        },
        Item::Mod(_, content) => match content {
            Some(items) => rvs_collect_missing_panics_doc_from_items(items),
            None => {
                let r: Vec<MissingPanicsDocInfo> = Vec::new();
                assert(spec_panicdoc_rows(r@) =~= Seq::<(Seq<char>, usize)>::empty());
                r
            },
        },
        _ => {
            let r: Vec<MissingPanicsDocInfo> = Vec::new();
            assert(spec_panicdoc_rows(r@) =~= spec_item_panicdoc(*item));
            r
        },
    }
}

/// The functions of the items that declare `P` but have no `# Panics`
/// section.
pub fn rvs_collect_missing_panics_doc_from_items(items: &Vec<Item>) -> (r: Vec<MissingPanicsDocInfo>)
    ensures
        spec_panicdoc_rows(r@) == spec_items_panicdoc(items@),
    decreases items,
{
    let mut r: Vec<MissingPanicsDocInfo> = Vec::new();
    let mut i: usize = 0;
    assert(spec_panicdoc_rows(r@) =~= spec_items_panicdoc(items@.take(0)));
    while i < items.len()
        invariant
            i <= items@.len(),
            spec_panicdoc_rows(r@) == spec_items_panicdoc(items@.take(i as int)),
        decreases items@.len() - i,
    {
        assert(items@.take(i + 1).drop_last() =~= items@.take(i as int));
        assert(items@.take(i + 1).last() == items@[i as int]);
        rvs_append_panicdoc(&mut r, rvs_item_panicdoc(&items[i]));
        i = i + 1;
    }
    assert(items@.take(items@.len() as int) =~= items@);
    r
}


// ------------------------------------------------------ borrowed params

/// For `&String`, `&Vec<..>` and `&Box<..>` (by the last path segment,
/// shared references only): the type as written in the finding and the
/// type to use instead.
pub open spec fn spec_check_borrowed_type(ty: TypeExpr) -> Option<(Seq<char>, Seq<char>)> {
    match ty {
        TypeExpr::Reference(false, inner) => match *inner {
            TypeExpr::Path(segs) => if segs@.len() == 0 {
                None
            } else if segs@.last().ident@ == "String"@ {
                Some(("&String"@, "&str"@))
            } else if segs@.last().ident@ == "Vec"@ {
                Some(("&Vec<T>"@, "&[T]"@))
            } else if segs@.last().ident@ == "Box"@ {
                Some(("&Box<T>"@, "&T"@))
            } else {
                None
            },
            _ => None,
        },
        _ => None,
    }
}

/// The borrowed type of a parameter and the type to use instead, if it is
/// `&String`, `&Vec<..>` or `&Box<..>`.
pub fn rvs_check_borrowed_type(ty: &TypeExpr) -> (r: Option<(String, String)>)
    ensures
        match r {
            Some(p) => spec_check_borrowed_type(*ty) == Some((p.0@, p.1@)),
            None => spec_check_borrowed_type(*ty) is None,
        },
{
    match ty {
        TypeExpr::Reference(m, inner) => {
            if *m {
                return None;
            }
            match &**inner {
                TypeExpr::Path(segs) => {
                    let n = segs.len();
                    if n == 0 {
                        return None;
                    }
                    let last = rvs_chars_of(segs[n - 1].ident.as_str());
                    if rvs_spells(last.as_slice(), "String") {
                        Some(("&String".to_owned(), "&str".to_owned()))
                    } else if rvs_spells(last.as_slice(), "Vec") {
                        Some(("&Vec<T>".to_owned(), "&[T]".to_owned()))
                    } else if rvs_spells(last.as_slice(), "Box") {
                        Some(("&Box<T>".to_owned(), "&T".to_owned()))
                    } else {
                        None
                    }
                },
                _ => None,
            }
        },
        _ => None,
    }
}

/// The borrowed parameters of a signature, as rows of function, parameter,
/// borrowed type, suggested type and line.
pub open spec fn spec_params_borrowed(inputs: Seq<FnArg>, name: Seq<char>, line: usize) -> Seq<BorrowedRow>
    decreases inputs.len(),
{
    if inputs.len() == 0 {
        Seq::empty()
    } else {
        spec_params_borrowed(inputs.drop_last(), name, line) + match inputs.last() {
            FnArg::Typed(Some(p), ty) => match spec_check_borrowed_type(ty) {
                Some(fix) => seq![(name, p@, fix.0, fix.1, line)],
                None => Seq::empty(),
            },
            _ => Seq::empty(),
        }
    }
}

/// A borrowed parameter as a row.
pub type BorrowedRow = (Seq<char>, Seq<char>, Seq<char>, Seq<char>, usize);

pub open spec fn spec_borrowed_rows(v: Seq<BorrowedParamInfo>) -> Seq<BorrowedRow> {
    v.map_values(|x: BorrowedParamInfo| (x.function@, x.param@, x.original@, x.suggestion@, x.line))
}

/// The borrowed parameters of a function.
pub open spec fn spec_fn_borrowed(f: FnItem) -> Seq<BorrowedRow> {
    spec_params_borrowed(f.sig.inputs@, f.sig.ident.ident@, f.sig.ident.line)
}

pub open spec fn spec_trait_borrowed(fs: Seq<FnItem>) -> Seq<BorrowedRow>
    decreases fs.len(),
{
    if fs.len() == 0 {
        Seq::empty()
    } else {
        spec_trait_borrowed(fs.drop_last()) + spec_fn_borrowed(fs.last())
    }
}

pub open spec fn spec_members_borrowed(ms: Seq<ImplMember>) -> Seq<BorrowedRow>
    decreases ms.len(),
{
    if ms.len() == 0 {
        Seq::empty()
    } else {
        spec_members_borrowed(ms.drop_last()) + match ms.last() {
            ImplMember::Fn(f) => spec_fn_borrowed(f),
            _ => Seq::empty(),
        }
    }
}

/// The borrowed parameters of an item: in free functions, in methods of
/// inherent `impl` blocks and of traits, and in inline modules.
pub open spec fn spec_item_borrowed(item: Item) -> Seq<BorrowedRow>
    decreases item,
{
    match item {
        Item::Fn(f) => spec_fn_borrowed(f),
        Item::Impl(im) => if im.trait_path is Some {
            Seq::empty()
        } else {
            spec_members_borrowed(im.members@)
        },
        Item::Trait(_, fs) => spec_trait_borrowed(fs@),
        Item::Mod(_, content) => match content {
            Some(items) => spec_items_borrowed(items@),
            None => Seq::empty(),
        },
        _ => Seq::empty(),
    }
}

pub open spec fn spec_items_borrowed(items: Seq<Item>) -> Seq<BorrowedRow>
    decreases items,
{
    if items.len() == 0 {
        Seq::empty()
    } else {
        spec_items_borrowed(items.drop_last()) + spec_item_borrowed(items.last())
    }
}

fn rvs_append_borrowed(r: &mut Vec<BorrowedParamInfo>, sub: Vec<BorrowedParamInfo>)
    ensures
        spec_borrowed_rows(final(r)@) == spec_borrowed_rows(old(r)@) + spec_borrowed_rows(sub@),
{
    let mut sub = sub;
    let ghost a = r@;
    let ghost b = sub@;
    r.append(&mut sub);
    assert(spec_borrowed_rows(r@) =~= spec_borrowed_rows(a) + spec_borrowed_rows(b));
}

fn rvs_fn_borrowed(f: &FnItem) -> (r: Vec<BorrowedParamInfo>)
    ensures
        spec_borrowed_rows(r@) == spec_fn_borrowed(*f),
{
    let inputs = &f.sig.inputs;
    let ghost name = f.sig.ident.ident@;
    let ghost line = f.sig.ident.line;
    let mut r: Vec<BorrowedParamInfo> = Vec::new();
    let mut i: usize = 0;
    assert(spec_borrowed_rows(r@) =~= spec_params_borrowed(inputs@.take(0), name, line));
    while i < inputs.len()
        invariant
            inputs == &f.sig.inputs,
            name == f.sig.ident.ident@,
            line == f.sig.ident.line,
            i <= inputs@.len(),
            spec_borrowed_rows(r@) == spec_params_borrowed(inputs@.take(i as int), name, line),
        decreases inputs@.len() - i,
    {
        assert(inputs@.take(i + 1).drop_last() =~= inputs@.take(i as int));
        assert(inputs@.take(i + 1).last() == inputs@[i as int]);
        let ghost before = r@;
        match &inputs[i] {
            FnArg::Typed(Some(p), ty) => match rvs_check_borrowed_type(ty) {
                Some(fix) => {
                    r.push(BorrowedParamInfo {
                        function: f.sig.ident.ident.clone(),
                        param: p.clone(),
                        original: fix.0,
                        suggestion: fix.1,
                        line: f.sig.ident.line,
                    });
                    assert(spec_borrowed_rows(r@) =~= spec_borrowed_rows(before) + spec_params_borrowed(inputs@.take(i + 1), name, line).subrange(spec_borrowed_rows(before).len() as int, spec_params_borrowed(inputs@.take(i + 1), name, line).len() as int));
                },
                None => {
                    assert(spec_borrowed_rows(r@) =~= spec_params_borrowed(inputs@.take(i + 1), name, line));
                },
            },
            _ => {
                assert(spec_borrowed_rows(r@) =~= spec_params_borrowed(inputs@.take(i + 1), name, line));
            },
        }
        i = i + 1;
    }
    assert(inputs@.take(inputs@.len() as int) =~= inputs@);
    r
}

fn rvs_trait_borrowed(fs: &Vec<FnItem>) -> (r: Vec<BorrowedParamInfo>)
    ensures
        spec_borrowed_rows(r@) == spec_trait_borrowed(fs@),
{
    let mut r: Vec<BorrowedParamInfo> = Vec::new();
    let mut i: usize = 0;
    assert(spec_borrowed_rows(r@) =~= spec_trait_borrowed(fs@.take(0)));
    while i < fs.len()
        invariant
            i <= fs@.len(),
            spec_borrowed_rows(r@) == spec_trait_borrowed(fs@.take(i as int)),
        decreases fs@.len() - i,
    {
        assert(fs@.take(i + 1).drop_last() =~= fs@.take(i as int));
        assert(fs@.take(i + 1).last() == fs@[i as int]);
        rvs_append_borrowed(&mut r, rvs_fn_borrowed(&fs[i]));
        i = i + 1;
    }
    assert(fs@.take(fs@.len() as int) =~= fs@);
    r
}

fn rvs_members_borrowed(ms: &Vec<ImplMember>) -> (r: Vec<BorrowedParamInfo>)
    ensures
        spec_borrowed_rows(r@) == spec_members_borrowed(ms@),
{
    let mut r: Vec<BorrowedParamInfo> = Vec::new();
    let mut i: usize = 0;
    assert(spec_borrowed_rows(r@) =~= spec_members_borrowed(ms@.take(0)));
    while i < ms.len()
        invariant
            i <= ms@.len(),
            spec_borrowed_rows(r@) == spec_members_borrowed(ms@.take(i as int)),
        decreases ms@.len() - i,
    {
        assert(ms@.take(i + 1).drop_last() =~= ms@.take(i as int));
        assert(ms@.take(i + 1).last() == ms@[i as int]);
        match &ms[i] {
            ImplMember::Fn(f) => rvs_append_borrowed(&mut r, rvs_fn_borrowed(f)),
            _ => {
                assert(spec_borrowed_rows(r@) + Seq::<BorrowedRow>::empty() =~= spec_borrowed_rows(r@));
            },
        }
        i = i + 1;
    }
    assert(ms@.take(ms@.len() as int) =~= ms@);
    r
}

fn rvs_item_borrowed(item: &Item) -> (r: Vec<BorrowedParamInfo>)
    ensures
        spec_borrowed_rows(r@) == spec_item_borrowed(*item),
    decreases item,
{
    match item {
        Item::Fn(f) => rvs_fn_borrowed(f),
        Item::Impl(im) => match &im.trait_path {
            Some(_) => {
                let r: Vec<BorrowedParamInfo> = Vec::new();
                assert(spec_borrowed_rows(r@) =~= Seq::<BorrowedRow>::empty());
                r
            },
            None => rvs_members_borrowed(&im.members),
        },
        Item::Trait(_, fs) => rvs_trait_borrowed(fs),
        Item::Mod(_, content) => match content {
            Some(items) => rvs_collect_borrowed_params_from_items(items),
            None => {
                let r: Vec<BorrowedParamInfo> = Vec::new();
                assert(spec_borrowed_rows(r@) =~= Seq::<BorrowedRow>::empty());
                r
            },
        },
        _ => {
            let r: Vec<BorrowedParamInfo> = Vec::new();
            assert(spec_borrowed_rows(r@) =~= spec_item_borrowed(*item));
            r
        },
    }
}

/// The parameters of the functions of the items taken as `&String`, `&Vec<T>` or
/// `&Box<T>`, each with the type to take instead.
pub fn rvs_collect_borrowed_params_from_items(items: &Vec<Item>) -> (r: Vec<BorrowedParamInfo>)
    ensures
        spec_borrowed_rows(r@) == spec_items_borrowed(items@),
    decreases items,
{
    let mut r: Vec<BorrowedParamInfo> = Vec::new();
    let mut i: usize = 0;
    assert(spec_borrowed_rows(r@) =~= spec_items_borrowed(items@.take(0)));
    while i < items.len()
        invariant
            i <= items@.len(),
            spec_borrowed_rows(r@) == spec_items_borrowed(items@.take(i as int)),
        decreases items@.len() - i,
    {
        assert(items@.take(i + 1).drop_last() =~= items@.take(i as int));
        assert(items@.take(i + 1).last() == items@[i as int]);
        rvs_append_borrowed(&mut r, rvs_item_borrowed(&items[i]));
        i = i + 1;
    }
    assert(items@.take(items@.len() as int) =~= items@);
    r
}


// ---------------------------------------------------------- missing Debug

pub open spec fn spec_nodebug_rows(v: Seq<MissingDebugInfo>) -> Seq<(Seq<char>, usize)> {
    v.map_values(|x: MissingDebugInfo| (x.name@, x.line))
}

/// A public type that does not derive `Debug`, as a row.
pub open spec fn spec_decl_nodebug(td: TypeDecl) -> Seq<(Seq<char>, usize)> {
    if td.is_pub && !spec_has_debug_derive(td.attrs@) {
        seq![(td.ident.ident@, td.ident.line)]
    } else {
        Seq::empty()
    }
}

/// The public structs and enums of an item without `#[derive(Debug)]`,
/// inline modules entered.
pub open spec fn spec_item_nodebug(item: Item) -> Seq<(Seq<char>, usize)>
    decreases item,
{
    match item {
        Item::Struct(td) => spec_decl_nodebug(td),
        Item::Enum(td) => spec_decl_nodebug(td),
        Item::Mod(_, content) => match content {
            Some(items) => spec_items_nodebug(items@),
            None => Seq::empty(),
        },
        _ => Seq::empty(),
    }
}

pub open spec fn spec_items_nodebug(items: Seq<Item>) -> Seq<(Seq<char>, usize)>
    decreases items,
{
    if items.len() == 0 {
        Seq::empty()
    } else {
        spec_items_nodebug(items.drop_last()) + spec_item_nodebug(items.last())
    }
}

fn rvs_decl_nodebug(td: &TypeDecl) -> (r: Vec<MissingDebugInfo>)
    ensures
        spec_nodebug_rows(r@) == spec_decl_nodebug(*td),
{
    let mut r: Vec<MissingDebugInfo> = Vec::new();
    if td.is_pub && !rvs_has_debug_derive(&td.attrs) {
        r.push(MissingDebugInfo { name: td.ident.ident.clone(), line: td.ident.line });
    }
    assert(spec_nodebug_rows(r@) =~= spec_decl_nodebug(*td));
    r
}

fn rvs_item_nodebug(item: &Item) -> (r: Vec<MissingDebugInfo>)
    ensures
        spec_nodebug_rows(r@) == spec_item_nodebug(*item),
    decreases item,
{
    match item {
        Item::Struct(td) => rvs_decl_nodebug(td),
        Item::Enum(td) => rvs_decl_nodebug(td),
        Item::Mod(_, content) => match content {
            Some(items) => rvs_collect_missing_debug_from_items(items),
            None => {
                let r: Vec<MissingDebugInfo> = Vec::new();
                assert(spec_nodebug_rows(r@) =~= Seq::<(Seq<char>, usize)>::empty());
                r
            },
        },
        _ => {
            let r: Vec<MissingDebugInfo> = Vec::new();
            assert(spec_nodebug_rows(r@) =~= spec_item_nodebug(*item));
            r
        },
    }
}

/// The public structs and enums of the items that do not derive `Debug`.
pub fn rvs_collect_missing_debug_from_items(items: &Vec<Item>) -> (r: Vec<MissingDebugInfo>)
    ensures
        spec_nodebug_rows(r@) == spec_items_nodebug(items@),
    decreases items,
{
    let mut r: Vec<MissingDebugInfo> = Vec::new();
    let mut i: usize = 0;
    assert(spec_nodebug_rows(r@) =~= spec_items_nodebug(items@.take(0)));
    while i < items.len()
        invariant
            i <= items@.len(),
            spec_nodebug_rows(r@) == spec_items_nodebug(items@.take(i as int)),
        decreases items@.len() - i,
    {
        assert(items@.take(i + 1).drop_last() =~= items@.take(i as int));
        assert(items@.take(i + 1).last() == items@[i as int]);
        let mut sub = rvs_item_nodebug(&items[i]);
        let ghost a = r@;
        let ghost b = sub@;
        r.append(&mut sub);
        assert(spec_nodebug_rows(r@) =~= spec_nodebug_rows(a) + spec_nodebug_rows(b));
        i = i + 1;
    }
    assert(items@.take(items@.len() as int) =~= items@);
    r
}

// ---------------------------------------------------------------- imports

/// The full paths a `use` tree imports: `a::b`, `a as b`, `*`, groups
/// flattened in order.
pub open spec fn spec_use_paths(t: UseTree) -> Seq<Seq<char>>
    decreases t,
{
    match t {
        UseTree::Path(prefix, sub) => spec_use_paths(*sub).map_values(|p: Seq<char>| prefix@ + "::"@ + p),
        UseTree::Name(n) => seq![n@],
        UseTree::Rename(a, b) => seq![a@ + " as "@ + b@],
        UseTree::Glob => seq!["*"@],
        UseTree::Group(ts) => spec_use_group_paths(ts@),
    }
}

pub open spec fn spec_use_group_paths(ts: Seq<UseTree>) -> Seq<Seq<char>>
    decreases ts,
{
    if ts.len() == 0 {
        Seq::empty()
    } else {
        spec_use_group_paths(ts.drop_last()) + spec_use_paths(ts.last())
    }
}

/// The full paths a `use` tree imports.
pub fn rvs_extract_use_paths(t: &UseTree) -> (r: Vec<Vec<char>>)
    ensures
        r@.map_values(|p: Vec<char>| p@) == spec_use_paths(*t),
    decreases t,
{
    let mut r: Vec<Vec<char>> = Vec::new();
    match t {
        UseTree::Path(prefix, sub) => {
            let subs = rvs_extract_use_paths(sub);
            let head = rvs_chars_of(prefix.as_str());
            let sep = rvs_chars_of("::");
            let ghost sv = subs@.map_values(|p: Vec<char>| p@);
            let mut k: usize = 0;
            while k < subs.len()
                invariant
                    k <= subs@.len(),
                    sv == subs@.map_values(|p: Vec<char>| p@),
                    head@ == prefix@,
                    sep@ == "::"@,
                    r@.len() == k,
                    forall|j: int| 0 <= j < k ==> #[trigger] r@[j]@ == prefix@ + "::"@ + sv[j],
                decreases subs@.len() - k,
            {
                let mut path = head.clone();
                rvs_push_all(&mut path, sep.as_slice());
                rvs_push_all(&mut path, subs[k].as_slice());
                r.push(path);
                k = k + 1;
            }
            assert(r@.map_values(|p: Vec<char>| p@) =~= sv.map_values(|p: Seq<char>| prefix@ + "::"@ + p));
        },
        UseTree::Name(n) => {
            r.push(rvs_chars_of(n.as_str()));
            assert(r@.map_values(|p: Vec<char>| p@) =~= spec_use_paths(*t));
        },
        UseTree::Rename(a, b) => {
            let mut path = rvs_chars_of(a.as_str());
            let mid = rvs_chars_of(" as ");
            let tail = rvs_chars_of(b.as_str());
            rvs_push_all(&mut path, mid.as_slice());
            rvs_push_all(&mut path, tail.as_slice());
            r.push(path);
            assert(r@.map_values(|p: Vec<char>| p@) =~= spec_use_paths(*t));
        },
        UseTree::Glob => {
            r.push(rvs_chars_of("*"));
            assert(r@.map_values(|p: Vec<char>| p@) =~= spec_use_paths(*t));
        },
        UseTree::Group(ts) => {
            r = rvs_use_group_paths(ts);
        },
    }
    r
}

fn rvs_use_group_paths(ts: &Vec<UseTree>) -> (r: Vec<Vec<char>>)
    ensures
        r@.map_values(|p: Vec<char>| p@) == spec_use_group_paths(ts@),
    decreases ts,
{
    let mut r: Vec<Vec<char>> = Vec::new();
    let mut i: usize = 0;
    assert(r@.map_values(|p: Vec<char>| p@) =~= spec_use_group_paths(ts@.take(0)));
    while i < ts.len()
        invariant
            i <= ts@.len(),
            r@.map_values(|p: Vec<char>| p@) == spec_use_group_paths(ts@.take(i as int)),
        decreases ts@.len() - i,
    {
        assert(ts@.take(i + 1).drop_last() =~= ts@.take(i as int));
        assert(ts@.take(i + 1).last() == ts@[i as int]);
        let mut sub = rvs_extract_use_paths(&ts[i]);
        let ghost a = r@;
        let ghost b = sub@;
        r.append(&mut sub);
        assert(r@.map_values(|p: Vec<char>| p@) =~= a.map_values(|p: Vec<char>| p@) + b.map_values(|p: Vec<char>| p@));
        i = i + 1;
    }
    assert(ts@.take(ts@.len() as int) =~= ts@);
    r
}

pub open spec fn spec_import_rows(v: Seq<ImportInfo>) -> Seq<(Seq<char>, usize)> {
    v.map_values(|x: ImportInfo| (x.use_path@, x.line))
}

/// The imports of an item, each path on the line of its `use`, inline
/// modules entered.
pub open spec fn spec_item_imports(item: Item) -> Seq<(Seq<char>, usize)>
    decreases item,
{
    match item {
        Item::Use(line, t) => spec_use_paths(t).map_values(|p: Seq<char>| (p, line)),
        Item::Mod(_, content) => match content {
            Some(items) => spec_items_imports(items@),
            None => Seq::empty(),
        },
        _ => Seq::empty(),
    }
}

pub open spec fn spec_items_imports(items: Seq<Item>) -> Seq<(Seq<char>, usize)>
    decreases items,
{
    if items.len() == 0 {
        Seq::empty()
    } else {
        spec_items_imports(items.drop_last()) + spec_item_imports(items.last())
    }
}

fn rvs_item_imports(item: &Item) -> (r: Vec<ImportInfo>)
    ensures
        spec_import_rows(r@) == spec_item_imports(*item),
    decreases item,
{
    let mut r: Vec<ImportInfo> = Vec::new();
    match item {
        Item::Use(line, t) => {
            let paths = rvs_extract_use_paths(t);
            let ghost pv = paths@.map_values(|p: Vec<char>| p@);
            let mut k: usize = 0;
            while k < paths.len()
                invariant
                    k <= paths@.len(),
                    pv == paths@.map_values(|p: Vec<char>| p@),
                    r@.len() == k,
                    forall|j: int| 0 <= j < k ==> #[trigger] r@[j].use_path@ == pv[j] && r@[j].line == *line,
                decreases paths@.len() - k,
            {
                r.push(ImportInfo { use_path: rvs_string_of(paths[k].as_slice()), line: *line });
                k = k + 1;
            }
            assert(spec_import_rows(r@) =~= pv.map_values(|p: Seq<char>| (p, *line)));
        },
        Item::Mod(_, content) => match content {
            Some(items) => {
                r = rvs_collect_imports_from_items(items);
            },
            None => {
                assert(spec_import_rows(r@) =~= spec_item_imports(*item));
            },
        },
        _ => {
            assert(spec_import_rows(r@) =~= spec_item_imports(*item));
        },
    }
    r
}

/// The `use` paths of the items, each with the line of its `use`.
pub fn rvs_collect_imports_from_items(items: &Vec<Item>) -> (r: Vec<ImportInfo>)
    ensures
        spec_import_rows(r@) == spec_items_imports(items@),
    decreases items,
{
    let mut r: Vec<ImportInfo> = Vec::new();
    let mut i: usize = 0;
    assert(spec_import_rows(r@) =~= spec_items_imports(items@.take(0)));
    while i < items.len()
        invariant
            i <= items@.len(),
            spec_import_rows(r@) == spec_items_imports(items@.take(i as int)),
        decreases items@.len() - i,
    {
        assert(items@.take(i + 1).drop_last() =~= items@.take(i as int));
        assert(items@.take(i + 1).last() == items@[i as int]);
        let mut sub = rvs_item_imports(&items[i]);
        let ghost a = r@;
        let ghost b = sub@;
        r.append(&mut sub);
        assert(spec_import_rows(r@) =~= spec_import_rows(a) + spec_import_rows(b));
        i = i + 1;
    }
    assert(items@.take(items@.len() as int) =~= items@);
    r
}

// ------------------------------------------------------------ type names

/// A type's name: the last segment of a path type, or nothing.
pub open spec fn spec_type_name(ty: TypeExpr) -> Seq<char> {
    match ty {
        TypeExpr::Path(segs) => if segs@.len() == 0 {
            Seq::empty()
        } else {
            segs@.last().ident@
        },
        _ => Seq::empty(),
    }
}

/// The name of the first angle-bracketed argument when it is a type.
pub open spec fn spec_type_name_from_args(args: Option<Vec<GenericArg>>) -> Seq<char> {
    match args {
        Some(v) => if v@.len() > 0 {
            match v@[0] {
                GenericArg::Type(t) => spec_type_name(t),
                GenericArg::Other => Seq::empty(),
            }
        } else {
            Seq::empty()
        },
        None => Seq::empty(),
    }
}

/// A type's name: the last segment of a path type, or nothing.
pub fn rvs_type_name(ty: &TypeExpr) -> (r: Vec<char>)
    ensures
        r@ == spec_type_name(*ty),
{
    match ty {
        TypeExpr::Path(segs) => {
            let n = segs.len();
            if n == 0 {
                Vec::new()
            } else {
                rvs_chars_of(segs[n - 1].ident.as_str())
            }
        },
        _ => Vec::new(),
    }
}

/// The name of the first angle-bracketed argument when it is a type.
pub fn rvs_type_name_from_path(args: &Option<Vec<GenericArg>>) -> (r: Vec<char>)
    ensures
        r@ == spec_type_name_from_args(*args),
{
    match args {
        Some(v) => {
            if v.len() > 0 {
                match &v[0] {
                    GenericArg::Type(t) => rvs_type_name(t),
                    GenericArg::Other => Vec::new(),
                }
            } else {
                Vec::new()
            }
        },
        None => Vec::new(),
    }
}

/// The last segment of an implemented trait's path, if it is `name`.
pub open spec fn spec_trait_seg(im: ImplBlock, name: Seq<char>) -> Option<TypeSegment> {
    match im.trait_path {
        Some(tp) => if tp@.len() > 0 && tp@.last().ident@ == name {
            Some(tp@.last())
        } else {
            None
        },
        None => None,
    }
}

// ---------------------------------------------------------- `impl Into`

pub open spec fn spec_into_rows(v: Seq<IntoImplInfo>) -> Seq<(Seq<char>, Seq<char>, usize)> {
    v.map_values(|x: IntoImplInfo| (x.impl_type@, x.target_type@, x.line))
}

/// The `impl Into<T> for X` blocks among the items (modules not entered),
/// as rows of implementing type, target type and the line of `Into`.
pub open spec fn spec_items_into(items: Seq<Item>) -> Seq<(Seq<char>, Seq<char>, usize)>
    decreases items.len(),
{
    if items.len() == 0 {
        Seq::empty()
    } else {
        spec_items_into(items.drop_last()) + match items.last() {
            Item::Impl(im) => match spec_trait_seg(im, "Into"@) {
                Some(seg) => seq![(spec_type_name(im.self_ty), spec_type_name_from_args(seg.angle_args), seg.line)],
                None => Seq::empty(),
            },
            _ => Seq::empty(),
        }
    }
}

/// The last segment of the trait an `impl` block implements, if it is
/// `name`.
fn rvs_trait_seg<'a>(im: &'a ImplBlock, name: &str) -> (r: Option<&'a TypeSegment>)
    ensures
        match r {
            Some(seg) => spec_trait_seg(*im, name@) == Some(*seg),
            None => spec_trait_seg(*im, name@) is None,
        },
{
    match &im.trait_path {
        Some(tp) => {
            let n = tp.len();
            if n == 0 {
                return None;
            }
            let last = rvs_chars_of(tp[n - 1].ident.as_str());
            if rvs_spells(last.as_slice(), name) {
                Some(&tp[n - 1])
            } else {
                None
            }
        },
        None => None,
    }
}

/// The `impl Into<T> for X` blocks among the items.
pub fn rvs_collect_into_impls_from_items(items: &Vec<Item>) -> (r: Vec<IntoImplInfo>)
    ensures
        spec_into_rows(r@) == spec_items_into(items@),
{
    let mut r: Vec<IntoImplInfo> = Vec::new();
    let mut i: usize = 0;
    assert(spec_into_rows(r@) =~= spec_items_into(items@.take(0)));
    while i < items.len()
        invariant
            i <= items@.len(),
            spec_into_rows(r@) == spec_items_into(items@.take(i as int)),
        decreases items@.len() - i,
    {
        assert(items@.take(i + 1).drop_last() =~= items@.take(i as int));
        assert(items@.take(i + 1).last() == items@[i as int]);
        let ghost before = r@;
        match &items[i] {
            Item::Impl(im) => match rvs_trait_seg(im, "Into") {
                Some(seg) => {
                    let impl_type = rvs_type_name(&im.self_ty);
                    let target = rvs_type_name_from_path(&seg.angle_args);
                    r.push(IntoImplInfo {
                        impl_type: rvs_string_of(impl_type.as_slice()),
                        target_type: rvs_string_of(target.as_slice()),
                        line: seg.line,
                    });
                },
                None => {},
            },
            _ => {},
        }
        assert(spec_into_rows(r@) =~= spec_items_into(items@.take(i + 1)));
        i = i + 1;
    }
    assert(items@.take(items@.len() as int) =~= items@);
    r
}

// --------------------------------------------------------- `impl Deref`

pub open spec fn spec_deref_rows(v: Seq<DerefPolymorphismInfo>) -> Seq<(Seq<char>, Seq<char>, usize)> {
    v.map_values(|x: DerefPolymorphismInfo| (x.impl_type@, x.target_type@, x.line))
}

/// The type named by the first associated constant or type called
/// `Target`.
pub open spec fn spec_deref_target(ms: Seq<ImplMember>) -> Option<Seq<char>>
    decreases ms.len(),
{
    if ms.len() == 0 {
        None
    } else {
        match ms[0] {
            ImplMember::Const(n, ty) => if n@ == "Target"@ {
                Some(spec_type_name(ty))
            } else {
                spec_deref_target(ms.drop_first())
            },
            ImplMember::Type(n, ty) => if n@ == "Target"@ {
                Some(spec_type_name(ty))
            } else {
                spec_deref_target(ms.drop_first())
            },
            _ => spec_deref_target(ms.drop_first()),
        }
    }
}

/// The `impl Deref for X` blocks among the items (modules not entered)
/// that name a `Target`, as rows of implementing type, target and the line
/// of `Deref`.
pub open spec fn spec_items_deref(items: Seq<Item>) -> Seq<(Seq<char>, Seq<char>, usize)>
    decreases items.len(),
{
    if items.len() == 0 {
        Seq::empty()
    } else {
        spec_items_deref(items.drop_last()) + match items.last() {
            Item::Impl(im) => match spec_trait_seg(im, "Deref"@) {
                Some(seg) => match spec_deref_target(im.members@) {
                    Some(target) => seq![(spec_type_name(im.self_ty), target, seg.line)],
                    None => Seq::empty(),
                },
                None => Seq::empty(),
            },
            _ => Seq::empty(),
        }
    }
}

fn rvs_deref_target(ms: &Vec<ImplMember>) -> (r: Option<Vec<char>>)
    ensures
        match r {
            Some(t) => spec_deref_target(ms@) == Some(t@),
            None => spec_deref_target(ms@) is None,
        },
{
    let mut i: usize = 0;
    assert(ms@.subrange(0, ms@.len() as int) =~= ms@);
    while i < ms.len()
        invariant
            i <= ms@.len(),
            spec_deref_target(ms@) == spec_deref_target(ms@.subrange(i as int, ms@.len() as int)),
        decreases ms@.len() - i,
    {
        let ghost rest = ms@.subrange(i as int, ms@.len() as int);
        assert(rest[0] == ms@[i as int]);
        assert(rest.drop_first() =~= ms@.subrange(i + 1, ms@.len() as int));
        match &ms[i] {
            ImplMember::Const(n, ty) => {
                let name = rvs_chars_of(n.as_str());
                if rvs_spells(name.as_slice(), "Target") {
                    return Some(rvs_type_name(ty));
                }
            },
            ImplMember::Type(n, ty) => {
                let name = rvs_chars_of(n.as_str());
                if rvs_spells(name.as_slice(), "Target") {
                    return Some(rvs_type_name(ty));
                }
            },
            _ => {},
        }
        i = i + 1;
    }
    assert(ms@.subrange(i as int, ms@.len() as int) =~= Seq::<ImplMember>::empty());
    None
}

/// The `impl Deref for X` blocks among the items, with their targets.
pub fn rvs_collect_deref_polymorphism_from_items(items: &Vec<Item>) -> (r: Vec<DerefPolymorphismInfo>)
    ensures
        spec_deref_rows(r@) == spec_items_deref(items@),
{
    let mut r: Vec<DerefPolymorphismInfo> = Vec::new();
    let mut i: usize = 0;
    assert(spec_deref_rows(r@) =~= spec_items_deref(items@.take(0)));
    while i < items.len()
        invariant
            i <= items@.len(),
            spec_deref_rows(r@) == spec_items_deref(items@.take(i as int)),
        decreases items@.len() - i,
    {
        assert(items@.take(i + 1).drop_last() =~= items@.take(i as int));
        assert(items@.take(i + 1).last() == items@[i as int]);
        match &items[i] {
            Item::Impl(im) => match rvs_trait_seg(im, "Deref") {
                Some(seg) => match rvs_deref_target(&im.members) {
                    Some(target) => {
                        let impl_type = rvs_type_name(&im.self_ty);
                        r.push(DerefPolymorphismInfo {
                            impl_type: rvs_string_of(impl_type.as_slice()),
                            target_type: rvs_string_of(target.as_slice()),
                            line: seg.line,
                        });
                    },
                    None => {},
                },
                None => {},
            },
            _ => {},
        }
        assert(spec_deref_rows(r@) =~= spec_items_deref(items@.take(i + 1)));
        i = i + 1;
    }
    assert(items@.take(items@.len() as int) =~= items@);
    r
}

// --------------------------------------------------- consumed arguments

/// The identifiers a type mentions: path segments and their type
/// arguments, tuple elements, referenced types.
pub open spec fn spec_type_idents(ty: TypeExpr) -> Seq<Seq<char>>
    decreases ty,
{
    match ty {
        TypeExpr::Path(segs) => spec_segs_idents(segs@),
        TypeExpr::Tuple(ts) => spec_types_idents(ts@),
        TypeExpr::Reference(_, inner) => spec_type_idents(*inner),
        TypeExpr::Other => Seq::empty(),
    }
}

pub open spec fn spec_segs_idents(segs: Seq<TypeSegment>) -> Seq<Seq<char>>
    decreases segs,
{
    if segs.len() == 0 {
        Seq::empty()
    } else {
        spec_segs_idents(segs.drop_last()) + seq![segs.last().ident@] + match segs.last().angle_args {
            Some(args) => spec_args_idents(args@),
            None => Seq::empty(),
        }
    }
}

pub open spec fn spec_args_idents(args: Seq<GenericArg>) -> Seq<Seq<char>>
    decreases args,
{
    if args.len() == 0 {
        Seq::empty()
    } else {
        spec_args_idents(args.drop_last()) + match args.last() {
            GenericArg::Type(t) => spec_type_idents(t),
            GenericArg::Other => Seq::empty(),
        }
    }
}

pub open spec fn spec_types_idents(ts: Seq<TypeExpr>) -> Seq<Seq<char>>
    decreases ts,
{
    if ts.len() == 0 {
        Seq::empty()
    } else {
        spec_types_idents(ts.drop_last()) + spec_type_idents(ts.last())
    }
}

fn rvs_append_texts(r: &mut Vec<String>, sub: Vec<String>)
    ensures
        spec_text_rows(final(r)@) == spec_text_rows(old(r)@) + spec_text_rows(sub@),
{
    let mut sub = sub;
    let ghost a = r@;
    let ghost b = sub@;
    r.append(&mut sub);
    assert(spec_text_rows(r@) =~= spec_text_rows(a) + spec_text_rows(b));
}

/// The identifiers a type mentions, in order.
pub fn rvs_collect_type_idents(ty: &TypeExpr) -> (r: Vec<String>)
    ensures
        spec_text_rows(r@) == spec_type_idents(*ty),
    decreases ty,
{
    match ty {
        TypeExpr::Path(segs) => rvs_segs_idents(segs),
        TypeExpr::Tuple(ts) => rvs_types_idents(ts),
        TypeExpr::Reference(_, inner) => rvs_collect_type_idents(inner),
        TypeExpr::Other => {
            let r: Vec<String> = Vec::new();
            assert(spec_text_rows(r@) =~= Seq::<Seq<char>>::empty());
            r
        },
    }
}

fn rvs_segs_idents(segs: &Vec<TypeSegment>) -> (r: Vec<String>)
    ensures
        spec_text_rows(r@) == spec_segs_idents(segs@),
    decreases segs,
{
    let mut r: Vec<String> = Vec::new();
    let mut i: usize = 0;
    assert(spec_text_rows(r@) =~= spec_segs_idents(segs@.take(0)));
    while i < segs.len()
        invariant
            i <= segs@.len(),
            spec_text_rows(r@) == spec_segs_idents(segs@.take(i as int)),
        decreases segs@.len() - i,
    {
        assert(segs@.take(i + 1).drop_last() =~= segs@.take(i as int));
        assert(segs@.take(i + 1).last() == segs@[i as int]);
        let seg = &segs[i];
        let ghost before = r@;
        r.push(seg.ident.clone());
        assert(spec_text_rows(r@) =~= spec_text_rows(before) + seq![seg.ident@]);
        match &seg.angle_args {
            Some(args) => rvs_append_texts(&mut r, rvs_args_idents(args)),
            None => {
                assert(spec_text_rows(r@) + Seq::<Seq<char>>::empty() =~= spec_text_rows(r@));
            },
        }
        i = i + 1;
    }
    assert(segs@.take(segs@.len() as int) =~= segs@);
    r
}

fn rvs_args_idents(args: &Vec<GenericArg>) -> (r: Vec<String>)
    ensures
        spec_text_rows(r@) == spec_args_idents(args@),
    decreases args,
{
    let mut r: Vec<String> = Vec::new();
    let mut i: usize = 0;
    assert(spec_text_rows(r@) =~= spec_args_idents(args@.take(0)));
    while i < args.len()
        invariant
            i <= args@.len(),
            spec_text_rows(r@) == spec_args_idents(args@.take(i as int)),
        decreases args@.len() - i,
    {
        assert(args@.take(i + 1).drop_last() =~= args@.take(i as int));
        assert(args@.take(i + 1).last() == args@[i as int]);
        match &args[i] {
            GenericArg::Type(t) => rvs_append_texts(&mut r, rvs_collect_type_idents(t)),
            GenericArg::Other => {
                assert(spec_text_rows(r@) + Seq::<Seq<char>>::empty() =~= spec_text_rows(r@));
            },
        }
        i = i + 1;
    }
    assert(args@.take(args@.len() as int) =~= args@);
    r
}

fn rvs_types_idents(ts: &Vec<TypeExpr>) -> (r: Vec<String>)
    ensures
        spec_text_rows(r@) == spec_types_idents(ts@),
    decreases ts,
{
    let mut r: Vec<String> = Vec::new();
    let mut i: usize = 0;
    assert(spec_text_rows(r@) =~= spec_types_idents(ts@.take(0)));
    while i < ts.len()
        invariant
            i <= ts@.len(),
            spec_text_rows(r@) == spec_types_idents(ts@.take(i as int)),
        decreases ts@.len() - i,
    {
        assert(ts@.take(i + 1).drop_last() =~= ts@.take(i as int));
        assert(ts@.take(i + 1).last() == ts@[i as int]);
        rvs_append_texts(&mut r, rvs_collect_type_idents(&ts[i]));
        i = i + 1;
    }
    assert(ts@.take(ts@.len() as int) =~= ts@);
    r
}

/// A path type's last identifier.
pub open spec fn spec_type_ident(ty: TypeExpr) -> Option<Seq<char>> {
    match ty {
        TypeExpr::Path(segs) => if segs@.len() == 0 {
            None
        } else {
            Some(segs@.last().ident@)
        },
        _ => None,
    }
}

/// The first parameter taken by value, under a plain name, whose type's
/// name the error type does not mention.
pub open spec fn spec_first_consumed(inputs: Seq<FnArg>, err_ids: Seq<Seq<char>>) -> Option<(Seq<char>, Seq<char>)>
    decreases inputs.len(),
{
    if inputs.len() == 0 {
        None
    } else {
        match inputs[0] {
            FnArg::Typed(Some(p), ty) => if !(ty is Reference) && spec_type_ident(ty) is Some
                && !err_ids.contains(spec_type_ident(ty)->0) {
                Some((p@, spec_type_ident(ty)->0))
            } else {
                spec_first_consumed(inputs.drop_first(), err_ids)
            },
            _ => spec_first_consumed(inputs.drop_first(), err_ids),
        }
    }
}

/// For a signature returning `Result<(), E>`: the first parameter it
/// consumes whose type `E` does not mention, with that type's name.
pub open spec fn spec_consumed_arg(sig: Signature) -> Option<(Seq<char>, Seq<char>)> {
    match sig.output {
        Some(TypeExpr::Path(segs)) => if segs@.len() > 0 && segs@.last().ident@ == "Result"@ {
            match segs@.last().angle_args {
                Some(args) => if args@.len() == 2 {
                    match (args@[0], args@[1]) {
                        (GenericArg::Type(TypeExpr::Tuple(elems)), GenericArg::Type(err)) => if elems@.len() == 0 {
                            spec_first_consumed(sig.inputs@, spec_type_idents(err))
                        } else {
                            None
                        },
                        _ => None,
                    }
                } else {
                    None
                },
                None => None,
            }
        } else {
            None
        },
        _ => None,
    }
}

fn rvs_first_consumed(inputs: &Vec<FnArg>, err_ids: &Vec<String>) -> (r: Option<(String, String)>)
    ensures
        match r {
            Some(p) => spec_first_consumed(inputs@, spec_text_rows(err_ids@)) == Some((p.0@, p.1@)),
            None => spec_first_consumed(inputs@, spec_text_rows(err_ids@)) is None,
        },
{
    let ghost ids = spec_text_rows(err_ids@);
    let mut i: usize = 0;
    assert(inputs@.subrange(0, inputs@.len() as int) =~= inputs@);
    while i < inputs.len()
        invariant
            i <= inputs@.len(),
            ids == spec_text_rows(err_ids@),
            spec_first_consumed(inputs@, ids) == spec_first_consumed(inputs@.subrange(i as int, inputs@.len() as int), ids),
        decreases inputs@.len() - i,
    {
        let ghost rest = inputs@.subrange(i as int, inputs@.len() as int);
        assert(rest[0] == inputs@[i as int]);
        assert(rest.drop_first() =~= inputs@.subrange(i + 1, inputs@.len() as int));
        match &inputs[i] {
            FnArg::Typed(Some(p), ty) => {
                let by_value = match ty {
                    TypeExpr::Reference(..) => false,
                    _ => true,
                };
                if by_value {
                    match ty {
                        TypeExpr::Path(segs) => {
                            let n = segs.len();
                            if n > 0 {
                                let ident = &segs[n - 1].ident;
                                let mut mentioned = false;
                                let mut k: usize = 0;
                                while k < err_ids.len()
                                    invariant
                                        k <= err_ids@.len(),
                                        ids == spec_text_rows(err_ids@),
                                        ids.len() == err_ids@.len(),
                                        mentioned == exists|j: int| 0 <= j < k && #[trigger] ids[j] == ident@,
                                    decreases err_ids@.len() - k,
                                {
                                    let a = rvs_chars_of(err_ids[k].as_str());
                                    let b = rvs_chars_of(ident.as_str());
                                    assert(ids[k as int] == err_ids@[k as int]@);
                                    if rvs_chars_eq(a.as_slice(), b.as_slice()) {
                                        mentioned = true;
                                    }
                                    k = k + 1;
                                }
                                if !mentioned {
                                    return Some((p.clone(), ident.clone()));
                                }
                            }
                        },
                        _ => {},
                    }
                }
            },
            _ => {},
        }
        i = i + 1;
    }
    None
}

/// For a signature returning `Result<(), E>`: the first parameter it
/// consumes whose type `E` does not mention, with that type's name.
fn rvs_consumed_arg_of(sig: &Signature) -> (r: Option<(String, String)>)
    ensures
        match r {
            Some(p) => spec_consumed_arg(*sig) == Some((p.0@, p.1@)),
            None => spec_consumed_arg(*sig) is None,
        },
{
    match &sig.output {
        Some(TypeExpr::Path(segs)) => {
            let n = segs.len();
            if n == 0 {
                return None;
            }
            let last = &segs[n - 1];
            let name = rvs_chars_of(last.ident.as_str());
            if !rvs_spells(name.as_slice(), "Result") {
                return None;
            }
            match &last.angle_args {
                Some(args) => {
                    if args.len() != 2 {
                        return None;
                    }
                    match (&args[0], &args[1]) {
                        (GenericArg::Type(TypeExpr::Tuple(elems)), GenericArg::Type(err)) => {
                            if elems.len() != 0 {
                                return None;
                            }
                            let err_ids = rvs_collect_type_idents(err);
                            rvs_first_consumed(&sig.inputs, &err_ids)
                        },
                        _ => None,
                    }
                },
                None => None,
            }
        },
        _ => None,
    }
}

/// The finding for a function named `name` on line `line` whose signature
/// consumes an argument its error type does not mention.
pub fn rvs_find_consumed_args(sig: &Signature, name: &str, line: usize) -> (r: Option<ConsumedArgOnErrorInfo>)
    requires
        line > 0,
    ensures
        match r {
            Some(x) => spec_consumed_arg(*sig) == Some((x.param@, x.param_type@)) && x.function@ == name@
                && x.line == line,
            None => spec_consumed_arg(*sig) is None,
        },
{
    match rvs_consumed_arg_of(sig) {
        Some(p) => Some(ConsumedArgOnErrorInfo { function: name.to_owned(), param: p.0, param_type: p.1, line }),
        None => None,
    }
}

pub type ConsumedRow = (Seq<char>, Seq<char>, Seq<char>, usize);

pub open spec fn spec_consumed_rows(v: Seq<ConsumedArgOnErrorInfo>) -> Seq<ConsumedRow> {
    v.map_values(|x: ConsumedArgOnErrorInfo| (x.function@, x.param@, x.param_type@, x.line))
}

/// A function's finding as a row, if it has one.
pub open spec fn spec_fn_consumed(f: FnItem) -> Seq<ConsumedRow> {
    match spec_consumed_arg(f.sig) {
        Some(p) => seq![(f.sig.ident.ident@, p.0, p.1, f.sig.ident.line)],
        None => Seq::empty(),
    }
}

pub open spec fn spec_fns_consumed(fs: Seq<FnItem>) -> Seq<ConsumedRow>
    decreases fs.len(),
{
    if fs.len() == 0 {
        Seq::empty()
    } else {
        spec_fns_consumed(fs.drop_last()) + spec_fn_consumed(fs.last())
    }
}

pub open spec fn spec_members_consumed(ms: Seq<ImplMember>) -> Seq<ConsumedRow>
    decreases ms.len(),
{
    if ms.len() == 0 {
        Seq::empty()
    } else {
        spec_members_consumed(ms.drop_last()) + match ms.last() {
            ImplMember::Fn(f) => spec_fn_consumed(f),
            _ => Seq::empty(),
        }
    }
}

/// The findings of an item: free functions, methods of inherent `impl`
/// blocks and of traits, and those of inline modules.
pub open spec fn spec_item_consumed(item: Item) -> Seq<ConsumedRow>
    decreases item,
{
    match item {
        Item::Fn(f) => spec_fn_consumed(f),
        Item::Impl(im) => if im.trait_path is Some {
            Seq::empty()
        } else {
            spec_members_consumed(im.members@)
        },
        Item::Trait(_, fs) => spec_fns_consumed(fs@),
        Item::Mod(_, content) => match content {
            Some(items) => spec_items_consumed(items@),
            None => Seq::empty(),
        },
        _ => Seq::empty(),
    }
}

pub open spec fn spec_items_consumed(items: Seq<Item>) -> Seq<ConsumedRow>
    decreases items,
{
    if items.len() == 0 {
        Seq::empty()
    } else {
        spec_items_consumed(items.drop_last()) + spec_item_consumed(items.last())
    }
}

/// The functions the check examines all stand on a line past 0.
pub open spec fn spec_item_lines_named(item: Item) -> bool
    decreases item,
{
    match item {
        Item::Fn(f) => f.sig.ident.line > 0,
        Item::Impl(im) => im.trait_path is Some || forall|i: int| 0 <= i < im.members@.len() ==> match #[trigger] im.members@[i] {
            ImplMember::Fn(f) => f.sig.ident.line > 0,
            _ => true,
        },
        Item::Trait(_, fs) => forall|i: int| 0 <= i < fs@.len() ==> #[trigger] fs@[i].sig.ident.line > 0,
        Item::Mod(_, content) => match content {
            Some(items) => spec_items_lines_named(items@),
            None => true,
        },
        _ => true,
    }
}

pub open spec fn spec_items_lines_named(items: Seq<Item>) -> bool
    decreases items,
{
    if items.len() == 0 {
        true
    } else {
        spec_items_lines_named(items.drop_last()) && spec_item_lines_named(items.last())
    }
}

fn rvs_members_named(ms: &Vec<ImplMember>) -> (r: bool)
    ensures
        r == forall|i: int| 0 <= i < ms@.len() ==> match #[trigger] ms@[i] {
            ImplMember::Fn(f) => f.sig.ident.line > 0,
            _ => true,
        },
{
    let mut i: usize = 0;
    while i < ms.len()
        invariant
            i <= ms@.len(),
            forall|j: int| 0 <= j < i ==> match #[trigger] ms@[j] {
                ImplMember::Fn(f) => f.sig.ident.line > 0,
                _ => true,
            },
        decreases ms@.len() - i,
    {
        match &ms[i] {
            ImplMember::Fn(f) => {
                if f.sig.ident.line == 0 {
                    return false;
                }
            },
            _ => {},
        }
        i = i + 1;
    }
    true
}

fn rvs_fns_named(fs: &Vec<FnItem>) -> (r: bool)
    ensures
        r == forall|i: int| 0 <= i < fs@.len() ==> #[trigger] fs@[i].sig.ident.line > 0,
{
    let mut i: usize = 0;
    while i < fs.len()
        invariant
            i <= fs@.len(),
            forall|j: int| 0 <= j < i ==> #[trigger] fs@[j].sig.ident.line > 0,
        decreases fs@.len() - i,
    {
        if fs[i].sig.ident.line == 0 {
            return false;
        }
        i = i + 1;
    }
    true
}

fn rvs_item_lines_named(item: &Item) -> (r: bool)
    ensures
        r == spec_item_lines_named(*item),
    decreases item,
{
    match item {
        Item::Fn(f) => f.sig.ident.line > 0,
        Item::Impl(im) => im.trait_path.is_some() || rvs_members_named(&im.members),
        Item::Trait(_, fs) => rvs_fns_named(fs),
        Item::Mod(_, content) => match content {
            Some(items) => rvs_items_lines_named(items),
            None => true,
        },
        _ => true,
    }
}

/// Whether every function the consumed-argument check examines stands on a
/// line past 0.
pub fn rvs_items_lines_named(items: &Vec<Item>) -> (r: bool)
    ensures
        r == spec_items_lines_named(items@),
    decreases items,
{
    let mut i: usize = 0;
    while i < items.len()
        invariant
            i <= items@.len(),
            spec_items_lines_named(items@.subrange(0, i as int)),
        decreases items@.len() - i,
    {
        assert(items@.subrange(0, i + 1).drop_last() =~= items@.subrange(0, i as int));
        if !rvs_item_lines_named(&items[i]) {
            proof {
                if spec_items_lines_named(items@) {
                    lemma_items_lines_named_prefix(items@, i as int + 1);
                }
            }
            return false;
        }
        i = i + 1;
    }
    assert(items@.subrange(0, items@.len() as int) =~= items@);
    true
}

proof fn lemma_items_lines_named_prefix(items: Seq<Item>, n: int)
    requires
        0 <= n <= items.len(),
        spec_items_lines_named(items),
    ensures
        spec_items_lines_named(items.subrange(0, n)),
    decreases items.len(),
{
    if n < items.len() {
        assert(items.drop_last() =~= items.subrange(0, items.len() - 1));
        lemma_items_lines_named_prefix(items.drop_last(), n);
        assert(items.drop_last().subrange(0, n) =~= items.subrange(0, n));
    } else {
        assert(items.subrange(0, n) =~= items);
    }
}

fn rvs_append_consumed(r: &mut Vec<ConsumedArgOnErrorInfo>, sub: Vec<ConsumedArgOnErrorInfo>)
    ensures
        spec_consumed_rows(final(r)@) == spec_consumed_rows(old(r)@) + spec_consumed_rows(sub@),
{
    let mut sub = sub;
    let ghost a = r@;
    let ghost b = sub@;
    r.append(&mut sub);
    assert(spec_consumed_rows(r@) =~= spec_consumed_rows(a) + spec_consumed_rows(b));
}

fn rvs_fn_consumed(f: &FnItem) -> (r: Vec<ConsumedArgOnErrorInfo>)
    requires
        f.sig.ident.line > 0,
    ensures
        spec_consumed_rows(r@) == spec_fn_consumed(*f),
{
    let mut r: Vec<ConsumedArgOnErrorInfo> = Vec::new();
    match rvs_find_consumed_args(&f.sig, f.sig.ident.ident.as_str(), f.sig.ident.line) {
        Some(x) => r.push(x),
        None => {},
    }
    assert(spec_consumed_rows(r@) =~= spec_fn_consumed(*f));
    r
}

fn rvs_item_consumed(item: &Item) -> (r: Vec<ConsumedArgOnErrorInfo>)
    requires
        spec_item_lines_named(*item),
    ensures
        spec_consumed_rows(r@) == spec_item_consumed(*item),
    decreases item,
{
    let mut r: Vec<ConsumedArgOnErrorInfo> = Vec::new();
    match item {
        Item::Fn(f) => {
            r = rvs_fn_consumed(f);
        },
        Item::Impl(im) => match &im.trait_path {
            Some(_) => {
                assert(spec_consumed_rows(r@) =~= spec_item_consumed(*item));
            },
            None => {
                let ms = &im.members;
                let mut i: usize = 0;
                assert(spec_consumed_rows(r@) =~= spec_members_consumed(ms@.take(0)));
                while i < ms.len()
                    invariant
                        i <= ms@.len(),
                        forall|j: int| 0 <= j < ms@.len() ==> match #[trigger] ms@[j] {
                            ImplMember::Fn(f) => f.sig.ident.line > 0,
                            _ => true,
                        },
                        spec_consumed_rows(r@) == spec_members_consumed(ms@.take(i as int)),
                    decreases ms@.len() - i,
                {
                    assert(ms@.take(i + 1).drop_last() =~= ms@.take(i as int));
                    assert(ms@.take(i + 1).last() == ms@[i as int]);
                    match &ms[i] {
                        ImplMember::Fn(f) => rvs_append_consumed(&mut r, rvs_fn_consumed(f)),
                        _ => {
                            assert(spec_consumed_rows(r@) + Seq::<ConsumedRow>::empty() =~= spec_consumed_rows(r@));
                        },
                    }
                    i = i + 1;
                }
                assert(ms@.take(ms@.len() as int) =~= ms@);
            },
        },
        Item::Trait(_, fs) => {
            let mut i: usize = 0;
            assert(spec_consumed_rows(r@) =~= spec_fns_consumed(fs@.take(0)));
            while i < fs.len()
                invariant
                    i <= fs@.len(),
                    forall|j: int| 0 <= j < fs@.len() ==> #[trigger] fs@[j].sig.ident.line > 0,
                    spec_consumed_rows(r@) == spec_fns_consumed(fs@.take(i as int)),
                decreases fs@.len() - i,
            {
                assert(fs@.take(i + 1).drop_last() =~= fs@.take(i as int));
                assert(fs@.take(i + 1).last() == fs@[i as int]);
                rvs_append_consumed(&mut r, rvs_fn_consumed(&fs[i]));
                i = i + 1;
            }
            assert(fs@.take(fs@.len() as int) =~= fs@);
        },
        Item::Mod(_, content) => match content {
            Some(items) => {
                r = rvs_collect_consumed_arg_on_error_from_items(items);
            },
            None => {
                assert(spec_consumed_rows(r@) =~= spec_item_consumed(*item));
            },
        },
        _ => {
            assert(spec_consumed_rows(r@) =~= spec_item_consumed(*item));
        },
    }
    r
}

/// The functions of the items that return `Result<(), E>` and consume an
/// argument `E` does not hand back.
pub fn rvs_collect_consumed_arg_on_error_from_items(items: &Vec<Item>) -> (r: Vec<ConsumedArgOnErrorInfo>)
    requires
        spec_items_lines_named(items@),
    ensures
        spec_consumed_rows(r@) == spec_items_consumed(items@),
    decreases items,
{
    let mut r: Vec<ConsumedArgOnErrorInfo> = Vec::new();
    let mut i: usize = 0;
    assert(spec_consumed_rows(r@) =~= spec_items_consumed(items@.take(0)));
    while i < items.len()
        invariant
            i <= items@.len(),
            spec_items_lines_named(items@),
            spec_consumed_rows(r@) == spec_items_consumed(items@.take(i as int)),
        decreases items@.len() - i,
    {
        assert(items@.take(i + 1).drop_last() =~= items@.take(i as int));
        assert(items@.take(i + 1).last() == items@[i as int]);
        proof { lemma_items_lines_named_at(items@, i as int); }
        rvs_append_consumed(&mut r, rvs_item_consumed(&items[i]));
        i = i + 1;
    }
    assert(items@.take(items@.len() as int) =~= items@);
    r
}

proof fn lemma_items_lines_named_at(items: Seq<Item>, i: int)
    requires
        spec_items_lines_named(items),
        0 <= i < items.len(),
    ensures
        spec_item_lines_named(items[i]),
    decreases items.len(),
{
    if i < items.len() - 1 {
        assert(items.drop_last()[i] == items[i]);
        lemma_items_lines_named_at(items.drop_last(), i);
    }
}

// -------------------------------------------------------- deny(warnings)

/// The pieces of `s` between commas, as `str::split(',')` yields them.
pub open spec fn spec_comma_pieces(s: Seq<char>) -> Seq<Seq<char>>
    decreases s.len(),
{
    match spec_first_index_of(s, ',') {
        Some(k) => if 0 <= k < s.len() {
            seq![s.subrange(0, k)] + spec_comma_pieces(s.subrange(k + 1, s.len() as int))
        } else {
            seq![s]
        },
        None => seq![s],
    }
}

/// Whether some comma-separated piece of `s`, trimmed, is `warnings`.
pub open spec fn spec_lists_warnings(s: Seq<char>) -> bool {
    exists|i: int| 0 <= i < spec_comma_pieces(s).len() && spec_trim(#[trigger] spec_comma_pieces(s)[i]) == "warnings"@
}

/// The line of the first `#[deny(...)]` that lists `warnings`.
pub open spec fn spec_find_deny_warnings(attrs: Seq<Attribute>) -> Option<usize>
    decreases attrs.len(),
{
    if attrs.len() == 0 {
        None
    } else if spec_attr_named(attrs[0], "deny"@) && match attrs[0].list_tokens {
        Some(t) => spec_lists_warnings(t@),
        None => false,
    } {
        Some(attrs[0].line)
    } else {
        spec_find_deny_warnings(attrs.drop_first())
    }
}

/// Whether some comma-separated piece of `s`, trimmed, is `warnings`.
fn rvs_lists_warnings(s: &[char]) -> (r: bool)
    ensures
        r == spec_lists_warnings(s@),
{
    let word = rvs_chars_of("warnings");
    let mut from: usize = 0;
    let ghost mut seen: Seq<Seq<char>> = Seq::empty();
    assert(s@.subrange(0, s@.len() as int) =~= s@);
    loop
        invariant
            from <= s@.len(),
            word@ == "warnings"@,
            spec_comma_pieces(s@) == seen + spec_comma_pieces(s@.subrange(from as int, s@.len() as int)),
            forall|j: int| 0 <= j < seen.len() ==> spec_trim(#[trigger] seen[j]) != "warnings"@,
        decreases s@.len() - from,
    {
        let ghost rest = s@.subrange(from as int, s@.len() as int);
        proof {
            lemma_first_index_of(rest, ',');
        }
        match rvs_find_char_from(s, from, ',') {
            Some(k) => {
                proof {
                    assert(spec_first_index_of(rest, ',') is Some);
                    let kk = spec_first_index_of(rest, ',')->0;
                    assert(0 <= kk < rest.len());
                    assert(s@.len() == s.len());
                    assert(from + kk < s@.len());
                    assert(k == from + kk);
                }
                let piece = rvs_slice_chars(s, from, k);
                let trimmed = rvs_trim(piece.as_slice());
                assert(piece@ =~= rest.subrange(0, (k - from) as int));
                assert(rest.subrange((k - from) + 1, rest.len() as int) =~= s@.subrange(k + 1, s@.len() as int));
                if rvs_chars_eq(trimmed.as_slice(), word.as_slice()) {
                    assert(spec_comma_pieces(s@)[seen.len() as int] == piece@);
                    return true;
                }
                proof {
                    seen = seen.push(piece@);
                    assert(spec_comma_pieces(s@) =~= seen + spec_comma_pieces(s@.subrange(k + 1, s@.len() as int)));
                }
                from = k + 1;
            },
            None => {
                let piece = rvs_slice_chars(s, from, s.len());
                let trimmed = rvs_trim(piece.as_slice());
                assert(piece@ =~= rest);
                let found = rvs_chars_eq(trimmed.as_slice(), word.as_slice());
                proof {
                    assert(spec_comma_pieces(s@) =~= seen.push(rest));
                    if !found {
                        assert forall|j: int| 0 <= j < spec_comma_pieces(s@).len() implies spec_trim(#[trigger] spec_comma_pieces(s@)[j]) != "warnings"@ by {
                            if j < seen.len() {
                                assert(spec_comma_pieces(s@)[j] == seen[j]);
                            }
                        }
                    } else {
                        assert(spec_comma_pieces(s@)[seen.len() as int] == rest);
                    }
                }
                return found;
            },
        }
    }
}

/// The line of the first `#![deny(...)]` listing `warnings`.
pub fn rvs_find_deny_warnings(attrs: &Vec<Attribute>) -> (r: Option<usize>)
    ensures
        r == spec_find_deny_warnings(attrs@),
{
    let mut i: usize = 0;
    assert(attrs@.subrange(0, attrs@.len() as int) =~= attrs@);
    while i < attrs.len()
        invariant
            i <= attrs@.len(),
            spec_find_deny_warnings(attrs@) == spec_find_deny_warnings(attrs@.subrange(i as int, attrs@.len() as int)),
        decreases attrs@.len() - i,
    {
        let ghost rest = attrs@.subrange(i as int, attrs@.len() as int);
        assert(rest[0] == attrs@[i as int]);
        assert(rest.drop_first() =~= attrs@.subrange(i + 1, attrs@.len() as int));
        let a = &attrs[i];
        if rvs_attr_named(a, "deny") {
            match &a.list_tokens {
                Some(t) => {
                    let text = rvs_chars_of(t.as_str());
                    if rvs_lists_warnings(text.as_slice()) {
                        return Some(a.line);
                    }
                },
                None => {},
            }
        }
        i = i + 1;
    }
    assert(attrs@.subrange(i as int, attrs@.len() as int) =~= Seq::<Attribute>::empty());
    None
}

// ------------------------------------------------------ calls from tests

/// The calls made by the `#[test]` functions of an item, with static
/// references resolved against `decls`; a module adds the statics it
/// declares to those around it.
pub open spec fn spec_item_test_calls(item: Item, decls: Seq<DeclRow>) -> Seq<CallRow>
    decreases item,
{
    match item {
        Item::Fn(f) => if spec_is_test_fn(f.attrs@) {
            match f.body {
                Some(b) => spec_block_harvest(b.block, decls).0,
                None => Seq::empty(),
            }
        } else {
            Seq::empty()
        },
        Item::Mod(_, content) => match content {
            Some(items) => spec_items_test_calls(items@, decls + spec_items_static_decls(items@)),
            None => Seq::empty(),
        },
        _ => Seq::empty(),
    }
}

pub open spec fn spec_items_test_calls(items: Seq<Item>, decls: Seq<DeclRow>) -> Seq<CallRow>
    decreases items,
{
    if items.len() == 0 {
        Seq::empty()
    } else {
        spec_items_test_calls(items.drop_last(), decls) + spec_item_test_calls(items.last(), decls)
    }
}

fn rvs_append_calls(r: &mut Vec<CalleeInfo>, sub: Vec<CalleeInfo>)
    ensures
        spec_call_rows(final(r)@) == spec_call_rows(old(r)@) + spec_call_rows(sub@),
{
    let mut sub = sub;
    let ghost a = r@;
    let ghost b = sub@;
    r.append(&mut sub);
    assert(spec_call_rows(r@) =~= spec_call_rows(a) + spec_call_rows(b));
}

fn rvs_merge_statics(outer: &Vec<StaticDecl>, inner: Vec<StaticDecl>) -> (r: Vec<StaticDecl>)
    ensures
        spec_decl_rows(r@) == spec_decl_rows(outer@) + spec_decl_rows(inner@),
{
    let mut r: Vec<StaticDecl> = Vec::new();
    let mut i: usize = 0;
    while i < outer.len()
        invariant
            i <= outer@.len(),
            r@.len() == i,
            forall|j: int| 0 <= j < i ==> #[trigger] r@[j].name@ == outer@[j].name@ && r@[j].required_caps == outer@[j].required_caps,
        decreases outer@.len() - i,
    {
        r.push(StaticDecl { name: outer[i].name.clone(), required_caps: outer[i].required_caps });
        i = i + 1;
    }
    assert(spec_decl_rows(r@) =~= spec_decl_rows(outer@));
    let mut inner = inner;
    let ghost a = r@;
    let ghost b = inner@;
    r.append(&mut inner);
    assert(spec_decl_rows(r@) =~= spec_decl_rows(a) + spec_decl_rows(b));
    r
}

fn rvs_item_test_calls(item: &Item, statics: &Vec<StaticDecl>) -> (r: Vec<CalleeInfo>)
    ensures
        spec_call_rows(r@) == spec_item_test_calls(*item, spec_decl_rows(statics@)),
    decreases item,
{
    let mut r: Vec<CalleeInfo> = Vec::new();
    match item {
        Item::Fn(f) => {
            if rvs_is_test_fn(&f.attrs) {
                match &f.body {
                    Some(b) => {
                        let (calls, _) = rvs_collect_calls_and_statics(&b.block, statics);
                        r = calls;
                    },
                    None => {
                        assert(spec_call_rows(r@) =~= Seq::<CallRow>::empty());
                    },
                }
            } else {
                assert(spec_call_rows(r@) =~= Seq::<CallRow>::empty());
            }
        },
        Item::Mod(_, content) => match content {
            Some(items) => {
                let inner = rvs_collect_static_decls_from_items(items);
                let merged = rvs_merge_statics(statics, inner);
                r = rvs_collect_test_calls_from_items(items, &merged);
            },
            None => {
                assert(spec_call_rows(r@) =~= Seq::<CallRow>::empty());
            },
        },
        _ => {
            assert(spec_call_rows(r@) =~= spec_item_test_calls(*item, spec_decl_rows(statics@)));
        },
    }
    r
}

/// The calls made by the `#[test]` functions of the items (methods not
/// included), in source order.
pub fn rvs_collect_test_calls_from_items(items: &Vec<Item>, statics: &Vec<StaticDecl>) -> (r: Vec<CalleeInfo>)
    ensures
        spec_call_rows(r@) == spec_items_test_calls(items@, spec_decl_rows(statics@)),
    decreases items,
{
    let ghost decls = spec_decl_rows(statics@);
    let mut r: Vec<CalleeInfo> = Vec::new();
    let mut i: usize = 0;
    assert(spec_call_rows(r@) =~= spec_items_test_calls(items@.take(0), decls));
    while i < items.len()
        invariant
            i <= items@.len(),
            decls == spec_decl_rows(statics@),
            spec_call_rows(r@) == spec_items_test_calls(items@.take(i as int), decls),
        decreases items@.len() - i,
    {
        assert(items@.take(i + 1).drop_last() =~= items@.take(i as int));
        assert(items@.take(i + 1).last() == items@[i as int]);
        rvs_append_calls(&mut r, rvs_item_test_calls(&items[i], statics));
        i = i + 1;
    }
    assert(items@.take(items@.len() as int) =~= items@);
    r
}

/// The names the tests of a file call (the last segment of each callee),
/// each once, in ascending order.
pub open spec fn spec_test_call_names(file: SourceFile) -> Set<Seq<char>> {
    let calls = spec_items_test_calls(file.items@, spec_items_static_decls(file.items@));
    Set::new(|x: Seq<char>| exists|j: int| 0 <= j < calls.len() && spec_unresolved_call_name(#[trigger] calls[j].0) == x)
}

/// The names the tests of a file call, each once, in ascending order.
pub fn rvs_extract_test_call_names(file: &SourceFile) -> (r: Vec<String>)
    ensures
        spec_strictly_ascending(r@),
        spec_text_set(r@) == spec_test_call_names(*file),
{
    let statics = rvs_collect_static_decls_from_items(&file.items);
    let calls = rvs_collect_test_calls_from_items(&file.items, &statics);
    let ghost rows = spec_call_rows(calls@);
    let mut set = rvs_set_new();
    let mut i: usize = 0;
    while i < calls.len()
        invariant
            set.wf(),
            i <= calls@.len(),
            rows == spec_call_rows(calls@),
            forall|x: Seq<char>| #[trigger] set.has_key(x) == exists|j: int| 0 <= j < i && spec_unresolved_call_name(#[trigger] rows[j].0) == x,
        decreases calls@.len() - i,
    {
        let tail = rvs_unresolved_call_name(calls[i].name.as_str());
        assert(tail@ == spec_unresolved_call_name(rows[i as int].0));
        rvs_set_insert_M(&mut set, &DefPath::rvs_new(tail.as_str()));
        proof {
            assert forall|x: Seq<char>| #[trigger] set.has_key(x) == exists|j: int| 0 <= j < i + 1 && spec_unresolved_call_name(#[trigger] rows[j].0) == x by {
                if x == spec_unresolved_call_name(rows[i as int].0) {
                    assert(spec_unresolved_call_name(rows[i as int].0) == x);
                } else if exists|j: int| 0 <= j < i + 1 && spec_unresolved_call_name(#[trigger] rows[j].0) == x {
                    let j = choose|j: int| 0 <= j < i + 1 && spec_unresolved_call_name(#[trigger] rows[j].0) == x;
                    assert(j < i);
                }
            }
        }
        i = i + 1;
    }
    let mut r: Vec<String> = Vec::new();
    let mut k: usize = 0;
    while k < set.rvs_len()
        invariant
            set.wf(),
            k <= set.len_spec(),
            r@.len() == k,
            forall|j: int| 0 <= j < k ==> #[trigger] r@[j]@ == set.key(j),
        decreases set.len_spec() - k,
    {
        r.push(set.rvs_key_at(k).rvs_to_string());
        k = k + 1;
    }
    proof {
        assert forall|a: int, c: int| 0 <= a < c < r@.len() implies spec_lt(#[trigger] r@[a]@, #[trigger] r@[c]@) by {
            assert(spec_lt(set.key(a), set.key(c)));
        }
        assert forall|x: Seq<char>| #[trigger] spec_text_set(r@).contains(x) == spec_test_call_names(*file).contains(x) by {
            if spec_text_set(r@).contains(x) {
                let j = choose|j: int| 0 <= j < r@.len() && #[trigger] r@[j]@ == x;
                assert(set.key(j) == x);
                assert(set.has_key(x));
            }
            if spec_test_call_names(*file).contains(x) {
                assert(set.has_key(x));
                let m = choose|m: int| 0 <= m < set.len_spec() && #[trigger] set.key(m) == x;
                assert(r@[m]@ == x);
            }
        }
        assert(spec_text_set(r@) =~= spec_test_call_names(*file));
    }
    r
}

} // verus!
