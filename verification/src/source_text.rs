//! The scans of a source text: the text is checked with `syn`, and the
//! scans read the syntax tree of the same text.
use vstd::prelude::*;

use crate::extract::{
    BorrowedParamInfo, ConsumedArgOnErrorInfo, DerefPolymorphismInfo, EmptyFnInfo, ExtractError, FnDef, ImportInfo,
    IntoImplInfo, MissingDebugInfo, MissingPanicsDocInfo, NonRvsFnInfo, PubItemInfo, StubMacroInfo, TestName,
    UnsafeFnInfo,
};
use crate::body_scan::{spec_strictly_ascending, spec_stub_rows, spec_text_set};
use crate::item_scan::{spec_allows_non_snake_case, spec_defs_match, spec_items_lines_ok, spec_items_picks, spec_items_static_decls};
use crate::source_checks::{
    spec_borrowed_rows, spec_consumed_rows, spec_deref_rows, spec_empty_rows, spec_find_deny_warnings, spec_import_rows,
    spec_into_rows, spec_items_borrowed, spec_items_consumed, spec_items_deref, spec_items_empty, spec_items_imports,
    spec_items_into, spec_items_lines_named, spec_items_nodebug, spec_items_nonrvs, spec_items_panicdoc, spec_items_pubs,
    spec_items_stubs, spec_items_tests, spec_items_unsafes, spec_nodebug_rows, spec_nonrvs_rows, spec_panicdoc_rows,
    spec_pubs_rows, spec_test_call_names, spec_test_rows, spec_unsafes_rows,
};
use crate::syntax::SourceFile;

verus! {

/// The message of the syntax error `syn::parse_file` reports for a text, if
/// any.
pub uninterp spec fn spec_syn_parse_error(source: Seq<char>) -> Option<Seq<char>>;

/// Parses the text with `syn::parse_file` and keeps only the error's
/// message (`Display` of `syn::Error`).  Trusted: the contract claims that
/// the outcome is a function of the text alone; which texts fail and with
/// what message is left to `syn`.
#[verifier::external_body]
fn rvs_syn_parse_error(source: &str) -> (r: Option<String>)
    ensures
        r matches Some(m) ==> spec_syn_parse_error(source@) == Some(m@),
        r is None ==> spec_syn_parse_error(source@) is None,
{
    syn::parse_file(source).err().map(|e| e.to_string())
}

/// Checks that the text parses as a Rust file; its syntax error otherwise.
pub fn rvs_check_source(source: &str) -> (r: Result<(), ExtractError>)
    ensures
        r is Ok <==> spec_syn_parse_error(source@) is None,
        r matches Err(ExtractError::Parse { message }) ==> spec_syn_parse_error(source@) == Some(message@),
{
    match rvs_syn_parse_error(source) {
        Some(message) => Err(ExtractError::Parse { message }),
        None => Ok(()),
    }
}

/// What `rvs_extract_functions` gives for the scanned tree of a text, or the
/// text's syntax error.
pub fn rvs_extract_functions_from_source(source: &str, file: &SourceFile) -> (r: Result<Vec<FnDef>, ExtractError>)
    requires
        spec_items_lines_ok(file.items@),
    ensures
        r is Err <==> spec_syn_parse_error(source@) is Some,
        r matches Err(ExtractError::Parse { message }) ==> spec_syn_parse_error(source@) == Some(message@),
        r matches Ok(v) ==> spec_defs_match(v@, spec_items_picks(file.items@, spec_allows_non_snake_case(file.attrs@)), spec_items_static_decls(file.items@)),
{
    match rvs_check_source(source) {
        Err(e) => Err(e),
        Ok(()) => Ok(crate::extract::rvs_extract_functions(file)),
    }
}

/// What `rvs_extract_imports` gives for the scanned tree of a text, or the
/// text's syntax error.
pub fn rvs_extract_imports_from_source(source: &str, file: &SourceFile) -> (r: Result<Vec<ImportInfo>, ExtractError>)
    ensures
        r is Err <==> spec_syn_parse_error(source@) is Some,
        r matches Err(ExtractError::Parse { message }) ==> spec_syn_parse_error(source@) == Some(message@),
        r matches Ok(v) ==> spec_import_rows(v@) == spec_items_imports(file.items@),
{
    match rvs_check_source(source) {
        Err(e) => Err(e),
        Ok(()) => Ok(crate::extract::rvs_extract_imports(file)),
    }
}

/// What `rvs_extract_tests` gives for the scanned tree of a text, or the
/// text's syntax error.
pub fn rvs_extract_tests_from_source(source: &str, file: &SourceFile) -> (r: Result<Vec<TestName>, ExtractError>)
    ensures
        r is Err <==> spec_syn_parse_error(source@) is Some,
        r matches Err(ExtractError::Parse { message }) ==> spec_syn_parse_error(source@) == Some(message@),
        r matches Ok(v) ==> spec_test_rows(v@) == spec_items_tests(file.items@),
{
    match rvs_check_source(source) {
        Err(e) => Err(e),
        Ok(()) => Ok(crate::extract::rvs_extract_tests(file)),
    }
}

/// What `rvs_extract_non_rvs_fns` gives for the scanned tree of a text, or the
/// text's syntax error.
pub fn rvs_extract_non_rvs_fns_from_source(source: &str, file: &SourceFile) -> (r: Result<Vec<NonRvsFnInfo>, ExtractError>)
    ensures
        r is Err <==> spec_syn_parse_error(source@) is Some,
        r matches Err(ExtractError::Parse { message }) ==> spec_syn_parse_error(source@) == Some(message@),
        r matches Ok(v) ==> spec_nonrvs_rows(v@) == spec_items_nonrvs(file.items@),
{
    match rvs_check_source(source) {
        Err(e) => Err(e),
        Ok(()) => Ok(crate::extract::rvs_extract_non_rvs_fns(file)),
    }
}

/// What `rvs_extract_pub_items` gives for the scanned tree of a text, or the
/// text's syntax error.
pub fn rvs_extract_pub_items_from_source(source: &str, file: &SourceFile) -> (r: Result<Vec<PubItemInfo>, ExtractError>)
    ensures
        r is Err <==> spec_syn_parse_error(source@) is Some,
        r matches Err(ExtractError::Parse { message }) ==> spec_syn_parse_error(source@) == Some(message@),
        r matches Ok(v) ==> spec_pubs_rows(v@) == spec_items_pubs(file.items@),
{
    match rvs_check_source(source) {
        Err(e) => Err(e),
        Ok(()) => Ok(crate::extract::rvs_extract_pub_items(file)),
    }
}

/// What `rvs_extract_borrowed_params` gives for the scanned tree of a text, or the
/// text's syntax error.
pub fn rvs_extract_borrowed_params_from_source(source: &str, file: &SourceFile) -> (r: Result<Vec<BorrowedParamInfo>, ExtractError>)
    ensures
        r is Err <==> spec_syn_parse_error(source@) is Some,
        r matches Err(ExtractError::Parse { message }) ==> spec_syn_parse_error(source@) == Some(message@),
        r matches Ok(v) ==> spec_borrowed_rows(v@) == spec_items_borrowed(file.items@),
{
    match rvs_check_source(source) {
        Err(e) => Err(e),
        Ok(()) => Ok(crate::extract::rvs_extract_borrowed_params(file)),
    }
}

/// What `rvs_extract_unsafe_fns` gives for the scanned tree of a text, or the
/// text's syntax error.
pub fn rvs_extract_unsafe_fns_from_source(source: &str, file: &SourceFile) -> (r: Result<Vec<UnsafeFnInfo>, ExtractError>)
    ensures
        r is Err <==> spec_syn_parse_error(source@) is Some,
        r matches Err(ExtractError::Parse { message }) ==> spec_syn_parse_error(source@) == Some(message@),
        r matches Ok(v) ==> spec_unsafes_rows(v@) == spec_items_unsafes(file.items@),
{
    match rvs_check_source(source) {
        Err(e) => Err(e),
        Ok(()) => Ok(crate::extract::rvs_extract_unsafe_fns(file)),
    }
}

/// What `rvs_extract_deny_warnings` gives for the scanned tree of a text, or the
/// text's syntax error.
pub fn rvs_extract_deny_warnings_from_source(source: &str, file: &SourceFile) -> (r: Result<Option<usize>, ExtractError>)
    ensures
        r is Err <==> spec_syn_parse_error(source@) is Some,
        r matches Err(ExtractError::Parse { message }) ==> spec_syn_parse_error(source@) == Some(message@),
        r matches Ok(v) ==> v == spec_find_deny_warnings(file.attrs@),
{
    match rvs_check_source(source) {
        Err(e) => Err(e),
        Ok(()) => Ok(crate::extract::rvs_extract_deny_warnings(file)),
    }
}

/// What `rvs_extract_missing_debug` gives for the scanned tree of a text, or the
/// text's syntax error.
pub fn rvs_extract_missing_debug_from_source(source: &str, file: &SourceFile) -> (r: Result<Vec<MissingDebugInfo>, ExtractError>)
    ensures
        r is Err <==> spec_syn_parse_error(source@) is Some,
        r matches Err(ExtractError::Parse { message }) ==> spec_syn_parse_error(source@) == Some(message@),
        r matches Ok(v) ==> spec_nodebug_rows(v@) == spec_items_nodebug(file.items@),
{
    match rvs_check_source(source) {
        Err(e) => Err(e),
        Ok(()) => Ok(crate::extract::rvs_extract_missing_debug(file)),
    }
}

/// What `rvs_extract_missing_panics_doc` gives for the scanned tree of a text, or the
/// text's syntax error.
pub fn rvs_extract_missing_panics_doc_from_source(source: &str, file: &SourceFile) -> (r: Result<Vec<MissingPanicsDocInfo>, ExtractError>)
    ensures
        r is Err <==> spec_syn_parse_error(source@) is Some,
        r matches Err(ExtractError::Parse { message }) ==> spec_syn_parse_error(source@) == Some(message@),
        r matches Ok(v) ==> spec_panicdoc_rows(v@) == spec_items_panicdoc(file.items@),
{
    match rvs_check_source(source) {
        Err(e) => Err(e),
        Ok(()) => Ok(crate::extract::rvs_extract_missing_panics_doc(file)),
    }
}

/// What `rvs_extract_into_impls` gives for the scanned tree of a text, or the
/// text's syntax error.
pub fn rvs_extract_into_impls_from_source(source: &str, file: &SourceFile) -> (r: Result<Vec<IntoImplInfo>, ExtractError>)
    ensures
        r is Err <==> spec_syn_parse_error(source@) is Some,
        r matches Err(ExtractError::Parse { message }) ==> spec_syn_parse_error(source@) == Some(message@),
        r matches Ok(v) ==> spec_into_rows(v@) == spec_items_into(file.items@),
{
    match rvs_check_source(source) {
        Err(e) => Err(e),
        Ok(()) => Ok(crate::extract::rvs_extract_into_impls(file)),
    }
}

/// What `rvs_extract_consumed_arg_on_error` gives for the scanned tree of a text, or the
/// text's syntax error.
pub fn rvs_extract_consumed_arg_on_error_from_source(source: &str, file: &SourceFile) -> (r: Result<Vec<ConsumedArgOnErrorInfo>, ExtractError>)
    requires
        spec_items_lines_named(file.items@),
    ensures
        r is Err <==> spec_syn_parse_error(source@) is Some,
        r matches Err(ExtractError::Parse { message }) ==> spec_syn_parse_error(source@) == Some(message@),
        r matches Ok(v) ==> spec_consumed_rows(v@) == spec_items_consumed(file.items@),
{
    match rvs_check_source(source) {
        Err(e) => Err(e),
        Ok(()) => Ok(crate::extract::rvs_extract_consumed_arg_on_error(file)),
    }
}

/// What `rvs_extract_deref_polymorphism` gives for the scanned tree of a text, or the
/// text's syntax error.
pub fn rvs_extract_deref_polymorphism_from_source(source: &str, file: &SourceFile) -> (r: Result<Vec<DerefPolymorphismInfo>, ExtractError>)
    ensures
        r is Err <==> spec_syn_parse_error(source@) is Some,
        r matches Err(ExtractError::Parse { message }) ==> spec_syn_parse_error(source@) == Some(message@),
        r matches Ok(v) ==> spec_deref_rows(v@) == spec_items_deref(file.items@),
{
    match rvs_check_source(source) {
        Err(e) => Err(e),
        Ok(()) => Ok(crate::extract::rvs_extract_deref_polymorphism(file)),
    }
}

/// What `rvs_extract_stub_macros` gives for the scanned tree of a text, or the
/// text's syntax error.
pub fn rvs_extract_stub_macros_from_source(source: &str, file: &SourceFile) -> (r: Result<Vec<StubMacroInfo>, ExtractError>)
    ensures
        r is Err <==> spec_syn_parse_error(source@) is Some,
        r matches Err(ExtractError::Parse { message }) ==> spec_syn_parse_error(source@) == Some(message@),
        r matches Ok(v) ==> spec_stub_rows(v@) == spec_items_stubs(file.items@),
{
    match rvs_check_source(source) {
        Err(e) => Err(e),
        Ok(()) => Ok(crate::extract::rvs_extract_stub_macros(file)),
    }
}

/// What `rvs_extract_empty_fns` gives for the scanned tree of a text, or the
/// text's syntax error.
pub fn rvs_extract_empty_fns_from_source(source: &str, file: &SourceFile) -> (r: Result<Vec<EmptyFnInfo>, ExtractError>)
    ensures
        r is Err <==> spec_syn_parse_error(source@) is Some,
        r matches Err(ExtractError::Parse { message }) ==> spec_syn_parse_error(source@) == Some(message@),
        r matches Ok(v) ==> spec_empty_rows(v@) == spec_items_empty(file.items@),
{
    match rvs_check_source(source) {
        Err(e) => Err(e),
        Ok(()) => Ok(crate::extract::rvs_extract_empty_fns(file)),
    }
}

/// What `rvs_extract_test_call_names` gives for the scanned tree of a text, or the
/// text's syntax error.
pub fn rvs_extract_test_call_names_from_source(source: &str, file: &SourceFile) -> (r: Result<Vec<String>, ExtractError>)
    ensures
        r is Err <==> spec_syn_parse_error(source@) is Some,
        r matches Err(ExtractError::Parse { message }) ==> spec_syn_parse_error(source@) == Some(message@),
        r matches Ok(v) ==> spec_strictly_ascending(v@) && spec_text_set(v@) == spec_test_call_names(*file),
{
    match rvs_check_source(source) {
        Err(e) => Err(e),
        Ok(()) => Ok(crate::source_checks::rvs_extract_test_call_names(file)),
    }
}

} // verus!
