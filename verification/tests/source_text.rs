use rivus::extract::ExtractError;
use rivus::source_text::{rvs_check_source, rvs_extract_deny_warnings_from_source, rvs_extract_imports_from_source};
use rivus::syntax::{Attribute, PathSegment, SourceFile};

fn empty_file() -> SourceFile {
    SourceFile { attrs: Vec::new(), items: Vec::new() }
}

#[test]
fn test_valid_text_is_accepted() {
    assert!(rvs_check_source("fn main() {}\n").is_ok());
    assert!(rvs_check_source("").is_ok());
    let r = rvs_extract_imports_from_source("use std::fmt;\n", &empty_file());
    assert!(matches!(r, Ok(v) if v.is_empty()));
}

#[test]
fn test_syntax_error_carries_the_parser_message() {
    let source = "fn broken( {";
    let expected = match syn::parse_file(source) {
        Ok(_) => panic!("a broken text parsed"),
        Err(e) => e.to_string(),
    };
    match rvs_check_source(source) {
        Err(ExtractError::Parse { message }) => {
            assert_eq!(message, expected);
            assert_ne!(message, source);
        }
        Ok(()) => panic!("a broken text parsed"),
    }
    match rvs_extract_imports_from_source(source, &empty_file()) {
        Err(ExtractError::Parse { message }) => assert_eq!(message, expected),
        Ok(_) => panic!("a broken text was scanned"),
    }
}

#[test]
fn test_tree_scan_runs_on_valid_text() {
    let file = SourceFile {
        attrs: vec![Attribute {
            path: vec![PathSegment { ident: "deny".to_string(), line: 1 }],
            line: 1,
            list_tokens: Some("warnings".to_string()),
            value_text: None,
            arg_paths: None,
        }],
        items: Vec::new(),
    };
    let r = rvs_extract_deny_warnings_from_source("#![deny(warnings)]\n", &file);
    assert!(matches!(r, Ok(Some(1))));
}
