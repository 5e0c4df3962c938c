use rivus::item_rules::{
    rvs_banned_import_message, rvs_banned_segments, rvs_catch_all_message, rvs_flagged_variants,
    rvs_trait_impl_message, rvs_wildcard_message,
};

fn path(parts: &[&str]) -> Vec<Vec<char>> {
    parts.iter().map(|p| p.chars().collect()).collect()
}

fn chars(s: &str) -> Vec<char> {
    s.chars().collect()
}

#[test]
fn test_banned_error_crates_in_imports() {
    let r = rvs_banned_segments(&path(&["anyhow", "Result"]));
    assert_eq!(r, path(&["anyhow"]));
    let r = rvs_banned_segments(&path(&["color_eyre", "eyre", "Report"]));
    assert_eq!(r, path(&["color_eyre", "eyre"]));
    assert!(rvs_banned_segments(&path(&["std", "io", "Error"])).is_empty());
    assert_eq!(rvs_banned_import_message(&chars("anyhow")), "banned import: anyhow");
}

#[test]
fn test_wildcard_imports_except_prelude_and_super() {
    assert_eq!(rvs_wildcard_message(&path(&["std", "collections"]), true), Some("wildcard import: std::collections::*".to_string()));
    assert_eq!(rvs_wildcard_message(&path(&["vstd", "prelude"]), true), None);
    assert_eq!(rvs_wildcard_message(&path(&["super"]), true), None);
    assert_eq!(rvs_wildcard_message(&path(&["crate", "super"]), true), Some("wildcard import: crate::super::*".to_string()));
    assert_eq!(rvs_wildcard_message(&path(&["std", "collections"]), false), None);
}

#[test]
fn test_catch_all_variants_of_error_enums() {
    let variants = path(&["NotFound", "Other", "Unknown", "OtherError"]);
    assert_eq!(rvs_flagged_variants(&chars("LoadError"), false, &variants), path(&["Other", "Unknown", "OtherError"]));
    assert_eq!(rvs_flagged_variants(&chars("Outcome"), true, &variants), path(&["Other", "Unknown", "OtherError"]));
    assert!(rvs_flagged_variants(&chars("Outcome"), false, &variants).is_empty());
    assert_eq!(rvs_catch_all_message(&chars("Other"), &chars("LoadError")), "catch-all variant 'Other' in LoadError");
}

#[test]
fn test_discouraged_trait_impls() {
    assert_eq!(rvs_trait_impl_message(&chars("Into")), Some("impl Into \u{2014} implement From instead (Into is auto-provided)".to_string()));
    assert_eq!(rvs_trait_impl_message(&chars("Deref")), Some("impl Deref \u{2014} use composition instead of Deref polymorphism".to_string()));
    assert_eq!(rvs_trait_impl_message(&chars("From")), None);
}
