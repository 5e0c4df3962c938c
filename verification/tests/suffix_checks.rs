use rivus::capability::CapabilitySet;
use rivus::suffix_checks::{rvs_suffix_findings, SuffixFindingKind};

fn caps(letters: &str) -> CapabilitySet {
    CapabilitySet::rvs_from_validated(letters)
}

fn kinds(raw: &str, letters: &str, flags: (bool, bool, bool, bool, bool)) -> Vec<SuffixFindingKind> {
    let chars: Vec<char> = raw.chars().collect();
    rvs_suffix_findings(&chars, caps(letters), flags.0, flags.1, flags.2, flags.3, flags.4)
        .into_iter()
        .map(|f| f.kind)
        .collect()
}

#[test]
fn test_clean_suffix_has_no_findings() {
    assert!(kinds("BI", "BI", (false, false, false, true, false)).is_empty());
    assert!(kinds("", "", (false, false, false, false, false)).is_empty());
}

#[test]
fn test_uppercase_suffix_needs_allow() {
    assert_eq!(kinds("S", "S", (false, false, false, false, false)), vec![SuffixFindingKind::MissingAllow]);
}

#[test]
fn test_dead_code_allow_is_reported() {
    assert_eq!(kinds("", "", (false, false, false, false, true)), vec![SuffixFindingKind::DeadCodeAllowed]);
}

#[test]
fn test_signature_markers_need_letters() {
    assert_eq!(
        kinds("", "", (true, true, true, false, false)),
        vec![SuffixFindingKind::MissingAsync, SuffixFindingKind::MissingUnsafe, SuffixFindingKind::MissingMutable]
    );
    assert!(kinds("AMU", "AMU", (true, true, true, true, false)).is_empty());
}

#[test]
fn test_order_duplicates_and_unknown_letters() {
    let chars: Vec<char> = "SBBXQX".chars().collect();
    let r = rvs_suffix_findings(&chars, caps("BS"), false, false, false, true, false);
    assert_eq!(r.len(), 3);
    assert_eq!(r[0].kind, SuffixFindingKind::NotAlphabetical);
    assert_eq!(r[1].kind, SuffixFindingKind::Duplicate);
    assert_eq!(r[1].letters, vec!['B']);
    assert_eq!(r[2].kind, SuffixFindingKind::UnknownLetters);
    assert_eq!(r[2].letters, vec!['X', 'Q']);
    assert_eq!(r[0].rvs_message(), "suffix not alphabetical");
    assert_eq!(r[1].rvs_message(), "duplicate 'B'");
    assert_eq!(r[2].rvs_message(), "unknown letters: X, Q");
}
