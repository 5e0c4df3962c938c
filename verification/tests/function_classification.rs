use rivus::artifacts::{CrateProvenance, FnNode, FnSource};
use rivus::function_classification::{FunctionClassification, LocalScope};
use rivus::symbols::{CrateName, DefPath};

fn rvs_demo_scope() -> LocalScope {
    LocalScope::rvs_new(&vec![CrateName::rvs_new("demo")])
}

#[test]
fn test_20260715_local_trait_impl_for_external_type_stays_local() {
    let scope = rvs_demo_scope();
    let path = DefPath::rvs_new(
        "std::fs::File{impl#7374643a3a66733a3a46696c654064656d6f3a3a46696c65436c69656e74}::rvs_touch_P@demo::FileClient",
    );
    let mut node = FnNode::default();
    node.is_trait_impl = true;
    node.facts.is_port_method = true;
    node.sources.push(FnSource::rvs_new("/workspace/src/lib.rs", 1, 2));

    let classification = FunctionClassification::rvs_new(&scope, &path, &node);

    assert!(scope.rvs_contains(&path));
    assert!(classification.rvs_is_offline_checked());
    assert!(classification.rvs_is_report_candidate());
}

#[test]
fn test_20260716_function_classification_uses_target_entrypoint_identity() {
    let scope = rvs_demo_scope();
    let path = DefPath::rvs_new("demo::main");
    let mut node = FnNode::default();
    node.sources.push(FnSource::rvs_new("/workspace/src/lib.rs", 1, 2));
    node.is_production = true;
    node.is_entrypoint = true;
    node.crate_id = 2;
    node.crate_provenance = CrateProvenance::PrimaryPackage;

    let binary = FunctionClassification::rvs_new(&scope, &path, &node);

    assert!(!binary.rvs_is_contract_enforced());
    assert!(!binary.rvs_is_offline_checked());
}

#[test]
fn test_20260726_function_classification_uses_target_facts_and_sources() {
    let scope = rvs_demo_scope();
    let path = DefPath::rvs_new("demo::Worker::rvs_run@demo::Runner");
    let mut node = FnNode::default();
    node.is_trait_impl = true;
    node.sources.push(FnSource::rvs_new("/workspace/src/lib.rs", 1, 2));
    node.crate_id = 10;
    node.crate_provenance = CrateProvenance::PrimaryPackage;
    node.facts.is_port_method = false;

    let ordinary_impl = FunctionClassification::rvs_new(&scope, &path, &node);

    assert!(ordinary_impl.rvs_is_trait_vote_outlier_candidate());
    assert!(!ordinary_impl.rvs_is_offline_checked());
}

#[test]
fn test_20260729_per_target_classification_does_not_inherit_roles() {
    let scope = rvs_demo_scope();
    let path = DefPath::rvs_new("demo::rvs_shared");
    let mut node = FnNode::default();
    node.is_entrypoint = true;
    node.is_test = true;
    node.is_trait_impl = true;
    node.is_production = true;
    node.sources.push(FnSource::rvs_new("/workspace/src/lib.rs", 7, 17));
    node.crate_id = 10;
    node.crate_provenance = CrateProvenance::PrimaryPackage;

    let production = FunctionClassification::rvs_new(&scope, &path, &node);

    assert!(!production.rvs_is_contract_enforced());
    assert!(!production.rvs_is_offline_checked());
}

#[test]
fn test_local_scope_matches_typed_and_borrowed_paths() {
    let scope = LocalScope::rvs_new(&vec![CrateName::rvs_new("demo"), CrateName::rvs_new("cargo_rivus")]);
    let cases = [
        ("demo::rvs_run", true),
        ("cargo_rivus::rvs_check", true),
        ("dependency::rvs_run", false),
        ("demonstration::rvs_run", false),
    ];
    for (path, expected) in cases {
        let chars: Vec<char> = path.chars().collect();
        let typed = scope.rvs_contains(&DefPath::rvs_new(path));
        let borrowed = scope.rvs_contains_str(&chars);
        assert_eq!(typed, borrowed);
        assert_eq!(typed, expected);
    }
}

#[test]
fn test_classification_of_unseen_body_is_not_local() {
    let scope = rvs_demo_scope();
    let mut node = FnNode::default();
    node.complete = false;
    node.sources.push(FnSource::rvs_new("src/lib.rs", 1, 2));
    let classification = FunctionClassification::rvs_new(&scope, &DefPath::rvs_new("demo::rvs_run"), &node);
    assert!(!classification.rvs_is_contract_enforced());
    assert!(!classification.rvs_is_report_candidate());
    assert!(!classification.rvs_is_strip_candidate());
}
