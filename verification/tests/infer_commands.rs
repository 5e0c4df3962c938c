use rivus::artifacts::{FnGraph, FnNode, FunctionIdentity};
use rivus::capability::{CapabilityCompleteness, CapabilityInfo, CapabilitySet};
use rivus::capsmap::CapsMap;
use rivus::collections::PathSet;
use rivus::function_classification::LocalScope;
use rivus::infer_commands::{rvs_collect_std_unknown_callees, rvs_infer_std_with_trait_aliases, rvs_is_std_like_def_path,
    rvs_require_complete_std_collection, rvs_resolve_output_path, rvs_std_inferred_capability_info};
use rivus::pathmap::PathMap;
use rivus::symbols::{CrateName, DefPath};

fn rvs_path(path: &str) -> DefPath {
    DefPath::rvs_new(path)
}

fn rvs_has(set: &PathSet, path: &str) -> bool {
    let key: Vec<char> = path.chars().collect();
    set.rvs_contains(&key)
}

fn rvs_node_calling(paths: &[&str]) -> FnNode {
    let mut node = FnNode::default();
    for path in paths {
        node.calls.push(FunctionIdentity { crate_id: 0, def_path: rvs_path(path) });
    }
    node
}

#[test]
fn test_20260716_infer_std_renders_complete_and_incomplete_inferred_records() {
    let mut incomplete_paths = PathSet::rvs_new();
    incomplete_paths.rvs_insert_M(rvs_path("std::incomplete"), ());
    let mut infos: PathMap<CapabilityInfo> = PathMap::rvs_new();
    for (path, caps) in [("core::complete", "B"), ("std::incomplete", "IS")] {
        let def_path = rvs_path(path);
        let info = rvs_std_inferred_capability_info(&def_path, &CapabilitySet::rvs_from_validated(caps), &incomplete_paths);
        infos.rvs_insert_M(def_path, info);
    }
    let rendered = rivus::reports::rvs_format_def_path_capability_info(&infos);

    let parsed = CapsMap::rvs_parse(&rendered).unwrap();
    assert_eq!(parsed.rvs_lookup_info("core::complete").unwrap().rvs_completeness(), CapabilityCompleteness::Complete);
    assert_eq!(parsed.rvs_lookup_info("std::incomplete").unwrap().rvs_completeness(), CapabilityCompleteness::Incomplete);
}

#[test]
fn test_20260716_infer_std_trait_alias_incompleteness_reaches_callers() {
    let mut graph = FnGraph::rvs_new();
    let mut trait_node = FnNode::default();
    trait_node.has_body = false;
    graph.rvs_insert_M(rvs_path("std::Parser::rvs_parse"), trait_node);
    let mut impl_node = rvs_node_calling(&["dependency::incomplete"]);
    impl_node.is_trait_impl = true;
    graph.rvs_insert_M(rvs_path("std::Adapter::rvs_parse@std::Parser"), impl_node);
    graph.rvs_insert_M(rvs_path("std::rvs_use_parser"), rvs_node_calling(&["std::Parser::rvs_parse"]));
    let mut seed = CapsMap::rvs_new();
    seed.rvs_insert_info_M(
        rvs_path("dependency::incomplete"),
        CapabilityInfo::rvs_migrated_v1(CapabilitySet::rvs_from_validated("S"), CapabilityCompleteness::Unknown),
    );
    let impl_index = rivus::graph_index::rvs_build_impl_index(&graph);

    let (_, incomplete, _) = rvs_infer_std_with_trait_aliases(&graph, &seed, &impl_index);

    assert!(rvs_has(&incomplete, "std::rvs_use_parser"));
}

#[test]
fn test_20260716_infer_std_seed_precedes_generated_trait_alias() {
    let mut graph = FnGraph::rvs_new();
    let mut trait_node = FnNode::default();
    trait_node.has_body = false;
    graph.rvs_insert_M(rvs_path("std::Parser::rvs_parse"), trait_node);
    let mut impl_node = FnNode::default();
    impl_node.is_trait_impl = true;
    graph.rvs_insert_M(rvs_path("std::Adapter::rvs_parse@std::Parser"), impl_node);
    graph.rvs_insert_M(rvs_path("std::rvs_use_parser"), rvs_node_calling(&["std::Parser::rvs_parse"]));
    let mut seed = CapsMap::rvs_new();
    seed.rvs_insert_info_M(rvs_path("std::Parser::rvs_parse"), CapabilityInfo::rvs_explicit(CapabilitySet::rvs_from_validated("B")));
    seed.rvs_insert_info_M(
        rvs_path("std::Adapter::rvs_parse@std::Parser"),
        CapabilityInfo::rvs_migrated_v1(CapabilitySet::rvs_from_validated("S"), CapabilityCompleteness::Unknown),
    );
    let impl_index = rivus::graph_index::rvs_build_impl_index(&graph);

    let (inferred, incomplete, aliases) = rvs_infer_std_with_trait_aliases(&graph, &seed, &impl_index);
    let key: Vec<char> = "std::rvs_use_parser".chars().collect();
    let trait_key: Vec<char> = "std::Parser::rvs_parse".chars().collect();

    assert_eq!(inferred.rvs_get(&key), Some(&CapabilitySet::rvs_from_validated("B")));
    assert!(!rvs_has(&incomplete, "std::rvs_use_parser"));
    assert!(aliases.rvs_get(&trait_key).is_none());
}

#[test]
fn test_20260706_collect_std_unknown_callees_skips_local_std_crate() {
    let mut graph = FnGraph::rvs_new();
    graph.rvs_insert_M(rvs_path("std::rvs_local"), rvs_node_calling(&["dep::rvs_external_BI"]));
    let mut inferred = PathMap::rvs_new();
    inferred.rvs_insert_M(rvs_path("std::rvs_local"), CapabilitySet::rvs_new());
    let local_scope = LocalScope::rvs_new(&vec![CrateName::rvs_new("std")]);

    let unknown = rvs_collect_std_unknown_callees(&graph, &inferred, &CapsMap::rvs_new(), &local_scope);

    assert_eq!(unknown.rvs_len(), 0);
}

#[test]
fn test_20260704_collect_std_unknown_callees_reports_non_emitted_support_crate() {
    let mut graph = FnGraph::rvs_new();
    graph.rvs_insert_M(rvs_path("std::fs::read_to_string"), rvs_node_calling(&["support_crate::rvs_help_BI"]));
    graph.rvs_insert_M(rvs_path("support_crate::rvs_help_BI"), FnNode::default());
    let mut inferred = PathMap::rvs_new();
    inferred.rvs_insert_M(rvs_path("std::fs::read_to_string"), CapabilitySet::rvs_from_validated("BI"));
    inferred.rvs_insert_M(rvs_path("support_crate::rvs_help_BI"), CapabilitySet::rvs_from_validated("BI"));
    let local_scope = LocalScope::rvs_new(&Vec::new());

    let unknown = rvs_collect_std_unknown_callees(&graph, &inferred, &CapsMap::rvs_new(), &local_scope);
    let key: Vec<char> = "support_crate::rvs_help_BI".chars().collect();

    assert!(unknown.rvs_get(&key).is_some());
}

#[test]
fn test_20260704_resolve_output_path_relative_to_project() {
    assert_eq!(rvs_resolve_output_path("/workspace/project", "caps/deps"), "/workspace/project/caps/deps");
    assert_eq!(rvs_resolve_output_path("/workspace/project", "/shared/deps"), "/shared/deps");
    assert_eq!(rvs_resolve_output_path("/workspace/project/", "caps/deps"), "/workspace/project/caps/deps");
}

#[test]
fn test_std_like_paths() {
    assert!(rvs_is_std_like_def_path("std::fs::read"));
    assert!(rvs_is_std_like_def_path("core::panicking::panic"));
    assert!(rvs_is_std_like_def_path("alloc::vec::Vec::push"));
    assert!(!rvs_is_std_like_def_path("stdx::fs::read"));
    assert!(!rvs_is_std_like_def_path("support_crate::rvs_help_BI"));
}

#[test]
fn test_require_complete_std_collection_names_missing_crates() {
    let mut graph = FnGraph::rvs_new();
    graph.rvs_insert_M(rvs_path("std::fs::read"), FnNode::default());
    let scope = LocalScope::rvs_new(&Vec::new());
    assert_eq!(
        rvs_require_complete_std_collection(&graph, &scope),
        Err("infer-std collection missing non-local crate graphs: core, alloc; refusing to replace std capsmap".to_string())
    );
    graph.rvs_insert_M(rvs_path("core::mem::swap"), FnNode::default());
    graph.rvs_insert_M(rvs_path("alloc::vec::Vec::push"), FnNode::default());
    assert_eq!(rvs_require_complete_std_collection(&graph, &scope), Ok(()));

    let std_local = LocalScope::rvs_new(&vec![CrateName::rvs_new("std")]);
    assert_eq!(
        rvs_require_complete_std_collection(&graph, &std_local),
        Err("infer-std collection missing non-local crate graphs: std; refusing to replace std capsmap".to_string())
    );
}
