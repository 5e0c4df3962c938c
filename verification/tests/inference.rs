use rivus::analysis::{PreparedInference, PreparedLocalAnalysis, rvs_collect_local_contract_diffs_M};
use rivus::artifacts::{CrateProvenance, FnGraph, FnNode, FnSource, FunctionIdentity};
use rivus::capability::{Capability, CapabilityBasis, CapabilityCompleteness, CapabilityInfo, CapabilitySet};
use rivus::capsmap::CapsMap;
use rivus::collections::PathSet;
use rivus::contracts::{FnContractDiff, FnContractMismatchKind};
use rivus::pathmap::PathMap;
use rivus::reports::{rvs_caps_to_string, rvs_format_def_path_capability_info};
use rivus::symbols::{CrateName, DefPath};

/// A production function of the primary package with one source span.
fn rvs_make_behavior() -> FnNode {
    let mut node = FnNode::default();
    node.crate_id = 1;
    node.crate_provenance = CrateProvenance::PrimaryPackage;
    node.is_production = true;
    node.sources.push(FnSource::rvs_new("src/lib.rs", 1, 2));
    node
}

fn rvs_call(node: &mut FnNode, crate_id: u64, path: &str) {
    node.calls.push(FunctionIdentity { crate_id, def_path: DefPath::rvs_new(path) });
}

fn rvs_path(path: &str) -> DefPath {
    DefPath::rvs_new(path)
}

fn rvs_local(names: &[&str]) -> Vec<CrateName> {
    names.iter().map(|name| CrateName::rvs_new(name)).collect()
}

fn rvs_make_capsmap(entries: &[(&str, &str)]) -> CapsMap {
    let mut map = CapsMap::rvs_new();
    for (path, caps) in entries {
        map.rvs_insert_M(DefPath::rvs_new(path), CapabilitySet::rvs_from_validated(caps));
    }
    map
}

fn rvs_caps_of(map: &PathMap<CapabilitySet>, path: &str) -> Option<String> {
    let key: Vec<char> = path.chars().collect();
    map.rvs_get(&key).map(rvs_caps_to_string)
}

fn rvs_has(set: &PathSet, path: &str) -> bool {
    let key: Vec<char> = path.chars().collect();
    set.rvs_contains(&key)
}

fn rvs_get<'a, V>(map: &'a PathMap<V>, path: &str) -> Option<&'a V> {
    let key: Vec<char> = path.chars().collect();
    map.rvs_get(&key)
}

#[test]
fn test_20260720_prepare_inference_scales_on_reverse_ordered_chain() {
    let node_count: usize = 2_000;
    let mut graph = FnGraph::rvs_new();
    for index in 0..node_count {
        let mut node = rvs_make_behavior();
        if index + 1 < node_count {
            rvs_call(&mut node, 1, &format!("chain::rvs_node_{:04}", index + 1));
        } else {
            node.facts.has_static_ref = true;
        }
        graph.rvs_insert_M(rvs_path(&format!("chain::rvs_node_{index:04}")), node);
    }
    let started = std::time::Instant::now();
    let inference = PreparedInference::rvs_prepare_M(&mut graph, &CapsMap::rvs_new(), &rvs_local(&["chain"]));
    let elapsed = started.elapsed();
    let first_caps = rvs_caps_of(inference.rvs_inferred(), "chain::rvs_node_0000").unwrap_or_default();
    let last_caps = rvs_caps_of(inference.rvs_inferred(), "chain::rvs_node_1999").unwrap_or_default();

    assert_eq!(first_caps, "S");
    assert_eq!(last_caps, "S");
    assert!(inference.rvs_incomplete_paths().rvs_len() == 0);
    assert!(elapsed < std::time::Duration::from_secs(5), "reverse-ordered propagation took {elapsed:?}");
}

#[test]
fn test_20260720_incomplete_propagation_scales_on_reverse_ordered_chain() {
    let node_count: usize = 2_000;
    let mut graph = FnGraph::rvs_new();
    for index in 0..node_count {
        let mut node = rvs_make_behavior();
        if index + 1 < node_count {
            rvs_call(&mut node, 1, &format!("chain::rvs_node_{:04}", index + 1));
        } else {
            rvs_call(&mut node, 2, "opaque::missing");
        }
        graph.rvs_insert_M(rvs_path(&format!("chain::rvs_node_{index:04}")), node);
    }
    let started = std::time::Instant::now();
    let inference = PreparedInference::rvs_prepare_M(&mut graph, &CapsMap::rvs_new(), &rvs_local(&["chain"]));
    let elapsed = started.elapsed();
    let first_incomplete = rvs_has(inference.rvs_incomplete_paths(), "chain::rvs_node_0000");

    assert!(first_incomplete);
    assert_eq!(inference.rvs_incomplete_paths().rvs_len(), node_count);
    assert!(elapsed < std::time::Duration::from_secs(2), "reverse-ordered incomplete propagation took {elapsed:?}");
}

#[test]
fn test_20260711_prepare_local_analysis_builds_shared_derivatives() {
    let mut graph = FnGraph::rvs_new();
    let mut caller = rvs_make_behavior();
    rvs_call(&mut caller, 2, "dep::read");
    graph.rvs_insert_M(rvs_path("demo::rvs_run"), caller);
    let mut impl_method = rvs_make_behavior();
    impl_method.is_trait_impl = true;
    graph.rvs_insert_M(rvs_path("demo::Service::rvs_load@demo::Repository"), impl_method);
    let mut seed = CapsMap::rvs_new();
    let mut external_caps = CapabilitySet::rvs_new();
    external_caps.rvs_insert_M(Capability::B);
    external_caps.rvs_insert_M(Capability::I);
    seed.rvs_insert_M(rvs_path("dep::read"), external_caps);
    let local = rvs_local(&["demo"]);

    let analysis = PreparedLocalAnalysis::rvs_prepare_M(&mut graph, &seed, &local);
    let run_caps = rvs_caps_of(analysis.rvs_inferred(), "demo::rvs_run").unwrap_or_default();

    assert_eq!(run_caps, "BI");
    assert_eq!(analysis.diffs.len(), 1);
    assert_eq!(analysis.inference.rvs_impl_index().rvs_len(), 1);
    assert_eq!(analysis.rvs_synthetic_paths().rvs_len(), 1);
    assert!(rvs_has(analysis.rvs_synthetic_paths(), "dep::read"));
    assert_eq!(graph.rvs_len(), 2);
}

#[test]
fn test_20260715_unknown_callees_suppress_provisional_name_mismatches() {
    let mut graph = FnGraph::rvs_new();
    let mut inner = rvs_make_behavior();
    rvs_call(&mut inner, 2, "dep::unknown");
    graph.rvs_insert_M(rvs_path("demo::rvs_inner_BIS"), inner);
    let mut outer = rvs_make_behavior();
    rvs_call(&mut outer, 1, "demo::rvs_inner_BIS");
    graph.rvs_insert_M(rvs_path("demo::rvs_outer_BIS"), outer);

    let diffs = rvs_collect_local_contract_diffs_M(&mut graph, &CapsMap::rvs_new(), &rvs_local(&["demo"]));

    assert!(!diffs.is_empty());
    assert!(diffs.iter().all(|diff| !diff.rvs_has_name_mismatch()));
}

#[test]
fn test_20260715_incomplete_inference_only_preserves_propagated_declared_caps() {
    let mut graph = FnGraph::rvs_new();
    let mut behavior = rvs_make_behavior();
    rvs_call(&mut behavior, 2, "dep::unknown");
    graph.rvs_insert_M(rvs_path("demo::rvs_run_AMU"), behavior);

    let diff = rvs_collect_local_contract_diffs_M(&mut graph, &CapsMap::rvs_new(), &rvs_local(&["demo"]))
        .into_iter()
        .next()
        .expect("never: local function produces a contract diff");

    assert_eq!(diff.expected_name, "rvs_run");
    assert!(diff.rvs_has_name_mismatch());
}

#[test]
fn test_20260715_incomplete_inference_stops_at_authoritative_boundaries() {
    let mut graph = FnGraph::rvs_new();
    let mut caller = rvs_make_behavior();
    rvs_call(&mut caller, 1, "demo::ApiClient::rvs_fetch_P");
    graph.rvs_insert_M(rvs_path("demo::rvs_call_PS"), caller);

    let mut trait_decl = rvs_make_behavior();
    trait_decl.has_body = false;
    trait_decl.facts.is_port_method = true;
    graph.rvs_insert_M(rvs_path("demo::ApiClient::rvs_fetch_P"), trait_decl);

    let mut impl_method = rvs_make_behavior();
    impl_method.is_trait_impl = true;
    impl_method.facts.is_port_method = true;
    rvs_call(&mut impl_method, 2, "dep::unknown");
    graph.rvs_insert_M(rvs_path("demo::DiskClient::rvs_fetch_P@demo::ApiClient"), impl_method);

    let mut seeded = rvs_make_behavior();
    rvs_call(&mut seeded, 2, "dep::unknown");
    graph.rvs_insert_M(rvs_path("demo::rvs_seeded_BIS"), seeded);
    let seed = rvs_make_capsmap(&[("demo::rvs_seeded_BIS", "S")]);

    let diffs = rvs_collect_local_contract_diffs_M(&mut graph, &seed, &rvs_local(&["demo"]));
    let expected = |path: &str| {
        diffs.iter().find(|diff| diff.def_path.rvs_is(path)).map(|diff| diff.expected_name.clone())
    };

    assert_eq!(expected("demo::rvs_call_PS"), Some("rvs_call_P".to_string()));
    assert_eq!(expected("demo::rvs_seeded_BIS"), Some("rvs_seeded_S".to_string()));
}

#[test]
fn test_20260715_incomplete_trait_dispatch_taints_declaration() {
    let mut graph = FnGraph::rvs_new();
    let mut declaration = rvs_make_behavior();
    declaration.has_body = false;
    graph.rvs_insert_M(rvs_path("demo::Fetcher::rvs_fetch_BIS"), declaration);

    let mut implementation = rvs_make_behavior();
    implementation.is_trait_impl = true;
    rvs_call(&mut implementation, 2, "dep::unknown");
    graph.rvs_insert_M(rvs_path("demo::MemoryFetcher::rvs_fetch_BIS@demo::Fetcher"), implementation);

    let analysis = PreparedLocalAnalysis::rvs_prepare_M(&mut graph, &CapsMap::rvs_new(), &rvs_local(&["demo"]));
    let diff = analysis
        .diffs
        .iter()
        .find(|diff| diff.def_path.rvs_is("demo::Fetcher::rvs_fetch_BIS"))
        .expect("never: local trait declaration produces a contract diff");

    assert!(rvs_has(analysis.rvs_incomplete_paths(), "demo::Fetcher::rvs_fetch_BIS"));
    assert!(!diff.rvs_has_name_mismatch());
}

#[test]
fn test_20260715_bodyless_unannotated_callee_remains_unknown() {
    let mut graph = FnGraph::rvs_new();
    let mut open = rvs_make_behavior();
    open.has_body = false;
    graph.rvs_insert_M(rvs_path("dep::DavFileSystem::open"), open);
    let mut caller = rvs_make_behavior();
    rvs_call(&mut caller, 2, "dep::DavFileSystem::open");
    graph.rvs_insert_M(rvs_path("demo::rvs_open"), caller);
    let inference = PreparedInference::rvs_prepare_M(&mut graph, &CapsMap::rvs_new(), &rvs_local(&["demo"]));
    let seed = CapsMap::rvs_new();
    let resolver = inference.rvs_resolver(&graph, &seed);
    let callee = rvs_path("dep::DavFileSystem::open");

    assert!(resolver.rvs_for_propagation_target(&callee).is_none());
    assert!(resolver.rvs_for_contract_check(&callee).is_none());
    assert!(resolver.rvs_for_explanation_view(&callee).is_none());
}

#[test]
fn test_20260718_direct_external_dep_emits_incomplete_wrapper_caps() {
    let mut graph = FnGraph::rvs_new();
    let mut caller = rvs_make_behavior();
    rvs_call(&mut caller, 2, "dep::log");
    graph.rvs_insert_M(rvs_path("demo::rvs_run"), caller);

    let mut wrapper = rvs_make_behavior();
    wrapper.facts.has_static_ref = true;
    rvs_call(&mut wrapper, 2, "dep::Log::log");
    graph.rvs_insert_M(rvs_path("dep::log"), wrapper);
    let mut log = rvs_make_behavior();
    log.has_body = false;
    graph.rvs_insert_M(rvs_path("dep::Log::log"), log);

    let local = rvs_local(&["demo"]);
    let seed = CapsMap::rvs_new();
    let inference = PreparedInference::rvs_prepare_M(&mut graph, &seed, &local);
    let (known, unknown) = inference.rvs_collect_direct_external_deps(&graph, &local, &seed);
    let rendered = rvs_format_def_path_capability_info(&known);

    let info = rvs_get(&known, "dep::log").expect("never: resolvable wrapper emits its known lower bound");
    assert!(rvs_get(&unknown, "dep::log").is_none());
    assert_eq!(info.rvs_caps().rvs_letters(), "S");
    assert_eq!(info.rvs_basis(), CapabilityBasis::Inferred);
    assert_eq!(info.rvs_completeness(), CapabilityCompleteness::Incomplete);
    assert!(rendered.contains("dep::log"));
}

#[test]
fn test_20260718_direct_external_trait_dispatch_emits_incomplete_vote() {
    let mut graph = FnGraph::rvs_new();
    let mut caller = rvs_make_behavior();
    rvs_call(&mut caller, 2, "dep::Fetcher::rvs_fetch_S");
    graph.rvs_insert_M(rvs_path("demo::rvs_run_S"), caller);
    let mut dispatch = rvs_make_behavior();
    dispatch.has_body = false;
    graph.rvs_insert_M(rvs_path("dep::Fetcher::rvs_fetch_S"), dispatch);

    let mut implementation = rvs_make_behavior();
    implementation.is_trait_impl = true;
    implementation.facts.has_static_ref = true;
    rvs_call(&mut implementation, 2, "dep::unknown");
    graph.rvs_insert_M(rvs_path("dep::MemoryFetcher::rvs_fetch_S@dep::Fetcher"), implementation);

    let local = rvs_local(&["demo"]);
    let seed = CapsMap::rvs_new();
    let inference = PreparedInference::rvs_prepare_M(&mut graph, &seed, &local);
    let (known, unknown) = inference.rvs_collect_direct_external_deps(&graph, &local, &seed);

    let info = rvs_get(&known, "dep::Fetcher::rvs_fetch_S").expect("never: resolvable trait vote emits its known lower bound");
    assert!(rvs_get(&unknown, "dep::Fetcher::rvs_fetch_S").is_none());
    assert_eq!(info.rvs_caps().rvs_letters(), "S");
    assert_eq!(info.rvs_completeness(), CapabilityCompleteness::Incomplete);
    let CapabilityBasis::TraitVote { implementations, threshold, votes } = info.rvs_basis() else {
        panic!("expected trait vote basis, got {:?}", info.rvs_basis());
    };
    assert_eq!((implementations, threshold), (1, 1));
    assert_eq!(votes.rvs_count(Capability::S), 1);
    assert_eq!(votes.rvs_count(Capability::B) + votes.rvs_count(Capability::I) + votes.rvs_count(Capability::A), 0);
}

#[test]
fn test_20260728_provided_trait_body_taints_complete_override_vote() {
    let mut graph = FnGraph::rvs_new();
    let mut caller = rvs_make_behavior();
    rvs_call(&mut caller, 2, "dep::Fetcher::rvs_fetch_S");
    graph.rvs_insert_M(rvs_path("demo::rvs_run_S"), caller);

    let mut provided_method = rvs_make_behavior();
    provided_method.facts.has_static_ref = true;
    rvs_call(&mut provided_method, 2, "dep::unknown");
    graph.rvs_insert_M(rvs_path("dep::Fetcher::rvs_fetch_S"), provided_method);

    let mut implementation = rvs_make_behavior();
    implementation.is_trait_impl = true;
    graph.rvs_insert_M(rvs_path("dep::MemoryFetcher::rvs_fetch_S@dep::Fetcher"), implementation);

    let local = rvs_local(&["demo"]);
    let seed = CapsMap::rvs_new();
    let inference = PreparedInference::rvs_prepare_M(&mut graph, &seed, &local);
    let (known, unknown) = inference.rvs_collect_direct_external_deps(&graph, &local, &seed);
    let aliases = rivus::analysis::rvs_generate_trait_alias_infos(
        inference.rvs_inferred(),
        inference.rvs_impl_index(),
        &graph,
        inference.rvs_incomplete_paths(),
    );

    let info = rvs_get(&known, "dep::Fetcher::rvs_fetch_S").expect("never: resolvable provided trait vote emits its known lower bound");
    assert!(rvs_get(&unknown, "dep::Fetcher::rvs_fetch_S").is_none());
    assert_eq!(info.rvs_caps().rvs_letters(), "S");
    assert_eq!(info.rvs_completeness(), CapabilityCompleteness::Incomplete);
    assert_eq!(info.rvs_basis(), CapabilityBasis::Inferred);
    assert_eq!(rvs_get(&aliases, "dep::Fetcher::rvs_fetch_S"), Some(info));
    let vote = rvs_get(inference.rvs_trait_votes(), "dep::Fetcher::rvs_fetch_S")
        .expect("never: provided trait method has an override vote");
    assert!(vote.selected_caps.rvs_is_empty());
    assert!(vote.rvs_is_complete());
}

#[test]
fn test_20260728_bodyless_trait_alias_preserves_signature_lower_bound() {
    let mut graph = FnGraph::rvs_new();
    let mut caller = rvs_make_behavior();
    rvs_call(&mut caller, 2, "dep::Transformer::rvs_transform_AMU");
    graph.rvs_insert_M(rvs_path("demo::rvs_run_S"), caller);

    let mut required_method = rvs_make_behavior();
    required_method.has_body = false;
    required_method.facts.has_async = true;
    required_method.facts.has_mut_param = true;
    required_method.facts.is_unsafe_fn = true;
    graph.rvs_insert_M(rvs_path("dep::Transformer::rvs_transform_AMU"), required_method);

    let mut implementation = rvs_make_behavior();
    implementation.is_trait_impl = true;
    implementation.facts.has_static_ref = true;
    graph.rvs_insert_M(rvs_path("dep::MemoryTransformer::rvs_transform_AMU@dep::Transformer"), implementation);

    let local = rvs_local(&["demo"]);
    let seed = CapsMap::rvs_new();
    let inference = PreparedInference::rvs_prepare_M(&mut graph, &seed, &local);
    let (known, unknown) = inference.rvs_collect_direct_external_deps(&graph, &local, &seed);
    let aliases = rivus::analysis::rvs_generate_trait_alias_infos(
        inference.rvs_inferred(),
        inference.rvs_impl_index(),
        &graph,
        inference.rvs_incomplete_paths(),
    );

    let info = rvs_get(&known, "dep::Transformer::rvs_transform_AMU")
        .expect("never: bodyless trait method emits signature and vote lower bounds");
    assert!(rvs_get(&unknown, "dep::Transformer::rvs_transform_AMU").is_none());
    assert_eq!(info.rvs_caps().rvs_letters(), "AMSU");
    assert_eq!(info.rvs_basis(), CapabilityBasis::Inferred);
    assert_eq!(info.rvs_completeness(), CapabilityCompleteness::Complete);
    assert_eq!(rvs_get(&aliases, "dep::Transformer::rvs_transform_AMU"), Some(info));
}

#[test]
fn test_20260712_prepare_inference_builds_shared_derivatives_once() {
    let mut graph = FnGraph::rvs_new();
    let mut caller = rvs_make_behavior();
    rvs_call(&mut caller, 2, "dep::read");
    graph.rvs_insert_M(rvs_path("demo::rvs_run"), caller);
    let mut port_method = rvs_make_behavior();
    port_method.facts.is_port_method = true;
    graph.rvs_insert_M(rvs_path("demo::Service::rvs_load@demo::Repository"), port_method);
    let seed = rvs_make_capsmap(&[("dep::read", "BI")]);

    let inference = PreparedInference::rvs_prepare_M(&mut graph, &seed, &rvs_local(&["demo"]));
    let run_caps = rvs_caps_of(inference.rvs_inferred(), "demo::rvs_run").unwrap_or_default();
    let port_caps = rvs_caps_of(inference.rvs_inferred(), "demo::Service::rvs_load@demo::Repository").unwrap_or_default();

    assert_eq!(run_caps, "BI");
    assert_eq!(port_caps, "P");
    assert_eq!(inference.rvs_impl_index().rvs_len(), 1);
    assert_eq!(inference.rvs_synthetic_paths().rvs_len(), 2);
    assert!(rvs_has(inference.rvs_synthetic_paths(), "dep::read"));
    assert!(rvs_has(inference.rvs_synthetic_paths(), "demo::Repository::rvs_load"));
}

fn rvs_infer_caps_case_M(entries: &[(&str, FnNode)], seed_entries: &[(&str, &str)]) -> PathMap<CapabilitySet> {
    let mut graph = FnGraph::rvs_new();
    for (path, behavior) in entries {
        graph.rvs_insert_M(rvs_path(path), behavior.clone());
    }
    let seed = rvs_make_capsmap(seed_entries);
    rivus::analysis::rvs_infer_caps(&graph, &seed)
}

#[test]
fn test_20260609_infer_caps_empty_callgraph() {
    let graph = FnGraph::rvs_new();
    let seed = CapsMap::rvs_new();
    let result = rivus::analysis::rvs_infer_caps(&graph, &seed);
    assert_eq!(result.rvs_len(), 0);
}

#[test]
fn test_20260704_infer_caps_propagates_deep_chain_to_fixed_point() {
    let mut graph = FnGraph::rvs_new();
    for i in 0..=20 {
        let mut node = rvs_make_behavior();
        let callee = if i == 20 { "std::fs::read_to_string".to_string() } else { format!("demo::rvs_f{:02}", i + 1) };
        rvs_call(&mut node, 2, &callee);
        graph.rvs_insert_M(rvs_path(&format!("demo::rvs_f{i:02}")), node);
    }
    let seed = rvs_make_capsmap(&[("std::fs::read_to_string", "BI")]);

    let result = rivus::analysis::rvs_infer_caps(&graph, &seed);
    let top_caps = rvs_get(&result, "demo::rvs_f00").expect("top function should be inferred");

    assert!(top_caps.rvs_contains(Capability::B));
    assert!(top_caps.rvs_contains(Capability::I));
}

#[test]
fn test_20260704_infer_caps_uses_absent_rvs_callee_suffix() {
    let mut graph = FnGraph::rvs_new();
    let mut node = rvs_make_behavior();
    rvs_call(&mut node, 2, "dep::rvs_write_BI");
    graph.rvs_insert_M(rvs_path("demo::rvs_run"), node);
    let seed = CapsMap::rvs_new();

    let inferred = rivus::analysis::rvs_infer_caps(&graph, &seed);
    let impl_index = rivus::graph_index::rvs_build_impl_index(&graph);
    let (known, unknown) =
        rivus::analysis::rvs_collect_direct_external_deps(&graph, &rvs_local(&["demo"]), &seed, &inferred, &impl_index);
    let run_caps = rvs_get(&inferred, "demo::rvs_run").expect("caller should be inferred");

    assert!(run_caps.rvs_contains(Capability::B));
    assert!(run_caps.rvs_contains(Capability::I));
    assert!(rvs_get(&known, "dep::rvs_write_BI").is_some());
    assert_eq!(unknown.rvs_len(), 0);
}

#[test]
fn test_20260705_infer_caps_uses_known_caps_from_mixed_unknown_suffix() {
    let mut graph = FnGraph::rvs_new();
    let mut caller = rvs_make_behavior();
    rvs_call(&mut caller, 2, "dep::rvs_send_AEIS");
    graph.rvs_insert_M(rvs_path("demo::rvs_run"), caller);
    let inferred = rivus::analysis::rvs_infer_caps(&graph, &CapsMap::rvs_new());
    let caps = rvs_get(&inferred, "demo::rvs_run").expect("caller should be inferred");

    assert!(caps.rvs_contains(Capability::I));
    assert!(caps.rvs_contains(Capability::S));
}

#[test]
fn test_20260704_declared_caps_from_def_path_handles_trait_impl_suffix() {
    let caps = rivus::resolver::rvs_declared_caps_from_def_path(&rvs_path("demo::Adapter::rvs_fetch_BI@demo::ApiClient"))
        .expect("rvs trait impl method should declare caps");
    let none = rivus::resolver::rvs_declared_caps_from_def_path(&rvs_path("demo::fetch"));
    let unknown = rivus::resolver::rvs_declared_caps_from_def_path(&rvs_path("demo::rvs_fetch_E"));

    assert!(caps.rvs_contains(Capability::B));
    assert!(caps.rvs_contains(Capability::I));
    assert!(none.is_none());
    assert!(unknown.is_none());
}

fn rvs_caps_map(entries: &[(&str, &str)]) -> PathMap<CapabilitySet> {
    let mut map = PathMap::rvs_new();
    for (path, caps) in entries {
        map.rvs_insert_M(rvs_path(path), CapabilitySet::rvs_from_validated(caps));
    }
    map
}

#[test]
fn test_20260704_infer_caps_uses_impl_caps_for_bodyless_trait_decl() {
    let mut caller = rvs_make_behavior();
    rvs_call(&mut caller, 1, "demo::Fetcher::rvs_fetch");
    let mut declaration = rvs_make_behavior();
    declaration.has_body = false;
    let mut impl_method = rvs_make_behavior();
    rvs_call(&mut impl_method, 2, "std::fs::read_to_string");
    let inferred = rvs_infer_caps_case_M(
        &[
            ("demo::rvs_run", caller),
            ("demo::Fetcher::rvs_fetch", declaration),
            ("demo::DiskFetcher::rvs_fetch@demo::Fetcher", impl_method),
        ],
        &[("std::fs::read_to_string", "BI")],
    );
    let run_caps = rvs_get(&inferred, "demo::rvs_run").expect("caller should be inferred");
    let decl_caps = rvs_get(&inferred, "demo::Fetcher::rvs_fetch").expect("bodyless declaration should be inferred");

    assert!(run_caps.rvs_contains(Capability::B));
    assert!(run_caps.rvs_contains(Capability::I));
    assert!(decl_caps.rvs_contains(Capability::B));
    assert!(decl_caps.rvs_contains(Capability::I));
}

#[test]
fn test_20260706_local_trait_decl_suffix_loses_to_impl_vote() {
    let mut caller = rvs_make_behavior();
    rvs_call(&mut caller, 1, "demo::Fetcher::rvs_fetch_BI");
    let mut declaration = rvs_make_behavior();
    declaration.has_body = false;
    let inferred = rvs_infer_caps_case_M(
        &[
            ("demo::rvs_run", caller),
            ("demo::Fetcher::rvs_fetch_BI", declaration),
            ("demo::MemoryFetcher::rvs_fetch_BI@demo::Fetcher", rvs_make_behavior()),
        ],
        &[],
    );
    let run_caps = rvs_get(&inferred, "demo::rvs_run").expect("caller should be inferred");
    let decl_caps = rvs_get(&inferred, "demo::Fetcher::rvs_fetch_BI").expect("bodyless declaration should be inferred");

    assert!(run_caps.rvs_is_empty());
    assert!(decl_caps.rvs_is_empty());
}

#[test]
fn test_20260706_bodyless_trait_decl_keeps_signature_caps_with_impl_vote() {
    let mut caller = rvs_make_behavior();
    rvs_call(&mut caller, 1, "demo::Fetcher::rvs_fetch_A");
    let mut trait_decl = rvs_make_behavior();
    trait_decl.has_body = false;
    trait_decl.facts.has_async = true;
    let inferred = rvs_infer_caps_case_M(
        &[
            ("demo::rvs_run", caller),
            ("demo::Fetcher::rvs_fetch_A", trait_decl),
            ("demo::MemoryFetcher::rvs_fetch_A@demo::Fetcher", rvs_make_behavior()),
        ],
        &[],
    );
    let run_caps = rvs_get(&inferred, "demo::rvs_run").expect("caller should be inferred");
    let decl_caps = rvs_get(&inferred, "demo::Fetcher::rvs_fetch_A").expect("bodyless declaration should be inferred");

    assert!(run_caps.rvs_is_empty());
    assert!(decl_caps.rvs_contains(Capability::A));
}

#[test]
fn test_20260705_bodyless_port_decl_stays_port_caps() {
    let mut caller = rvs_make_behavior();
    rvs_call(&mut caller, 1, "demo::ApiClient::rvs_fetch_P");
    let mut trait_decl = rvs_make_behavior();
    trait_decl.has_body = false;
    trait_decl.facts.is_port_method = true;
    let mut impl_method = rvs_make_behavior();
    rvs_call(&mut impl_method, 2, "std::fs::read_to_string");
    let inferred = rvs_infer_caps_case_M(
        &[
            ("demo::rvs_run", caller),
            ("demo::ApiClient::rvs_fetch_P", trait_decl),
            ("demo::DiskClient::rvs_fetch_P@demo::ApiClient", impl_method),
        ],
        &[("std::fs::read_to_string", "BI")],
    );
    let run_caps = rvs_get(&inferred, "demo::rvs_run").expect("caller should be inferred");
    let decl_caps = rvs_get(&inferred, "demo::ApiClient::rvs_fetch_P").expect("trait declaration should be inferred");

    assert!(run_caps.rvs_contains(Capability::P));
    assert!(!run_caps.rvs_contains(Capability::B));
    assert!(!run_caps.rvs_contains(Capability::I));
    assert!(decl_caps.rvs_contains(Capability::P));
}

#[test]
fn test_20260705_port_method_caps_ignore_stale_capsmap() {
    let mut caller = rvs_make_behavior();
    rvs_call(&mut caller, 1, "demo::ApiClient::rvs_fetch_P");
    let mut trait_decl = rvs_make_behavior();
    trait_decl.has_body = false;
    trait_decl.facts.is_port_method = true;
    let inferred = rvs_infer_caps_case_M(
        &[("demo::rvs_run", caller), ("demo::ApiClient::rvs_fetch_P", trait_decl)],
        &[("demo::ApiClient::rvs_fetch_P", "BI")],
    );
    let run_caps = rvs_get(&inferred, "demo::rvs_run").expect("caller should be inferred");
    let decl_caps = rvs_get(&inferred, "demo::ApiClient::rvs_fetch_P").expect("trait declaration should be inferred");

    assert!(run_caps.rvs_contains(Capability::P));
    assert!(!run_caps.rvs_contains(Capability::B));
    assert!(!run_caps.rvs_contains(Capability::I));
    assert!(decl_caps.rvs_contains(Capability::P));
    assert!(!decl_caps.rvs_contains(Capability::B));
    assert!(!decl_caps.rvs_contains(Capability::I));
}

#[test]
fn test_20260704_resolve_callee_caps_prefers_impl_for_bodyless_decl() {
    let mut graph = FnGraph::rvs_new();
    let mut declaration = rvs_make_behavior();
    declaration.has_body = false;
    graph.rvs_insert_M(rvs_path("demo::Fetcher::rvs_fetch"), declaration);
    graph.rvs_insert_M(rvs_path("demo::DiskFetcher::rvs_fetch@demo::Fetcher"), rvs_make_behavior());
    let impl_index = rivus::graph_index::rvs_build_impl_index(&graph);
    let inferred = rvs_caps_map(&[("demo::Fetcher::rvs_fetch", ""), ("demo::DiskFetcher::rvs_fetch@demo::Fetcher", "BI")]);

    let seed = CapsMap::rvs_new();
    let caps = rivus::resolver::CalleeCapsResolver::rvs_new(&graph, &seed, &inferred, &impl_index)
        .rvs_for_propagation_target(&rvs_path("demo::Fetcher::rvs_fetch"))
        .expect("bodyless declaration should resolve through impl aggregation");

    assert!(caps.rvs_contains(Capability::B));
    assert!(caps.rvs_contains(Capability::I));
}

#[test]
fn test_20260704_resolve_callee_caps_uses_declared_suffix_for_bodyless_decl_without_impl() {
    let mut graph = FnGraph::rvs_new();
    let mut declaration = rvs_make_behavior();
    declaration.has_body = false;
    graph.rvs_insert_M(rvs_path("demo::Fetcher::rvs_fetch_BI"), declaration);
    let impl_index = rivus::graph_index::rvs_build_impl_index(&graph);
    let inferred = rvs_caps_map(&[("demo::Fetcher::rvs_fetch_BI", "")]);

    let seed = CapsMap::rvs_new();
    let caps = rivus::resolver::CalleeCapsResolver::rvs_new(&graph, &seed, &inferred, &impl_index)
        .rvs_for_propagation_target(&rvs_path("demo::Fetcher::rvs_fetch_BI"))
        .expect("bodyless declaration should use its declared suffix when no impls exist");

    assert!(caps.rvs_contains(Capability::B));
    assert!(caps.rvs_contains(Capability::I));
}

#[test]
fn test_20260703_infer_graph_sets_node_caps() {
    let mut graph = FnGraph::rvs_new();
    graph.rvs_insert_M(rvs_path("demo::rvs_run"), rvs_make_behavior());
    let seed = CapsMap::rvs_new();

    let analysis = PreparedLocalAnalysis::rvs_prepare_M(&mut graph, &seed, &rvs_local(&["demo"]));

    assert!(rvs_get(analysis.rvs_inferred(), "demo::rvs_run").is_some());
    assert_eq!(analysis.rvs_synthetic_paths().rvs_len(), 0);
}

#[test]
fn test_20260704_infer_graph_prunes_stale_synthetic_nodes() {
    let mut graph = FnGraph::rvs_new();
    let mut run = rvs_make_behavior();
    rvs_call(&mut run, 2, "std::fs::read_to_string");
    graph.rvs_insert_M(rvs_path("demo::rvs_run"), run);
    let seed = rvs_make_capsmap(&[("std::fs::read_to_string", "BI")]);
    let first = PreparedLocalAnalysis::rvs_prepare_M(&mut graph, &seed, &rvs_local(&["demo"]));
    assert!(rvs_has(first.rvs_synthetic_paths(), "std::fs::read_to_string"));

    let mut cleared = graph.rvs_get("demo::rvs_run").expect("demo node should exist").clone();
    cleared.calls.clear();
    graph.rvs_insert_M(rvs_path("demo::rvs_run"), cleared);
    let second = PreparedLocalAnalysis::rvs_prepare_M(&mut graph, &CapsMap::rvs_new(), &rvs_local(&["demo"]));

    let has_synthetic = rvs_has(second.rvs_synthetic_paths(), "std::fs::read_to_string");
    let run_caps = rvs_get(second.rvs_inferred(), "demo::rvs_run").expect("demo node should keep inferred caps");

    assert!(!has_synthetic);
    assert!(run_caps.rvs_is_empty());
}

#[test]
fn test_20260703_project_expected_local_names_sets_expected_name() {
    let mut graph = FnGraph::rvs_new();
    graph.rvs_insert_M(rvs_path("demo::parse"), rvs_make_behavior());
    let inferred = rvs_caps_map(&[("demo::parse", "BI")]);

    let diffs = rivus::analysis::rvs_collect_contract_diffs(&graph, &inferred, &rvs_local(&["demo"]));
    let expected_name = diffs.first().map(|diff| diff.expected_name.clone()).unwrap_or_default();

    assert_eq!(expected_name, "rvs_parse_BI");
}

#[test]
fn test_20260704_project_expected_local_names_preserves_pure_suffix_like_name() {
    let mut graph = FnGraph::rvs_new();
    graph.rvs_insert_M(rvs_path("demo::parse_BI"), rvs_make_behavior());
    let inferred = rvs_caps_map(&[("demo::parse_BI", "")]);

    let diffs = rivus::analysis::rvs_collect_contract_diffs(&graph, &inferred, &rvs_local(&["demo"]));
    let expected_name = diffs.first().map(|diff| diff.expected_name.clone()).unwrap_or_default();

    assert_eq!(expected_name, "rvs_parse_BI");
}

#[test]
fn test_20260704_contract_base_name_strips_rvs_and_suffix_like_names() {
    let cases = [
        ("rvs_parse_BI", "BI", "parse"),
        ("parse_BI", "BI", "parse"),
        ("parse_BI", "", "parse_BI"),
        ("fetch_BI", "P", "fetch"),
        ("parse_JSON", "", "parse_JSON"),
        ("parse", "", "parse"),
        ("parse_json", "", "parse_json"),
    ];
    for (input, caps, expected) in cases {
        let input_chars: Vec<char> = input.chars().collect();
        let caps_chars: Vec<char> = caps.chars().collect();
        let base: String = rivus::names::rvs_contract_base_name(&input_chars, &caps_chars).into_iter().collect();
        assert_eq!(base, expected);
    }
}

#[test]
fn test_20260704_project_expected_local_names_flags_non_lowercase_names() {
    let mut graph = FnGraph::rvs_new();
    for name in ["demo::Foo", "demo::_helper"] {
        graph.rvs_insert_M(rvs_path(name), rvs_make_behavior());
    }

    let diffs = rvs_collect_local_contract_diffs_M(&mut graph, &CapsMap::rvs_new(), &rvs_local(&["demo"]));

    assert!(diffs.iter().any(|diff| {
        diff.actual_name == "Foo" && diff.expected_name == "rvs_Foo" && diff.rvs_missing_rvs_prefix()
    }));
    assert!(diffs.iter().any(|diff| {
        diff.actual_name == "_helper" && diff.expected_name == "rvs__helper" && diff.rvs_missing_rvs_prefix()
    }));
}

#[test]
fn test_20260703_collect_local_contract_diffs_updates_existing_rvs_suffix() {
    let mut graph = FnGraph::rvs_new();
    let mut node = FnNode::default();
    node.facts.is_port_method = true;
    node.sources.push(FnSource::rvs_new("src/lib.rs", 1, 2));
    graph.rvs_insert_M(rvs_path("demo::rvs_fetch_ABI"), node);

    let diffs = rvs_collect_local_contract_diffs_M(&mut graph, &CapsMap::rvs_new(), &rvs_local(&["demo"]));
    let diff = diffs.first().expect("expected one local contract diff");

    assert_eq!(diff.expected_name, "rvs_fetch_P");
    assert!(diff.rvs_has_name_mismatch());
}

#[test]
fn test_20260706_local_trait_decl_expected_name_uses_impl_vote() {
    let mut graph = FnGraph::rvs_new();
    let mut declaration = FnNode::default();
    declaration.has_body = false;
    declaration.sources.push(FnSource::rvs_new("src/lib.rs", 1, 2));
    graph.rvs_insert_M(rvs_path("demo::Fetcher::rvs_fetch_BI"), declaration);
    let mut implementation = rvs_make_behavior();
    implementation.is_trait_impl = true;
    graph.rvs_insert_M(rvs_path("demo::MemoryFetcher::rvs_fetch_BI@demo::Fetcher"), implementation);

    let diffs = rvs_collect_local_contract_diffs_M(&mut graph, &CapsMap::rvs_new(), &rvs_local(&["demo"]));
    let diff = diffs.first().expect("expected trait declaration diff");

    assert_eq!(diffs.len(), 1);
    assert_eq!(diff.expected_name, "rvs_fetch");
    assert!(diff.expected_public_caps.rvs_is_empty());
}

#[test]
fn test_20260703_collect_contract_diffs_reports_name_and_caps_mismatch() {
    let inferred = rvs_caps_map(&[("demo::rvs_fetch_ABI", "P")]);
    let mut graph = FnGraph::rvs_new();
    graph.rvs_insert_M(rvs_path("demo::rvs_fetch_ABI"), rvs_make_behavior());
    let diffs = rivus::analysis::rvs_collect_contract_diffs(&graph, &inferred, &rvs_local(&["demo"]));
    let diff = diffs.first().expect("expected one contract diff");

    assert_eq!(diff.actual_name, "rvs_fetch_ABI");
    assert!(diff.rvs_has_name_mismatch());
    assert_eq!(diff.expected_public_caps, CapabilitySet::rvs_from_validated("P"));
    assert_eq!(diff.declared_public_caps.as_ref(), Some(&CapabilitySet::rvs_from_validated("ABI")));
}

#[test]
fn test_20260703_collect_contract_diffs_reads_trait_impl_method_name() {
    let inferred = rvs_caps_map(&[("demo::Adapter::rvs_fetch_BI@demo::Client", "P")]);
    let mut graph = FnGraph::rvs_new();
    let mut node = FnNode::default();
    node.is_trait_impl = true;
    graph.rvs_insert_M(rvs_path("demo::Adapter::rvs_fetch_BI@demo::Client"), node);
    let diffs = rivus::analysis::rvs_collect_contract_diffs(&graph, &inferred, &rvs_local(&["demo"]));

    assert!(diffs.is_empty());
}

#[test]
fn test_20260703_collect_local_contract_diffs_populates_expected_fields() {
    let mut graph = FnGraph::rvs_new();
    graph.rvs_insert_M(rvs_path("demo::parse"), rvs_make_behavior());
    let seed = CapsMap::rvs_new();

    let analysis = PreparedLocalAnalysis::rvs_prepare_M(&mut graph, &seed, &rvs_local(&["demo"]));
    let diff = analysis.diffs.first().expect("expected one local contract diff");

    assert_eq!(diff.expected_name, "rvs_parse");
    assert_eq!(rvs_get(analysis.rvs_inferred(), "demo::parse"), Some(&CapabilitySet::rvs_new()));
}

#[test]
fn test_20260703_enforced_contract_diffs_skip_synthetic_nodes() {
    let mut graph = FnGraph::rvs_new();
    let mut caller = rvs_make_behavior();
    rvs_call(&mut caller, 1, "demo::rvs_generated_BI");
    graph.rvs_insert_M(rvs_path("demo::rvs_run"), caller);
    let analysis = PreparedLocalAnalysis::rvs_prepare_M(
        &mut graph,
        &rvs_make_capsmap(&[("demo::rvs_generated_BI", "BI")]),
        &rvs_local(&["demo"]),
    );
    let has_synthetic_diff = analysis.diffs.iter().any(|diff| diff.def_path.rvs_is("demo::rvs_generated_BI"));

    assert!(rvs_has(analysis.rvs_synthetic_paths(), "demo::rvs_generated_BI"));
    assert!(graph.rvs_get("demo::rvs_generated_BI").is_none());
    assert!(!has_synthetic_diff);
}

#[test]
fn test_20260806_world_port_contract_preserves_async_signature() {
    let mut node = FnNode::default();
    node.facts.has_async = true;
    node.facts.is_port_method = true;
    node.sources.push(FnSource::rvs_new("src/lib.rs", 1, 2));
    let diff = rivus::analysis::rvs_collect_single_local_contract_diff_M(rvs_path("demo::rvs_fetch_P"), node, &rvs_local(&["demo"]));

    assert_eq!(diff.expected_public_caps, CapabilitySet::rvs_from_validated("AP"));
    assert_eq!(diff.declared_public_caps.as_ref(), Some(&CapabilitySet::rvs_from_validated("P")));
}

#[test]
fn test_20260703_collect_signature_contract_diff_from_facts() {
    let mut facts = rivus::capability::CapabilityFacts::default();
    facts.has_async = true;
    facts.is_port_method = true;
    let diff = rivus::analysis::rvs_collect_signature_contract_diff_from_facts_M(rvs_path("demo::rvs_fetch_P"), facts, &rvs_local(&["demo"]));

    assert_eq!(diff.expected_public_caps, CapabilitySet::rvs_from_validated("AP"));
    assert_eq!(diff.declared_public_caps.as_ref(), Some(&CapabilitySet::rvs_from_validated("P")));
}

fn rvs_diff(def_path: &str, actual: &str, expected: &str, declared: Option<&str>, expected_caps: &str) -> FnContractDiff {
    FnContractDiff {
        def_path: rvs_path(def_path),
        actual_name: actual.to_string(),
        expected_name: expected.to_string(),
        declared_public_caps: declared.map(CapabilitySet::rvs_from_validated),
        expected_public_caps: CapabilitySet::rvs_from_validated(expected_caps),
    }
}

#[test]
fn test_20260703_summarize_contract_mismatches() {
    let diffs = vec![
        rvs_diff("demo::parse", "parse", "rvs_parse", None, ""),
        rvs_diff("demo::rvs_fetch_BI", "rvs_fetch_BI", "rvs_fetch_P", Some("BI"), "AP"),
    ];
    let items = rivus::contracts::rvs_collect_contract_mismatch_items(&diffs);
    let counts = rivus::contracts::rvs_summarize_contract_mismatch_items(&items);
    let count_of = |kind: FnContractMismatchKind| counts.iter().find(|(k, _)| *k == kind).map(|(_, n)| *n);

    assert_eq!(count_of(FnContractMismatchKind::MissingRvsPrefix), Some(1));
    assert_eq!(count_of(FnContractMismatchKind::NameMismatch), Some(1));
    assert_eq!(count_of(FnContractMismatchKind::MissingPort), Some(1));
}

#[test]
fn test_20260703_collect_contract_mismatch_items() {
    let diffs = vec![rvs_diff("demo::rvs_fetch_BI", "rvs_fetch_BI", "rvs_fetch_P", Some("BI"), "AP")];
    let items = rivus::contracts::rvs_collect_contract_mismatch_items(&diffs);

    assert_eq!(items.len(), 3);
    assert_eq!(items[0].kind, FnContractMismatchKind::NameMismatch);
    assert_eq!(items[1].kind, FnContractMismatchKind::MissingAsync);
    assert_eq!(items[2].kind, FnContractMismatchKind::MissingPort);
}

#[test]
fn test_20260703_contract_diff_missing_rvs_prefix() {
    let diff = rvs_diff("demo::parse", "parse", "rvs_parse", None, "");
    assert!(diff.rvs_missing_rvs_prefix());
}

#[test]
fn test_20260703_contract_diff_mismatch_kinds() {
    let missing_all = rvs_diff("demo::rvs_fetch", "rvs_fetch", "rvs_fetch_ABIMPSTU", Some(""), "ABIMPSTU");
    let mut declared_all = missing_all.clone();
    declared_all.actual_name = "rvs_fetch_ABIMPSTU".to_string();
    declared_all.declared_public_caps = Some(missing_all.expected_public_caps);
    let mismatches = missing_all.rvs_mismatch_kinds();
    let no_mismatches = declared_all.rvs_mismatch_kinds();

    assert_eq!(
        mismatches,
        vec![
            FnContractMismatchKind::NameMismatch,
            FnContractMismatchKind::MissingAsync,
            FnContractMismatchKind::MissingBlocking,
            FnContractMismatchKind::MissingIo,
            FnContractMismatchKind::MissingMutable,
            FnContractMismatchKind::MissingPort,
            FnContractMismatchKind::MissingSideEffect,
            FnContractMismatchKind::MissingThreadLocal,
            FnContractMismatchKind::MissingUnsafe,
        ]
    );
    assert!(no_mismatches.is_empty());
    assert_eq!(FnContractMismatchKind::MissingAsync.rvs_as_str(), "missing_async");
}

#[test]
fn test_20260703_graph_impl_wrapper_helpers() {
    let mut graph = FnGraph::rvs_new();
    let mut impl_a = rvs_make_behavior();
    rvs_call(&mut impl_a, 2, "std::fs::read_to_string");
    graph.rvs_insert_M(rvs_path("demo::Reader::read@std::io::Read"), impl_a);
    let mut impl_b = rvs_make_behavior();
    rvs_call(&mut impl_b, 2, "std::fs::read_to_string");
    graph.rvs_insert_M(rvs_path("demo::Buffer::read@std::io::Read"), impl_b);

    let inferred = rivus::analysis::rvs_infer_caps(&graph, &rvs_make_capsmap(&[("std::fs::read_to_string", "BI")]));
    let impl_index = rivus::graph_index::rvs_build_impl_index(&graph);
    let alias = rvs_path("std::io::Read::read");
    let resolved = rivus::resolver::rvs_resolve_impl_majority_caps(&alias, &impl_index, &inferred, &graph)
        .expect("graph wrapper should resolve majority caps");
    let aliases = rivus::analysis::rvs_generate_trait_aliases(&inferred, &impl_index, &graph);

    assert!(resolved.rvs_contains(Capability::B));
    assert!(resolved.rvs_contains(Capability::I));
    assert!(rvs_get(&aliases, "std::io::Read::read").is_some());
}

#[test]
fn test_20260715_trait_alias_capsmap_preserves_incomplete_vote_knowledge() {
    let mut graph = FnGraph::rvs_new();
    for implementation in ["dep::A", "dep::B"] {
        let mut node = rvs_make_behavior();
        node.is_trait_impl = true;
        graph.rvs_insert_M(rvs_path(&format!("{implementation}::rvs_parse@dep::FromString")), node);
    }
    let inferred = rvs_caps_map(&[("dep::A::rvs_parse@dep::FromString", ""), ("dep::B::rvs_parse@dep::FromString", "S")]);
    let mut incomplete = PathSet::rvs_new();
    incomplete.rvs_insert_M(rvs_path("dep::B::rvs_parse@dep::FromString"), ());
    let infos = rivus::analysis::rvs_generate_trait_alias_infos(
        &inferred,
        &rivus::graph_index::rvs_build_impl_index(&graph),
        &graph,
        &incomplete,
    );
    let info = rvs_get(&infos, "dep::FromString::rvs_parse").expect("never: trait implementation vote produces an alias");

    assert_eq!(info.rvs_completeness(), CapabilityCompleteness::Incomplete);
}

#[test]
fn test_20260703_collect_graph_external_dep_wrappers() {
    let mut graph = FnGraph::rvs_new();
    let mut local = rvs_make_behavior();
    rvs_call(&mut local, 2, "std::fs::write");
    graph.rvs_insert_M(rvs_path("demo::rvs_run"), local);

    let seed = rvs_make_capsmap(&[("std::fs::write", "BI")]);
    let inferred = rivus::analysis::rvs_infer_caps(&graph, &seed);
    let impl_index = rivus::graph_index::rvs_build_impl_index(&graph);
    let (known, unknown) =
        rivus::analysis::rvs_collect_direct_external_deps(&graph, &rvs_local(&["demo"]), &seed, &inferred, &impl_index);

    assert_eq!(known.rvs_len(), 0);
    assert_eq!(unknown.rvs_len(), 0);
}

#[test]
fn test_20260613_seed_freeze_prevents_propagation() {
    let mut graph = FnGraph::rvs_new();
    let mut cap_overflow = rvs_make_behavior();
    rvs_call(&mut cap_overflow, 2, "core::panicking::panic");
    graph.rvs_insert_M(rvs_path("alloc::raw_vec::capacity_overflow"), cap_overflow);
    graph.rvs_insert_M(rvs_path("core::panicking::panic"), rvs_make_behavior());
    let mut handle_error = rvs_make_behavior();
    rvs_call(&mut handle_error, 2, "alloc::raw_vec::capacity_overflow");
    graph.rvs_insert_M(rvs_path("alloc::raw_vec::handle_error"), handle_error);

    let seed = rvs_make_capsmap(&[("alloc::raw_vec::capacity_overflow", ""), ("alloc::raw_vec::handle_error", "")]);
    let result = rivus::analysis::rvs_infer_caps(&graph, &seed);

    let cap_caps = rvs_get(&result, "alloc::raw_vec::capacity_overflow");
    assert!(cap_caps.is_none_or(|c| c.rvs_is_empty()), "capacity_overflow should be frozen to empty by seed, got: {cap_caps:?}");
    let handle_caps = rvs_get(&result, "alloc::raw_vec::handle_error");
    assert!(handle_caps.is_none_or(|c| c.rvs_is_empty()), "handle_error should be frozen to empty by seed, got: {handle_caps:?}");
}

#[test]
fn test_20260613_infer_caps_propagation_from_bimps_callee() {
    let mut caller_behavior = rvs_make_behavior();
    caller_behavior.facts.has_mut_param = true;
    rvs_call(&mut caller_behavior, 2, "std::sys::process::unix::unix::impl::spawn");
    let mut callee_behavior = rvs_make_behavior();
    callee_behavior.facts.has_mut_param = true;
    rvs_call(&mut callee_behavior, 2, "std::sys::pal::unix::kernel_copy::rvs_write");
    rvs_call(&mut callee_behavior, 2, "std::sys::cycle_a");
    let mut cycle_a = rvs_make_behavior();
    rvs_call(&mut cycle_a, 2, "std::sys::cycle_b");
    let mut cycle_b = rvs_make_behavior();
    rvs_call(&mut cycle_b, 2, "std::sys::cycle_a");
    let result = rvs_infer_caps_case_M(
        &[
            ("std::process::impl::spawn", caller_behavior),
            ("std::sys::process::unix::unix::impl::spawn", callee_behavior),
            ("std::sys::cycle_a", cycle_a),
            ("std::sys::cycle_b", cycle_b),
        ],
        &[("std::sys::pal::unix::kernel_copy::rvs_write", "BIS")],
    );

    let callee_caps = rvs_get(&result, "std::sys::process::unix::unix::impl::spawn").expect("callee should have entry");
    assert!(callee_caps.rvs_contains(Capability::B), "callee should have B from deep callee");
    assert!(callee_caps.rvs_contains(Capability::I), "callee should have I from deep callee");
    assert!(callee_caps.rvs_contains(Capability::M), "callee should have M from has_mut_param");
    assert!(callee_caps.rvs_contains(Capability::S), "callee should have S from deep callee");

    let caller_caps = rvs_get(&result, "std::process::impl::spawn").expect("caller should have entry");
    assert!(caller_caps.rvs_contains(Capability::B), "caller should have B propagated from callee");
    assert!(caller_caps.rvs_contains(Capability::I), "caller should have I propagated from callee");
    assert!(caller_caps.rvs_contains(Capability::M), "caller should have M from has_mut_param");
    assert!(caller_caps.rvs_contains(Capability::S), "caller should have S propagated from callee");
}

#[test]
fn test_20260613_impl_majority_vote_filters_minority_caps() {
    let mut caller = rvs_make_behavior();
    rvs_call(&mut caller, 2, "std::io::Read::read");
    let mut file_read = rvs_make_behavior();
    file_read.facts.has_mut_param = true;
    rvs_call(&mut file_read, 2, "libc::unix::read");
    let mut cursor_read = rvs_make_behavior();
    cursor_read.facts.has_mut_param = true;
    let mut slice_read = rvs_make_behavior();
    slice_read.facts.has_mut_param = true;
    let result = rvs_infer_caps_case_M(
        &[
            ("my_crate::rvs_copy", caller),
            ("std::fs::read@std::io::Read", file_read),
            ("std::io::cursor::read@std::io::Read", cursor_read),
            ("std::io::impls::read@std::io::Read", slice_read),
        ],
        &[("libc::unix::read", "BI")],
    );

    let caller_caps = rvs_get(&result, "my_crate::rvs_copy").expect("caller exists");
    assert!(!caller_caps.rvs_contains(Capability::M), "M: not propagated");
    assert!(!caller_caps.rvs_contains(Capability::B), "B: 1/3 = minority, should not propagate");
    assert!(!caller_caps.rvs_contains(Capability::I), "I: 1/3 = minority, should not propagate");
}

#[test]
fn test_20260715_trait_vote_preserves_counts_and_local_outlier() {
    let mut graph = FnGraph::rvs_new();
    let mut declaration = rvs_make_behavior();
    declaration.has_body = false;
    graph.rvs_insert_M(rvs_path("demo::FromString::rvs_parse"), declaration);
    for implementation in ["demo::Alpha", "demo::Beta"] {
        let mut node = rvs_make_behavior();
        node.is_trait_impl = true;
        graph.rvs_insert_M(rvs_path(&format!("{implementation}::rvs_parse@demo::FromString")), node);
    }
    let mut env_impl = rvs_make_behavior();
    env_impl.is_trait_impl = true;
    rvs_call(&mut env_impl, 2, "std::env::var");
    graph.rvs_insert_M(rvs_path("demo::EnvValue::rvs_parse@demo::FromString"), env_impl);
    let seed = rvs_make_capsmap(&[("std::env::var", "S")]);

    let analysis = PreparedLocalAnalysis::rvs_prepare_M(&mut graph, &seed, &rvs_local(&["demo"]));
    let vote = rvs_get(analysis.rvs_trait_votes(), "demo::FromString::rvs_parse").expect("trait vote should be retained");
    let outlier = analysis.trait_impl_outliers.first().expect("minority side effect should be reported as an outlier");

    assert!(vote.selected_caps.rvs_is_empty());
    assert_eq!(vote.implementations.len(), 3);
    assert_eq!(vote.threshold, 2);
    assert_eq!(vote.counts.rvs_count(Capability::S), 1);
    assert_eq!(analysis.trait_impl_outliers.len(), 1);
    assert_eq!(outlier.unexpected_caps.rvs_letters(), "S");
    assert!(matches!(vote.rvs_capability_info().rvs_basis(), CapabilityBasis::TraitVote { .. }));
}

#[test]
fn test_20260715_incomplete_trait_vote_suppresses_outlier_feedback() {
    let mut graph = FnGraph::rvs_new();
    let mut declaration = rvs_make_behavior();
    declaration.has_body = false;
    graph.rvs_insert_M(rvs_path("demo::Parser::rvs_parse"), declaration);
    for implementation in ["demo::Alpha", "demo::Beta"] {
        let mut node = rvs_make_behavior();
        node.is_trait_impl = true;
        graph.rvs_insert_M(rvs_path(&format!("{implementation}::rvs_parse@demo::Parser")), node);
    }
    let mut uncertain = rvs_make_behavior();
    uncertain.is_trait_impl = true;
    rvs_call(&mut uncertain, 2, "dep::uncertain");
    graph.rvs_insert_M(rvs_path("demo::Uncertain::rvs_parse@demo::Parser"), uncertain);
    let mut seed = CapsMap::rvs_new();
    seed.rvs_insert_info_M(
        rvs_path("dep::uncertain"),
        CapabilityInfo::rvs_new(CapabilitySet::rvs_from_validated("S"), CapabilityBasis::Inferred, CapabilityCompleteness::Unknown),
    );

    let analysis = PreparedLocalAnalysis::rvs_prepare_M(&mut graph, &seed, &rvs_local(&["demo"]));
    let vote = rvs_get(analysis.rvs_trait_votes(), "demo::Parser::rvs_parse").expect("trait vote should exist");

    assert!(!vote.rvs_is_complete());
    assert!(vote.selected_caps.rvs_is_empty());
    assert_eq!(vote.counts.rvs_count(Capability::S), 1);
    assert!(rvs_has(analysis.rvs_incomplete_paths(), "demo::Uncertain::rvs_parse@demo::Parser"));
    assert!(analysis.trait_impl_outliers.is_empty());
}

#[test]
fn test_20260715_trait_outlier_ignores_port_external_and_sourceless_impls() {
    let mut graph = FnGraph::rvs_new();
    let mut port_declaration = rvs_make_behavior();
    port_declaration.has_body = false;
    port_declaration.facts.is_port_method = true;
    graph.rvs_insert_M(rvs_path("demo::ConfigClient::rvs_load_P"), port_declaration);
    let mut port_impl = rvs_make_behavior();
    port_impl.is_trait_impl = true;
    port_impl.facts.is_port_method = true;
    rvs_call(&mut port_impl, 2, "dep::effect");
    graph.rvs_insert_M(rvs_path("demo::EnvClient::rvs_load_P@demo::ConfigClient"), port_impl);

    let dep_node = || {
        let mut node = rvs_make_behavior();
        node.crate_id = 2;
        node.crate_provenance = CrateProvenance::Dependency;
        node
    };
    let mut dep_declaration = dep_node();
    dep_declaration.has_body = false;
    graph.rvs_insert_M(rvs_path("dependency::Parser::rvs_parse"), dep_declaration);
    for (implementation, effectful) in [("dependency::A", false), ("dependency::B", false), ("dependency::Env", true)] {
        let mut node = dep_node();
        node.is_trait_impl = true;
        if effectful {
            rvs_call(&mut node, 2, "dep::effect");
        }
        graph.rvs_insert_M(rvs_path(&format!("{implementation}::rvs_parse@dependency::Parser")), node);
    }

    let mut local_declaration = rvs_make_behavior();
    local_declaration.has_body = false;
    graph.rvs_insert_M(rvs_path("demo::LocalParser::rvs_parse"), local_declaration);
    for implementation in ["demo::LocalA", "demo::LocalB"] {
        let mut node = rvs_make_behavior();
        node.is_trait_impl = true;
        graph.rvs_insert_M(rvs_path(&format!("{implementation}::rvs_parse@demo::LocalParser")), node);
    }
    let mut sourceless = FnNode::default();
    sourceless.is_trait_impl = true;
    rvs_call(&mut sourceless, 2, "dep::effect");
    graph.rvs_insert_M(rvs_path("demo::Generated::rvs_parse@demo::LocalParser"), sourceless);

    let analysis = PreparedLocalAnalysis::rvs_prepare_M(&mut graph, &rvs_make_capsmap(&[("dep::effect", "S")]), &rvs_local(&["demo"]));

    assert!(analysis.trait_impl_outliers.is_empty());
}

#[test]
fn test_20260614_m_not_propagated_from_direct_call() {
    let mut caller = rvs_make_behavior();
    caller.facts.has_async = true;
    rvs_call(&mut caller, 1, "my_crate::sort_inplace");
    let mut callee = rvs_make_behavior();
    callee.facts.has_mut_param = true;
    let result = rvs_infer_caps_case_M(&[("my_crate::handle", caller), ("my_crate::sort_inplace", callee)], &[]);

    let caller_caps = rvs_get(&result, "my_crate::handle").expect("caller exists");
    assert!(!caller_caps.rvs_contains(Capability::M), "M should NOT propagate — signature-only capability");
    assert!(caller_caps.rvs_contains(Capability::A), "A from has_async");
}

#[test]
fn test_20260613_impl_majority_vote_no_cross_trait() {
    let mut caller = rvs_make_behavior();
    rvs_call(&mut caller, 2, "std::io::Read::read");
    let mut file_read = rvs_make_behavior();
    rvs_call(&mut file_read, 2, "libc::unix::read");
    let mut rwlock_read = rvs_make_behavior();
    rwlock_read.facts.has_mut_param = true;
    let result = rvs_infer_caps_case_M(
        &[
            ("my_crate::rvs_read_data", caller),
            ("std::fs::read@std::io::Read", file_read),
            ("std::sync::rwlock::read@std::sync::RwLock", rwlock_read),
        ],
        &[("libc::unix::read", "BI")],
    );

    let caller_caps = rvs_get(&result, "my_crate::rvs_read_data").expect("caller exists");
    assert!(caller_caps.rvs_contains(Capability::B), "should get B from Read::read impl");
    assert!(!caller_caps.rvs_contains(Capability::M), "should NOT get M from RwLock::read (different trait)");
}

#[test]
fn test_20260715_format_def_path_capsmap_unions_specialized_impl_caps() {
    let map = rvs_caps_map(&[
        ("dep::Worker{impl#6465703a3a576f726b65723c75383e}::rvs_run", "B"),
        ("dep::Worker{impl#6465703a3a576f726b65723c7531363e}::rvs_run", "I"),
    ]);
    let output = rivus::reports::rvs_format_def_path_capsmap(&map);

    let parsed = CapsMap::rvs_parse(&output).unwrap();
    assert_eq!(parsed.rvs_lookup("dep::Worker::rvs_run").unwrap().rvs_letters(), "BI");
}

#[test]
fn test_20260716_specialized_caps_union_preserves_incomplete_knowledge() {
    let mut infos = PathMap::rvs_new();
    infos.rvs_insert_M(
        rvs_path("dep::Worker{impl#6465703a3a576f726b65723c7531363e}::rvs_run"),
        CapabilityInfo::rvs_inferred(CapabilitySet::rvs_from_validated("I")),
    );
    infos.rvs_insert_M(
        rvs_path("dep::Worker{impl#6465703a3a576f726b65723c75383e}::rvs_run"),
        CapabilityInfo::rvs_new(CapabilitySet::rvs_from_validated("B"), CapabilityBasis::Inferred, CapabilityCompleteness::Incomplete),
    );

    let rendered = rvs_format_def_path_capability_info(&infos);
    let parsed = CapsMap::rvs_parse(&rendered).unwrap();
    let info = parsed.rvs_lookup_info("dep::Worker::rvs_run").expect("never: normalized specialization is present");

    assert_eq!(info.rvs_caps().rvs_letters(), "BI");
    assert_eq!(info.rvs_completeness(), CapabilityCompleteness::Incomplete);
}

#[test]
fn test_20260715_format_unknown_callees_groups_specialized_impls() {
    let mut unknown: PathMap<Vec<DefPath>> = PathMap::rvs_new();
    unknown.rvs_insert_M(rvs_path("dep::Worker{impl#6465703a3a576f726b65723c75383e}::run"), vec![rvs_path("demo::rvs_call_u8")]);
    unknown.rvs_insert_M(rvs_path("dep::Worker{impl#6465703a3a576f726b65723c7531363e}::run"), vec![rvs_path("demo::rvs_call_u16")]);
    let output = rivus::reports::rvs_format_unknown_callees(&unknown, "unknown:\n");

    assert_eq!(output.matches("dep::Worker::run=").count(), 1);
    assert!(!output.contains("{impl#"));
}

#[test]
fn test_20260704_collect_direct_external_deps_uses_resolver_for_bodyless_decl() {
    let mut graph = FnGraph::rvs_new();
    let mut caller = rvs_make_behavior();
    rvs_call(&mut caller, 2, "dep::Fetcher::rvs_fetch_BI");
    graph.rvs_insert_M(rvs_path("my_crate::rvs_run"), caller);
    let mut declaration = rvs_make_behavior();
    declaration.has_body = false;
    graph.rvs_insert_M(rvs_path("dep::Fetcher::rvs_fetch_BI"), declaration);
    let inferred = rvs_caps_map(&[("dep::Fetcher::rvs_fetch_BI", "")]);

    let (known, unknown) = rivus::analysis::rvs_collect_direct_external_deps(
        &graph,
        &rvs_local(&["my_crate"]),
        &CapsMap::rvs_new(),
        &inferred,
        &rivus::graph_index::rvs_build_impl_index(&graph),
    );
    let caps = rvs_get(&known, "dep::Fetcher::rvs_fetch_BI").expect("external declaration should be known from declared suffix");

    assert!(caps.rvs_caps().rvs_contains(Capability::B));
    assert!(caps.rvs_caps().rvs_contains(Capability::I));
    assert_eq!(unknown.rvs_len(), 0);
}

#[test]
fn test_20260716_port_scope_clears_external_target_facts() {
    let mut local = rvs_make_behavior();
    local.facts.is_port_method = true;
    let mut external = rvs_make_behavior();
    external.facts.is_port_method = true;
    external.crate_id = 20;
    external.crate_provenance = CrateProvenance::Dependency;
    let mut graph = FnGraph::rvs_new();
    graph.rvs_insert_M(rvs_path("app::ApiClient::rvs_fetch_P"), local);
    graph.rvs_insert_M(rvs_path("dependency::HttpClient::fetch"), external);

    rivus::analysis::rvs_scope_port_methods_M(&mut graph, &rvs_local(&["app"]));

    let local_target_port = graph.rvs_get("app::ApiClient::rvs_fetch_P").is_some_and(|node| node.facts.is_port_method);
    let external_target_port = graph.rvs_get("dependency::HttpClient::fetch").is_some_and(|node| node.facts.is_port_method);
    assert!(local_target_port);
    assert!(!external_target_port);
}

#[test]
fn test_20260710_external_port_fact_uses_capsmap_after_scoping() {
    let mut external = rvs_make_behavior();
    external.facts.is_port_method = true;
    external.crate_id = 2;
    external.crate_provenance = CrateProvenance::Dependency;
    let mut caller = rvs_make_behavior();
    rvs_call(&mut caller, 2, "dependency::HttpClient::fetch");
    let mut graph = FnGraph::rvs_new();
    graph.rvs_insert_M(rvs_path("app::rvs_run_BI"), caller);
    graph.rvs_insert_M(rvs_path("dependency::HttpClient::fetch"), external);
    let seed = rvs_make_capsmap(&[("dependency::HttpClient::fetch", "BI")]);

    rivus::analysis::rvs_scope_port_methods_M(&mut graph, &rvs_local(&["app"]));
    let inferred = rivus::analysis::rvs_infer_caps(&graph, &seed);
    let external_caps = rvs_get(&inferred, "dependency::HttpClient::fetch").unwrap();
    let caller_caps = rvs_get(&inferred, "app::rvs_run_BI").unwrap();

    assert_eq!(Some(external_caps), Some(&CapabilitySet::rvs_from_str("BI").unwrap()));
    assert_eq!(Some(caller_caps), Some(&CapabilitySet::rvs_from_str("BI").unwrap()));
}

#[test]
fn test_20260710_initial_caps_precedence_table() {
    let mut port = rvs_make_behavior();
    port.facts.is_port_method = true;
    port.facts.has_async = true;
    let mut seeded = rvs_make_behavior();
    seeded.facts.has_async = true;
    let mut signature = rvs_make_behavior();
    signature.facts.has_async = true;
    signature.facts.has_mut_param = true;
    let mut graph = FnGraph::rvs_new();
    graph.rvs_insert_M(rvs_path("app::ApiClient::fetch"), port);
    graph.rvs_insert_M(rvs_path("app::rvs_seeded_S"), seeded);
    graph.rvs_insert_M(rvs_path("app::rvs_signature_AM"), signature);
    let seed = rvs_make_capsmap(&[("app::ApiClient::fetch", "BI"), ("app::rvs_seeded_S", "S")]);

    let initial = rivus::analysis::rvs_initial_caps(&graph, &seed);

    assert_eq!(initial.rvs_len(), 3);
}

#[test]
fn test_20260809_dependency_pure_constructor_infers_pure() {
    let mut graph = FnGraph::rvs_new();
    let mut local_caller = rvs_make_behavior();
    rvs_call(&mut local_caller, 2, "tempfile::Builder::new");
    graph.rvs_insert_M(rvs_path("cargo_rivus::rvs_run"), local_caller);
    let mut dep_fn = rvs_make_behavior();
    dep_fn.has_body = true;
    graph.rvs_insert_M(rvs_path("tempfile::Builder::new"), dep_fn);

    let local_prefixes = rvs_local(&["cargo_rivus"]);
    let prepared = PreparedInference::rvs_prepare(&graph, &CapsMap::rvs_new(), &local_prefixes);
    let (known, unknown) = prepared.rvs_collect_direct_external_deps(&graph, &local_prefixes, &CapsMap::rvs_new());

    let caps = rvs_get(&known, "tempfile::Builder::new").expect("pure constructor must be a known external dep");
    assert!(caps.rvs_caps().rvs_is_empty(), "pure constructor with no side effects must infer as pure");
    assert_eq!(unknown.rvs_len(), 0);
}

#[test]
fn test_20260809_dependency_mut_self_setter_infers_M() {
    let mut graph = FnGraph::rvs_new();
    let mut local_caller = rvs_make_behavior();
    rvs_call(&mut local_caller, 2, "tempfile::Builder::prefix");
    graph.rvs_insert_M(rvs_path("cargo_rivus::rvs_run"), local_caller);
    let mut dep_fn = rvs_make_behavior();
    dep_fn.has_body = true;
    dep_fn.facts.has_mut_param = true;
    graph.rvs_insert_M(rvs_path("tempfile::Builder::prefix"), dep_fn);

    let local_prefixes = rvs_local(&["cargo_rivus"]);
    let prepared = PreparedInference::rvs_prepare(&graph, &CapsMap::rvs_new(), &local_prefixes);
    let (known, unknown) = prepared.rvs_collect_direct_external_deps(&graph, &local_prefixes, &CapsMap::rvs_new());

    let caps = rvs_get(&known, "tempfile::Builder::prefix").expect("setter with &mut self must be a known external dep");
    assert!(caps.rvs_caps().rvs_contains(Capability::M), "setter with &mut self must infer M");
    assert_eq!(unknown.rvs_len(), 0);
}
