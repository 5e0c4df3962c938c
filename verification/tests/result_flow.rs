use rivus::flow_map::FlowMap;
use rivus::result_flow::{
    RVS_RESULT_ANY, RVS_RESULT_ERR, RVS_RESULT_OK, RVS_RESULT_UNINITIALIZED, RVS_RESULT_UNKNOWN, ResultDiscriminant,
    ResultFlowState, ResultPlaceKey, ResultProjectionKey, ResultReference, ResultReferenceMap, rvs_call_is_result_branch,
    rvs_call_is_result_from_output, rvs_call_preserves_result_variant, rvs_merge_reference_maps, rvs_nest_reference_map,
    rvs_preserve_direct_variants, rvs_projection_paths_overlap, rvs_result_place_value, rvs_result_predicate_source,
    rvs_set_result_place_value_M, rvs_set_result_target_unknown_M, rvs_set_result_target_value_M, rvs_unknown_local_param_effect,
};

fn rvs_step(display: &str, sibling_fields_overlap: bool, imprecise_index: bool) -> ResultProjectionKey {
    ResultProjectionKey { display: display.to_string(), sibling_fields_overlap, imprecise_index }
}

fn rvs_place(local: u32, steps: &[&str]) -> ResultPlaceKey {
    ResultPlaceKey { local, projections: steps.iter().map(|s| rvs_step(s, false, false)).collect() }
}

fn rvs_empty_state() -> ResultFlowState {
    ResultFlowState {
        values: FlowMap::rvs_new(),
        projected_values: FlowMap::rvs_new(),
        references: FlowMap::rvs_new(),
        discriminants: FlowMap::rvs_new(),
        predicates: FlowMap::rvs_new(),
        escaped_results: FlowMap::rvs_new(),
        coroutine_saved_values: FlowMap::rvs_new(),
    }
}

fn rvs_reference(direct: bool, direct_mutable: bool, nested: bool, nested_mutable: bool) -> ResultReference {
    ResultReference { direct, direct_mutable, nested, nested_mutable }
}

#[test]
fn test_reference_operations() {
    let direct = ResultReference::rvs_direct_mutable();
    assert!(direct.rvs_has_reference() && direct.rvs_can_change_variant());
    assert_eq!(direct.rvs_preserve_direct_variant(), rvs_reference(true, false, false, false));
    assert_eq!(direct.rvs_nest(), ResultReference::rvs_nested_mutable());
    let mut joined = rvs_reference(true, false, false, false);
    joined.rvs_join_M(rvs_reference(false, false, true, true));
    assert_eq!(joined, rvs_reference(true, false, true, true));
    let effect = rvs_unknown_local_param_effect();
    assert!(!effect.rvs_preserves_argument(false));
    assert!(effect.rvs_may_mutate(direct));
    assert!(!effect.rvs_may_mutate(rvs_reference(true, false, true, false)));
    assert!(effect.rvs_may_return_alias(rvs_reference(true, false, false, false)));
}

#[test]
fn test_projection_paths_overlap() {
    let field = |d: &str| rvs_step(d, false, false);
    assert!(rvs_projection_paths_overlap(&[field(".0")], &[field(".0"), field(".1")]));
    assert!(!rvs_projection_paths_overlap(&[field(".0")], &[field(".1")]));
    assert!(rvs_projection_paths_overlap(&[], &[field(".1")]));
    assert!(rvs_projection_paths_overlap(&[rvs_step("[i]", false, true)], &[field("[2]")]));
    assert!(rvs_projection_paths_overlap(&[rvs_step(".a", true, false)], &[rvs_step(".b", true, false)]));
    assert!(!rvs_projection_paths_overlap(&[rvs_step(".a", true, false)], &[rvs_step(".b", false, false)]));
}

#[test]
fn test_result_call_paths() {
    assert!(rvs_call_is_result_from_output("core::ops::try_trait::Try::from_output"));
    assert!(rvs_call_is_result_from_output("core::result::from_output@core::ops::try_trait::Try"));
    assert!(!rvs_call_is_result_from_output("core::ops::try_trait::Try::branch"));
    assert!(rvs_call_is_result_branch("core::result::branch@core::ops::try_trait::Try"));
    assert!(rvs_call_preserves_result_variant("core::result::Result::as_ref"));
    assert!(!rvs_call_preserves_result_variant("core::result::Result::unwrap"));
}

#[test]
fn test_merge_and_transform_reference_maps() {
    let mut first: ResultReferenceMap = FlowMap::rvs_new();
    first.rvs_insert_M(rvs_place(1, &[]), rvs_reference(true, false, false, false));
    let mut second: ResultReferenceMap = FlowMap::rvs_new();
    second.rvs_insert_M(rvs_place(1, &[]), rvs_reference(false, false, true, true));
    second.rvs_insert_M(rvs_place(2, &[".0"]), ResultReference::rvs_direct_mutable());
    let merged = rvs_merge_reference_maps(&vec![first, second]);
    assert_eq!(merged.rvs_len(), 2);
    assert_eq!(merged.rvs_get(&rvs_place(1, &[])), Some(&rvs_reference(true, false, true, true)));

    let preserved = rvs_preserve_direct_variants(merged);
    assert_eq!(preserved.rvs_get(&rvs_place(2, &[".0"])), Some(&rvs_reference(true, false, false, false)));
    let nested = rvs_nest_reference_map(preserved);
    assert_eq!(nested.rvs_get(&rvs_place(1, &[])), Some(&rvs_reference(false, false, true, true)));
}

#[test]
fn test_predicate_source_needs_one_direct_reference() {
    let mut references: ResultReferenceMap = FlowMap::rvs_new();
    references.rvs_insert_M(rvs_place(3, &[]), rvs_reference(true, false, false, false));
    references.rvs_insert_M(rvs_place(4, &[]), rvs_reference(false, false, true, false));
    let found = rvs_result_predicate_source(Some("core::result::Result::is_err"), &references).expect("one direct source");
    assert!(found.0);
    assert_eq!(found.1.local, 3);
    assert!(rvs_result_predicate_source(Some("core::result::Result::unwrap"), &references).is_none());
    assert!(rvs_result_predicate_source(None, &references).is_none());
    references.rvs_insert_M(rvs_place(5, &[]), rvs_reference(true, true, false, false));
    assert!(rvs_result_predicate_source(Some("core::result::Result::is_ok"), &references).is_none());
}

#[test]
fn test_place_values_and_targets() {
    let mut state = rvs_empty_state();
    assert_eq!(rvs_result_place_value(&state, &rvs_place(1, &[])), RVS_RESULT_UNKNOWN);
    rvs_set_result_place_value_M(&mut state, &rvs_place(1, &[]), RVS_RESULT_OK);
    rvs_set_result_place_value_M(&mut state, &rvs_place(1, &[".0"]), RVS_RESULT_ERR);
    assert_eq!(rvs_result_place_value(&state, &rvs_place(1, &[])), RVS_RESULT_OK);
    assert_eq!(rvs_result_place_value(&state, &rvs_place(1, &[".0"])), RVS_RESULT_ERR);

    rvs_set_result_target_value_M(&mut state, &rvs_place(1, &[".0", ".1"]), RVS_RESULT_OK);
    assert_eq!(rvs_result_place_value(&state, &rvs_place(1, &[".0"])), RVS_RESULT_OK);
    assert!(state.projected_values.rvs_get(&rvs_place(1, &[".0", ".1"])).is_none());
    rvs_set_result_target_value_M(&mut state, &rvs_place(1, &[".2"]), RVS_RESULT_ERR);
    assert_eq!(rvs_result_place_value(&state, &rvs_place(1, &[".2"])), RVS_RESULT_ERR);
    rvs_set_result_target_value_M(&mut state, &rvs_place(9, &[]), RVS_RESULT_ERR);
    assert!(state.values.rvs_get(&9).is_none());

    state.discriminants.rvs_insert_M(7, ResultDiscriminant { source: rvs_place(1, &[".0"]), is_poll: false });
    state.discriminants.rvs_insert_M(8, ResultDiscriminant { source: rvs_place(2, &[]), is_poll: false });
    rvs_set_result_target_unknown_M(&mut state, &rvs_place(1, &[]), RVS_RESULT_ANY);
    assert_eq!(rvs_result_place_value(&state, &rvs_place(1, &[])), RVS_RESULT_ANY);
    assert_eq!(rvs_result_place_value(&state, &rvs_place(1, &[".0"])), RVS_RESULT_UNKNOWN);
    assert!(state.discriminants.rvs_get(&7).is_none());
    assert!(state.discriminants.rvs_get(&8).is_some());
}

#[test]
fn test_join_unites_values_and_widens_one_sided_projections() {
    let mut mine = rvs_empty_state();
    mine.values.rvs_insert_M(1, RVS_RESULT_OK);
    mine.projected_values.rvs_insert_M(rvs_place(2, &[".0"]), RVS_RESULT_OK);
    mine.discriminants.rvs_insert_M(5, ResultDiscriminant { source: rvs_place(1, &[]), is_poll: false });
    let mut theirs = rvs_empty_state();
    theirs.values.rvs_insert_M(1, RVS_RESULT_ERR);
    theirs.values.rvs_insert_M(3, RVS_RESULT_OK);
    theirs.discriminants.rvs_insert_M(5, ResultDiscriminant { source: rvs_place(1, &[]), is_poll: true });
    theirs.escaped_results.rvs_insert_M(rvs_place(4, &[]), ());

    let copy = mine.clone();
    assert!(mine.rvs_join_M(&theirs));
    assert_eq!(mine.values.rvs_get(&1), Some(&(RVS_RESULT_OK | RVS_RESULT_ERR)));
    assert_eq!(mine.values.rvs_get(&3), Some(&(RVS_RESULT_UNINITIALIZED | RVS_RESULT_OK)));
    assert_eq!(mine.projected_values.rvs_get(&rvs_place(2, &[".0"])), Some(&(RVS_RESULT_OK | RVS_RESULT_ANY)));
    assert!(mine.discriminants.rvs_get(&5).is_none());
    assert!(mine.escaped_results.rvs_contains(&rvs_place(4, &[])));

    let mut again = copy.clone();
    assert!(!again.rvs_join_M(&copy));
}
