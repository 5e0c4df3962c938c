use rivus::flow_map::FlowMap;
use rivus::result_call::{MirTerminator, rvs_apply_terminator_effects_M};
use rivus::result_flow::{LocalParamChannelEffect, LocalParamEffect};
use rivus::result_flow::{
    RVS_RESULT_ERR, RVS_RESULT_OK, RVS_RESULT_UNINITIALIZED, RVS_RESULT_UNKNOWN, ResultFlowState, ResultPlaceKey,
    ResultProjectionKey, ResultReference, ResultReferenceMap,
};
use rivus::result_mir::{
    AdtVariant, MirOperand, MirPlace, MirProjection, MirRvalue, MirStatement, ProjectionKind, TypeFacts, rvs_apply_statement_M,
    rvs_assign_result_value_M, rvs_operand_result_value, rvs_place_references, rvs_projected_place_key, rvs_rvalue_references,
    rvs_rvalue_result_value, rvs_unknown_result_value,
};

fn rvs_facts(is_result: bool) -> TypeFacts {
    TypeFacts { is_result, is_poll: false, error_uninhabited: false, holds_coroutine: false }
}

fn rvs_step(display: &str) -> ResultProjectionKey {
    ResultProjectionKey { display: display.to_string(), sibling_fields_overlap: false, imprecise_index: false }
}

fn rvs_key(local: u32, steps: &[&str]) -> ResultPlaceKey {
    ResultPlaceKey { local, projections: steps.iter().map(|s| rvs_step(s)).collect() }
}

fn rvs_mir_place(local: u32, steps: &[(ProjectionKind, &str)], is_result: bool) -> MirPlace {
    MirPlace {
        local,
        projection: steps.iter().map(|(kind, d)| MirProjection { kind: *kind, key: rvs_step(d) }).collect(),
        ty: rvs_facts(is_result),
    }
}

fn rvs_empty_state() -> ResultFlowState {
    ResultFlowState {
        values: FlowMap::rvs_new(),
        projected_values: FlowMap::rvs_new(),
        references: FlowMap::rvs_new(),
        discriminants: FlowMap::rvs_new(),
        predicates: FlowMap::rvs_new(),
        escaped_results: FlowMap::rvs_new(),
        coroutine_saved_values: FlowMap::rvs_new(),
    }
}

fn rvs_locals() -> Vec<TypeFacts> {
    vec![rvs_facts(false), rvs_facts(true), rvs_facts(true), rvs_facts(false), rvs_facts(false), rvs_facts(false), rvs_facts(false)]
}

#[test]
fn test_projected_place_key_and_unknown_values() {
    let place = rvs_mir_place(2, &[(ProjectionKind::Field, ".0"), (ProjectionKind::Index, "[i]")], true);
    let key = rvs_projected_place_key(&place);
    assert_eq!(key.local, 2);
    assert_eq!(key.projections.len(), 2);
    assert_eq!(key.projections[0].display, ".0");
    assert_eq!(key.projections[1].display, "[i]");
    assert_eq!(rvs_unknown_result_value(rvs_facts(false)), RVS_RESULT_UNKNOWN);
    assert_eq!(rvs_unknown_result_value(rvs_facts(true)), RVS_RESULT_UNKNOWN);
    let uninhabited = TypeFacts { is_result: true, is_poll: false, error_uninhabited: true, holds_coroutine: false };
    assert_eq!(rvs_unknown_result_value(uninhabited), RVS_RESULT_OK);
    let poll = TypeFacts { is_result: true, is_poll: true, error_uninhabited: false, holds_coroutine: false };
    assert_eq!(rvs_unknown_result_value(poll), 14);
    let poll_uninhabited = TypeFacts { is_result: true, is_poll: true, error_uninhabited: true, holds_coroutine: false };
    assert_eq!(rvs_unknown_result_value(poll_uninhabited), 10);
}

#[test]
fn test_operand_and_rvalue_values() {
    let mut state = rvs_empty_state();
    state.values.rvs_insert_M(1, RVS_RESULT_OK);
    let locals = rvs_locals();
    let known = MirOperand::Copy(rvs_mir_place(1, &[], true));
    assert_eq!(rvs_operand_result_value(&state, &known, &locals), RVS_RESULT_OK);
    assert_eq!(rvs_operand_result_value(&state, &MirOperand::Constant, &locals), RVS_RESULT_UNKNOWN);
    let untracked = MirOperand::Move(rvs_mir_place(2, &[], true));
    assert_eq!(rvs_operand_result_value(&state, &untracked, &locals), RVS_RESULT_UNKNOWN);
    let dest = rvs_mir_place(2, &[], true);
    let err = MirRvalue::Aggregate(Some(AdtVariant::ResultErr), vec![MirOperand::Constant]);
    assert_eq!(rvs_rvalue_result_value(&state, &dest, &err, &locals), RVS_RESULT_ERR);
    assert_eq!(rvs_rvalue_result_value(&state, &dest, &MirRvalue::Use(known), &locals), RVS_RESULT_OK);
    let not_result = rvs_mir_place(3, &[], false);
    assert_eq!(rvs_rvalue_result_value(&state, &not_result, &err, &locals), RVS_RESULT_UNKNOWN);
}

#[test]
fn test_place_references_reach_the_result_and_its_tracked_fields() {
    let mut state = rvs_empty_state();
    state.projected_values.rvs_insert_M(rvs_key(2, &[".0"]), RVS_RESULT_OK);
    state.projected_values.rvs_insert_M(rvs_key(3, &[".0"]), RVS_RESULT_OK);
    let place = rvs_mir_place(2, &[], true);
    let references = rvs_place_references(&state, &place);
    assert_eq!(references.rvs_len(), 2);
    assert_eq!(references.rvs_get(&rvs_key(2, &[])), Some(&ResultReference::rvs_direct_mutable()));
    assert_eq!(references.rvs_get(&rvs_key(2, &[".0"])), Some(&ResultReference::rvs_nested_mutable()));
    assert_eq!(references.rvs_get(&rvs_key(3, &[".0"])), None);
    let shared = MirRvalue::Ref(false, place);
    let through_shared = rvs_rvalue_references(&state, &shared);
    let direct_read = ResultReference { direct: true, direct_mutable: false, nested: false, nested_mutable: false };
    assert_eq!(through_shared.rvs_get(&rvs_key(2, &[])), Some(&direct_read));
    let aggregate = MirRvalue::Aggregate(None, vec![MirOperand::Copy(rvs_mir_place(2, &[], true))]);
    let nested = rvs_rvalue_references(&state, &aggregate);
    assert_eq!(nested.rvs_get(&rvs_key(2, &[])), Some(&ResultReference::rvs_nested_mutable()));
}

#[test]
fn test_assign_result_value_to_tracked_and_escaped_locals() {
    let mut state = rvs_empty_state();
    state.values.rvs_insert_M(1, RVS_RESULT_UNINITIALIZED);
    rvs_assign_result_value_M(&mut state, &rvs_mir_place(1, &[], true), RVS_RESULT_OK, true);
    assert_eq!(state.values.rvs_get(&1), Some(&RVS_RESULT_OK));
    state.escaped_results.rvs_insert_M(rvs_key(1, &[]), ());
    rvs_assign_result_value_M(&mut state, &rvs_mir_place(1, &[], true), RVS_RESULT_ERR, true);
    assert_eq!(state.values.rvs_get(&1), Some(&RVS_RESULT_UNKNOWN));
}

#[test]
fn test_assignment_through_a_reference_writes_its_target() {
    let mut state = rvs_empty_state();
    state.values.rvs_insert_M(1, RVS_RESULT_OK);
    let mut held: ResultReferenceMap = FlowMap::rvs_new();
    held.rvs_insert_M(rvs_key(1, &[]), ResultReference::rvs_direct_mutable());
    state.references.rvs_insert_M(3, held);
    let through = rvs_mir_place(3, &[(ProjectionKind::Deref, "*")], true);
    let statement = MirStatement::Assign(through, MirRvalue::Aggregate(Some(AdtVariant::ResultErr), vec![MirOperand::Constant]));
    rvs_apply_statement_M(&mut state, &statement, &rvs_locals());
    assert_eq!(state.values.rvs_get(&1), Some(&RVS_RESULT_ERR));
    assert_eq!(state.projected_values.rvs_get(&rvs_key(3, &["*"])), Some(&RVS_RESULT_ERR));
}

#[test]
fn test_assignment_copies_predicate_and_records_discriminant() {
    let mut state = rvs_empty_state();
    state.values.rvs_insert_M(1, RVS_RESULT_OK);
    state.predicates.rvs_insert_M(4, (rvs_key(1, &[]), true));
    let locals = rvs_locals();
    let copy = MirStatement::Assign(rvs_mir_place(5, &[], false), MirRvalue::Use(MirOperand::Copy(rvs_mir_place(4, &[], false))));
    rvs_apply_statement_M(&mut state, &copy, &locals);
    let copied = state.predicates.rvs_get(&5).expect("the predicate is carried over");
    assert_eq!(copied.0.local, 1);
    assert!(copied.0.projections.is_empty());
    assert!(copied.1);
    let discriminant = MirStatement::Assign(rvs_mir_place(6, &[], false), MirRvalue::Discriminant(rvs_mir_place(1, &[], true)));
    rvs_apply_statement_M(&mut state, &discriminant, &locals);
    let recorded = state.discriminants.rvs_get(&6).expect("the discriminant is recorded");
    assert_eq!(recorded.source.local, 1);
    assert!(!recorded.is_poll);
    let overwrite = MirStatement::Assign(rvs_mir_place(1, &[], true), MirRvalue::Aggregate(Some(AdtVariant::ResultOk), vec![]));
    rvs_apply_statement_M(&mut state, &overwrite, &locals);
    assert!(state.discriminants.rvs_get(&6).is_none());
    assert!(state.predicates.rvs_get(&5).is_none());
    assert_eq!(state.values.rvs_get(&1), Some(&RVS_RESULT_OK));
}

#[test]
fn test_storage_dead_forgets_the_local() {
    let mut state = rvs_empty_state();
    state.values.rvs_insert_M(1, RVS_RESULT_OK);
    state.projected_values.rvs_insert_M(rvs_key(1, &[".0"]), RVS_RESULT_ERR);
    state.projected_values.rvs_insert_M(rvs_key(2, &[".0"]), RVS_RESULT_ERR);
    state.discriminants.rvs_insert_M(1, rivus::result_flow::ResultDiscriminant { source: rvs_key(2, &[]), is_poll: false });
    rvs_apply_statement_M(&mut state, &MirStatement::StorageDead(1), &rvs_locals());
    assert_eq!(state.values.rvs_get(&1), Some(&RVS_RESULT_UNINITIALIZED));
    assert!(state.projected_values.rvs_get(&rvs_key(1, &[".0"])).is_none());
    assert_eq!(state.projected_values.rvs_get(&rvs_key(2, &[".0"])), Some(&RVS_RESULT_ERR));
    assert!(state.discriminants.rvs_get(&1).is_none());
}

#[test]
fn test_copy_nonoverlapping_forgets_reachable_results() {
    let mut state = rvs_empty_state();
    state.values.rvs_insert_M(1, RVS_RESULT_OK);
    state.values.rvs_insert_M(2, RVS_RESULT_ERR);
    let mut held: ResultReferenceMap = FlowMap::rvs_new();
    held.rvs_insert_M(rvs_key(1, &[]), ResultReference::rvs_direct_mutable());
    state.references.rvs_insert_M(3, held);
    let statement = MirStatement::CopyNonOverlapping(MirOperand::Copy(rvs_mir_place(3, &[], false)));
    rvs_apply_statement_M(&mut state, &statement, &rvs_locals());
    assert_eq!(state.values.rvs_get(&1), Some(&RVS_RESULT_UNKNOWN));
    assert_eq!(state.values.rvs_get(&2), Some(&RVS_RESULT_ERR));
}

#[test]
fn test_set_discriminant_assigns_the_variant() {
    let mut state = rvs_empty_state();
    state.values.rvs_insert_M(2, RVS_RESULT_OK);
    let statement = MirStatement::SetDiscriminant(rvs_mir_place(2, &[], true), AdtVariant::ResultErr);
    rvs_apply_statement_M(&mut state, &statement, &rvs_locals());
    assert_eq!(state.values.rvs_get(&2), Some(&RVS_RESULT_ERR));
    let other = MirStatement::SetDiscriminant(rvs_mir_place(2, &[], true), AdtVariant::Other);
    rvs_apply_statement_M(&mut state, &other, &rvs_locals());
    assert_eq!(state.values.rvs_get(&2), Some(&RVS_RESULT_UNKNOWN));
}

fn rvs_call_facts(def_path: Option<&str>) -> rivus::result_call::CallFacts {
    rivus::result_call::CallFacts {
        def_path: def_path.map(|p| p.to_string()),
        local_effects: None,
        argument_needs_drop: vec![],
        callee_summary: None,
        coroutine_summary: None,
    }
}

fn rvs_state_with_reference() -> ResultFlowState {
    let mut state = rvs_empty_state();
    state.values.rvs_insert_M(1, RVS_RESULT_OK);
    state.values.rvs_insert_M(2, RVS_RESULT_ERR);
    let mut held: ResultReferenceMap = FlowMap::rvs_new();
    held.rvs_insert_M(rvs_key(1, &[]), ResultReference::rvs_direct_mutable());
    state.references.rvs_insert_M(3, held);
    state
}

#[test]
fn test_unknown_call_forgets_and_escapes_what_arguments_reach() {
    let mut state = rvs_state_with_reference();
    let call = MirTerminator::Call(
        rvs_call_facts(None),
        vec![MirOperand::Move(rvs_mir_place(3, &[], false))],
        rvs_mir_place(2, &[], true),
    );
    rvs_apply_terminator_effects_M(&mut state, &call, &rvs_locals());
    assert_eq!(state.values.rvs_get(&1), Some(&RVS_RESULT_UNKNOWN));
    assert!(state.escaped_results.rvs_get(&rvs_key(1, &[])).is_some());
    assert_eq!(state.values.rvs_get(&2), Some(&RVS_RESULT_UNKNOWN));
    let returned = state.references.rvs_get(&2).expect("the result holds the argument's references");
    assert_eq!(returned.rvs_get(&rvs_key(1, &[])), Some(&ResultReference::rvs_direct_mutable()));
}

#[test]
fn test_call_of_is_err_records_the_predicate_and_from_output_gives_ok() {
    let mut state = rvs_state_with_reference();
    let test = MirTerminator::Call(
        rvs_call_facts(Some("core::result::Result::is_err")),
        vec![MirOperand::Copy(rvs_mir_place(2, &[], true))],
        rvs_mir_place(4, &[], false),
    );
    rvs_apply_terminator_effects_M(&mut state, &test, &rvs_locals());
    let predicate = state.predicates.rvs_get(&4).expect("the test is recorded");
    assert_eq!(predicate.0.local, 2);
    assert!(predicate.1);
    let mut state = rvs_state_with_reference();
    let from_output = MirTerminator::Call(
        rvs_call_facts(Some("core::ops::try_trait::Try::from_output")),
        vec![MirOperand::Constant],
        rvs_mir_place(2, &[], true),
    );
    rvs_apply_terminator_effects_M(&mut state, &from_output, &rvs_locals());
    assert_eq!(state.values.rvs_get(&2), Some(&RVS_RESULT_OK));
    assert_eq!(state.values.rvs_get(&1), Some(&RVS_RESULT_OK));
}

#[test]
fn test_call_with_summary_keeps_arguments_and_takes_ok() {
    let mut state = rvs_state_with_reference();
    let quiet = LocalParamChannelEffect { may_mutate: false, may_escape: false, may_drop: false, may_return_alias: false };
    let mut facts = rvs_call_facts(Some("mycrate::helper"));
    facts.local_effects = Some(vec![LocalParamEffect { direct: quiet, nested: quiet }]);
    facts.callee_summary = Some(false);
    let call = MirTerminator::Call(facts, vec![MirOperand::Move(rvs_mir_place(3, &[], false))], rvs_mir_place(2, &[], true));
    rvs_apply_terminator_effects_M(&mut state, &call, &rvs_locals());
    assert_eq!(state.values.rvs_get(&1), Some(&RVS_RESULT_OK));
    assert!(state.escaped_results.rvs_get(&rvs_key(1, &[])).is_none());
    assert_eq!(state.values.rvs_get(&2), Some(&RVS_RESULT_OK));
    assert!(state.references.rvs_get(&2).is_none());
}

#[test]
fn test_drop_and_inline_asm_forget_reachable_results() {
    let mut state = rvs_state_with_reference();
    rvs_apply_terminator_effects_M(&mut state, &MirTerminator::Drop(rvs_mir_place(3, &[], false)), &rvs_locals());
    assert_eq!(state.values.rvs_get(&1), Some(&RVS_RESULT_UNKNOWN));
    assert!(state.escaped_results.rvs_get(&rvs_key(1, &[])).is_none());
    assert_eq!(state.values.rvs_get(&2), Some(&RVS_RESULT_ERR));
    let mut state = rvs_state_with_reference();
    rvs_apply_terminator_effects_M(&mut state, &MirTerminator::InlineAsm, &rvs_locals());
    assert_eq!(state.values.rvs_get(&1), Some(&RVS_RESULT_UNKNOWN));
    assert!(state.escaped_results.rvs_get(&rvs_key(1, &[])).is_some());
    let mut state = rvs_state_with_reference();
    rvs_apply_terminator_effects_M(&mut state, &MirTerminator::Other, &rvs_locals());
    assert_eq!(state.values.rvs_get(&1), Some(&RVS_RESULT_OK));
}
