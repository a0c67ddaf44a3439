use micro_sp::operation::Operation;
use micro_sp::plan_runner::{find_step_operation, process_plan_tick, read_plan, terminated_operation_keys};
use micro_sp::predicate::{Predicate, SPWrapped};
use micro_sp::sop::Model;
use micro_sp::state::{SPAssignment, SPVariable, State};
use micro_sp::state_init::{add_operation_meta_tracking_variables, add_operation_state_tracking_variable};
use micro_sp::transition::{Action, Transition};
use micro_sp::value::{SPValue, SPValueType, ToSPValue};

fn op(name: &str) -> Operation {
    Operation::new(name, None, None, None, None, false, vec![], vec![], vec![], vec![], vec![], vec![])
}

#[test]
fn a_step_resolves_to_the_operation_it_was_built_from() {
    let operations = vec![op("op_move"), op("op_move_to_b")];
    let reversed = vec![op("op_move_to_b"), op("op_move")];

    for model in [&operations, &reversed] {
        assert_eq!(
            find_step_operation(model, "op_move_to_b_A1b2C3d4E5").map(|o| o.name.as_str()),
            Some("op_move_to_b"),
            "a step of op_move_to_b must not resolve to op_move"
        );
        assert_eq!(
            find_step_operation(model, "op_move_A1b2C3d4E5").map(|o| o.name.as_str()),
            Some("op_move"),
            "a step of op_move must still resolve to op_move"
        );
    }
}

#[test]
fn an_unknown_step_resolves_to_nothing() {
    let operations = vec![op("op_move")];
    assert!(find_step_operation(&operations, "op_grip_A1b2C3d4E5").is_none());
    assert!(find_step_operation(&operations, "").is_none());
}

#[test]
fn a_step_without_a_nanoid_suffix_takes_the_longest_prefix() {
    let operations = vec![op("op_move"), op("op_move_to_b")];

    assert_eq!(
        find_step_operation(&operations, "op_move_to_b").map(|o| o.name.as_str()),
        Some("op_move_to_b")
    );
    assert_eq!(
        find_step_operation(&operations, "op_move").map(|o| o.name.as_str()),
        Some("op_move")
    );
}

#[test]
fn an_operation_whose_name_looks_suffixed_still_resolves() {
    let operations = vec![op("op_stage_2_A1b2C3d4E5")];
    assert_eq!(
        find_step_operation(&operations, "op_stage_2_A1b2C3d4E5_Z9y8X7w6V5").map(|o| o.name.as_str()),
        Some("op_stage_2_A1b2C3d4E5"),
    );
    assert_eq!(
        find_step_operation(&operations, "op_stage_2_A1b2C3d4E5").map(|o| o.name.as_str()),
        Some("op_stage_2_A1b2C3d4E5"),
    );
}

fn add(state: &mut State, name: &str, t: SPValueType, v: SPValue) {
    state.add_mut(SPAssignment::new(SPVariable::new(name, t), v), "test");
}

/// A plan of one step that moves `pos` from `a` to `b`.
fn plan_world(plan_state: &str, planner_state: &str) -> (State, Model) {
    let pos = SPVariable::new("pos", SPValueType::String);
    let start = Transition::new(
        "start",
        Predicate::EQ(SPWrapped::SPVariable(pos.clone()), SPWrapped::SPValue("a".to_spvalue())),
        Predicate::TRUE,
        vec![Action::new(pos.clone(), SPWrapped::SPValue("moving".to_spvalue()))],
        vec![],
    );
    let complete = Transition::new(
        "complete",
        Predicate::EQ(SPWrapped::SPVariable(pos.clone()), SPWrapped::SPValue("moving".to_spvalue())),
        Predicate::TRUE,
        vec![Action::new(pos.clone(), SPWrapped::SPValue("b".to_spvalue()))],
        vec![],
    );
    let mv = Operation::new("a_to_b", None, None, None, None, false, vec![start], vec![complete], vec![], vec![], vec![], vec![]);
    let model = Model::new("sp", vec![], vec![], vec![], vec![], vec![mv]);

    let mut state = State::new();
    add(&mut state, "pos", SPValueType::String, "a".to_spvalue());
    add(&mut state, "sp_planner_state", SPValueType::String, planner_state.to_spvalue());
    add(&mut state, "sp_current_goal_state", SPValueType::String, "executing".to_spvalue());
    add(&mut state, "sp_plan_state", SPValueType::String, plan_state.to_spvalue());
    add(&mut state, "sp_plan_current_step", SPValueType::Int64, 0i64.to_spvalue());
    add(&mut state, "sp_plan", SPValueType::Array, vec!["op_a_to_b_AAAAAAAAAA".to_string()].to_spvalue());
    add(&mut state, "sp_terminated_operations", SPValueType::Array, Vec::<SPValue>::new().to_spvalue());
    add(&mut state, "sp_dashboard_command", SPValueType::String, "none".to_spvalue());
    let steps = vec!["op_a_to_b_AAAAAAAAAA".to_string()];
    let state = add_operation_state_tracking_variable(&steps, &state, "test");
    let state = add_operation_meta_tracking_variables(&steps, &state, false, "test");
    (state, model)
}

#[test]
fn a_found_plan_is_executed_step_by_step_to_completion() {
    let (mut state, model) = plan_world("initial", "found");
    assert_eq!(read_plan(&state, "sp", "test"), vec!["op_a_to_b_AAAAAAAAAA".to_string()]);
    for _ in 0..6 {
        state = process_plan_tick("sp", &model, &state, 10, "test");
    }
    assert_eq!(state.get_value("sp_plan_state", "test"), Some("completed".to_spvalue()));
    assert_eq!(state.get_value("pos", "test"), Some("b".to_spvalue()));
    assert_eq!(state.get_value("sp_plan_current_step", "test"), Some(1i64.to_spvalue()));
    assert_eq!(
        state.get_value("op_a_to_b_AAAAAAAAAA", "test"),
        Some("terminated_completed".to_spvalue())
    );
}

#[test]
fn a_plan_that_was_not_found_fails_immediately() {
    let (state, model) = plan_world("initial", "not_found");
    let state = process_plan_tick("sp", &model, &state, 10, "test");
    assert_eq!(state.get_value("sp_plan_state", "test"), Some("failed".to_spvalue()));
}

#[test]
fn a_step_with_no_matching_operation_fails_the_plan() {
    let (mut state, model) = plan_world("executing", "found");
    state.update_mut("sp_plan", vec!["op_unknown_AAAAAAAAAA".to_string()].to_spvalue());
    let state = process_plan_tick("sp", &model, &state, 10, "test");
    assert_eq!(state.get_value("sp_plan_state", "test"), Some("failed".to_spvalue()));
}

#[test]
fn an_empty_plan_completes_at_once() {
    let (mut state, model) = plan_world("executing", "found");
    state.update_mut("sp_plan", Vec::<String>::new().to_spvalue());
    let state = process_plan_tick("sp", &model, &state, 10, "test");
    assert_eq!(state.get_value("sp_plan_state", "test"), Some("completed".to_spvalue()));
}

#[test]
fn terminated_operations_name_their_six_variables() {
    let (mut state, _) = plan_world("initial", "ready");
    state.update_mut("sp_terminated_operations", vec!["op_x".to_string()].to_spvalue());
    let mut keys = terminated_operation_keys(&state, "sp", "test");
    keys.sort();
    assert_eq!(
        keys,
        vec![
            "op_x",
            "op_x_elapsed_disabled_ms",
            "op_x_elapsed_executing_ms",
            "op_x_failure_retry_counter",
            "op_x_information",
            "op_x_timeout_retry_counter",
        ]
    );
}
