use micro_sp::auto_operation_driver::AutoOperationRunner;
use micro_sp::operation::Operation;
use micro_sp::planner_tick::planner_ticker_keys;
use micro_sp::predicate::{Predicate, SPWrapped};
use micro_sp::readiness::{
    auto_operations_ready, auto_transitions_ready, goal_runner_ready, operation_tick_ready, planner_ready,
};
use micro_sp::sop::Model;
use micro_sp::state::{SPAssignment, SPVariable, State};
use micro_sp::state_init::{
    add_operation_meta_tracking_variables, add_operation_state_tracking_variable, generate_runner_state_variables,
};
use micro_sp::transition::{Action, Transition};
use micro_sp::value::{SPValueType, ToSPValue};

const TARGET: &str = "test";

fn var(name: &str) -> SPVariable {
    SPVariable::new(name, SPValueType::Bool)
}

fn equals(name: &str, value: bool) -> Predicate {
    Predicate::EQ(SPWrapped::SPVariable(var(name)), SPWrapped::SPValue(value.to_spvalue()))
}

fn op(name: &str) -> Operation {
    Operation::new(
        name,
        None,
        None,
        None,
        None,
        false,
        vec![Transition::new(
            "start",
            equals("a", true),
            Predicate::TRUE,
            vec![Action::new(var("b"), SPWrapped::SPVariable(var("c")))],
            vec![],
        )],
        vec![],
        vec![],
        vec![],
        vec![],
        vec![],
    )
}

fn flags(names: &[&str]) -> State {
    let mut state = State::new();
    for name in names {
        state.add_mut(SPAssignment::new(var(name), false.to_spvalue()), TARGET);
    }
    state
}

#[test]
fn an_operation_tick_is_ready_only_with_every_variable_present() {
    let o = op("op_x");
    let full = flags(&["a", "b", "c"]);
    let full = add_operation_state_tracking_variable(&vec!["op_x".to_string()], &full, TARGET);
    let full = add_operation_meta_tracking_variables(&vec!["op_x".to_string()], &full, false, TARGET);
    assert!(operation_tick_ready(&o, &full));

    // Without the action's right-hand side variable.
    let short = add_operation_meta_tracking_variables(
        &vec!["op_x".to_string()],
        &add_operation_state_tracking_variable(&vec!["op_x".to_string()], &flags(&["a", "b"]), TARGET),
        false,
        TARGET,
    );
    assert!(!operation_tick_ready(&o, &short));

    // Without the bookkeeping variables.
    let bare = add_operation_state_tracking_variable(&vec!["op_x".to_string()], &flags(&["a", "b", "c"]), TARGET);
    assert!(!operation_tick_ready(&o, &bare));
}

#[test]
fn the_automatic_runners_check_the_model_variables() {
    let t = Transition::new("t", equals("a", true), Predicate::TRUE, vec![Action::new(var("b"), SPWrapped::SPValue(true.to_spvalue()))], vec![]);
    let model = Model::new("m", vec![t], vec![op("x")], vec![], vec![], vec![]);
    assert!(auto_transitions_ready(&model, &flags(&["a", "b"])));
    assert!(!auto_transitions_ready(&model, &flags(&["a"])));
    let runner = AutoOperationRunner::new();
    assert!(auto_operations_ready(&model, &runner, &flags(&["a", "b", "c"])));
    assert!(!auto_operations_ready(&model, &runner, &flags(&["a", "b"])));
}

#[test]
fn the_runner_variables_satisfy_the_goal_runner_and_the_planner() {
    let state = generate_runner_state_variables("sp", 0, TARGET);
    assert!(goal_runner_ready("sp", &state));
    assert!(planner_ready("sp", &state));
    assert!(!goal_runner_ready("other", &state));
    assert!(!planner_ready("other", &State::new()));
}

#[test]
fn the_diff_holds_what_changed_and_what_is_new() {
    let before = flags(&["a", "b"]);
    let after = before.update("b", true.to_spvalue());
    let mut after = after;
    after.add_mut(SPAssignment::new(var("c"), true.to_spvalue()), TARGET);
    let diff = before.get_diff_partial_state_and_add_missing(&after);
    assert_eq!(diff.len(), 2);
    assert_eq!(diff.get_value("b", TARGET), Some(true.to_spvalue()));
    assert_eq!(diff.get_value("c", TARGET), Some(true.to_spvalue()));
    assert!(!diff.contains("a"));
    assert_eq!(before.get_diff_partial_state_and_add_missing(&before.duplicate()).len(), 0);
}

#[test]
fn the_planner_reads_its_own_variables_and_the_planned_operations() {
    let model = Model::new("m", vec![], vec![], vec![], vec![], vec![op("x")]);
    let keys = planner_ticker_keys("sp", &model);
    let mut sorted = keys.clone();
    sorted.sort();
    sorted.dedup();
    assert_eq!(keys, sorted);
    for key in ["a", "b", "c", "op_x", "sp_replan_trigger", "sp_replanned", "sp_plan", "sp_current_goal_predicate"] {
        assert!(keys.contains(&key.to_string()), "{key}");
    }
    assert_eq!(keys.len(), 4 + 13);
}

/// A state cut down to the automatic operation runner's keys, grown by an
/// active copy's, still drives that copy.
#[test]
fn a_restricted_state_can_drive_an_active_copy() {
    let model = Model::new("m", vec![], vec![op("auto_op")], vec![], vec![], vec![]);
    let copy = "op_auto_op_abc123".to_string();
    let mut full = micro_sp::state_init::generate_operation_state_variables(&model, false, TARGET);
    full.extend_mut(flags(&["a", "b", "c", "unrelated"]), true);
    full.add_mut(
        SPAssignment::new(SPVariable::new("sp_dashboard_command", SPValueType::String), "none".to_spvalue()),
        TARGET,
    );
    let full = add_operation_state_tracking_variable(&vec![copy.clone()], &full, TARGET);
    let full = add_operation_meta_tracking_variables(&vec![copy.clone()], &full, false, TARGET);

    let keys = micro_sp::runner_keys::keys_with_active_operations(
        &micro_sp::runner_keys::auto_operation_runner_static_keys("sp", &model),
        &[copy.clone()],
    );
    let mut restricted = State::new();
    for key in &keys {
        if let Some(v) = full.get_value(key, TARGET) {
            restricted.add_mut(SPAssignment::new(SPVariable::new(key, v.has_type()), v), TARGET);
        }
    }
    assert!(!restricted.contains("unrelated"));
    let active = model.auto_operations[0].renamed(copy);
    assert!(operation_tick_ready(&active, &restricted));
}

#[test]
fn an_assignment_takes_the_kind_of_its_value() {
    let a = micro_sp::state::create_assignment("count", 3i64.to_spvalue());
    assert_eq!(a.var.name, "count");
    assert_eq!(a.var.value_type, SPValueType::Int64);
    assert_eq!(a.val, 3i64.to_spvalue());
    let b = micro_sp::state::create_assignment("flag", true.to_spvalue());
    assert_eq!(b.var.value_type, SPValueType::Bool);
}
