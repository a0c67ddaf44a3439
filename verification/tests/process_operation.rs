use micro_sp::operation::Operation;
use micro_sp::predicate::{Predicate, SPWrapped};
use micro_sp::process::{info_already_reads_as, process_operation, OperationProcessingType};
use micro_sp::state::{SPAssignment, SPVariable, State};
use micro_sp::state_init::{add_operation_meta_tracking_variables, add_operation_state_tracking_variable};
use micro_sp::transition::{Action, Transition};
use micro_sp::value::{SPValue, SPValueType, ToSPValue};

const SP_ID: &str = "sp";
const TARGET: &str = "test";
const OP: &str = "op_test";

#[test]
fn info_already_reads_as_matches_only_the_right_operation() {
    let msg = "Operation 'op_move' disabled. Please satisfy the runner guard: ...";

    assert!(info_already_reads_as(msg, "Operation '", "op_move", "' disabled."));

    assert!(!info_already_reads_as(msg, "Operation '", "op_mo", "' disabled."));
    assert!(!info_already_reads_as(
        "Operation 'op_move_to_b' disabled. ...",
        "Operation '",
        "op_move",
        "' disabled."
    ));

    assert!(!info_already_reads_as(
        "Disabling operation 'op_move'.",
        "Operation '",
        "op_move",
        "' disabled."
    ));
    assert!(!info_already_reads_as("", "Operation '", "op_move", "' disabled."));
}

fn var(name: &str) -> SPVariable {
    SPVariable::new(name, SPValueType::Bool)
}

fn is_true(name: &str) -> Predicate {
    Predicate::EQ(SPWrapped::SPVariable(var(name)), SPWrapped::SPValue(true.to_spvalue()))
}

fn set(name: &str, value: bool) -> Action {
    Action::new(var(name), SPWrapped::SPValue(value.to_spvalue()))
}

fn transition(name: &str, guard: Predicate, actions: Vec<Action>) -> Transition {
    Transition::new(name, guard, Predicate::TRUE, actions, vec![])
}

/// A world with `go`, `done` and `broken`, and the dashboard command.
fn world() -> State {
    let mut state = State::new();
    for name in ["go", "done", "broken"] {
        state.add_mut(SPAssignment::new(var(name), false.to_spvalue()), TARGET);
    }
    state.add_mut(
        SPAssignment::new(
            SPVariable::new(&format!("{}_dashboard_command", SP_ID), SPValueType::String),
            "none".to_spvalue(),
        ),
        TARGET,
    );
    state
}

/// Starts on `go`, completes on `done`, fails on `broken`.
fn operation(
    timeout_executing_ms: Option<i64>,
    timeout_disabled_ms: Option<i64>,
    failure_retries: Option<i64>,
    timeout_retries: Option<i64>,
    can_be_bypassed: bool,
) -> (State, Operation) {
    let state = world();
    let operation = Operation::new(
        OP,
        timeout_executing_ms,
        timeout_disabled_ms,
        failure_retries,
        timeout_retries,
        can_be_bypassed,
        vec![transition("start", is_true("go"), vec![set("go", false)])],
        vec![transition("complete", is_true("done"), vec![])],
        vec![transition("fail", is_true("broken"), vec![])],
        vec![],
        vec![],
        vec![],
    );
    let state = add_operation_state_tracking_variable(&vec![OP.to_string()], &state, TARGET);
    let state = add_operation_meta_tracking_variables(&vec![OP.to_string()], &state, false, TARGET);
    (state, operation)
}

fn plain() -> (State, Operation) {
    operation(Some(10_000), Some(10_000), None, None, false)
}

fn tick(state: State, operation: &Operation, elapsed_ms: i64) -> State {
    let mut step = 0i64;
    let mut plan_state = String::from("executing");
    process_operation(
        SP_ID,
        state,
        operation,
        OperationProcessingType::Automatic,
        &mut step,
        &mut plan_state,
        elapsed_ms,
        TARGET,
    )
}

fn op_state(state: &State) -> String {
    state.get_string_or_default_to_unknown(OP, TARGET)
}

fn info(state: &State) -> String {
    state.get_string_or_default_to_unknown(&format!("{OP}_information"), TARGET)
}

fn counter(state: &State, suffix: &str) -> i64 {
    state.get_int_or_default_to_zero(&format!("{OP}_{suffix}"), TARGET)
}

fn with(state: &State, key: &str, value: SPValue) -> State {
    state.update(key, value)
}

fn stop_pressed(state: &State) -> State {
    with(state, &format!("{}_dashboard_command", SP_ID), "stop".to_spvalue())
}

#[test]
fn an_unknown_operation_is_initialised() {
    let (state, operation) = plain();
    let state = with(&state, OP, "nonsense".to_spvalue());
    let state = tick(state, &operation, 10);
    assert_eq!(op_state(&state), "initial");
}

#[test]
fn an_initial_operation_whose_guard_holds_starts() {
    let (state, operation) = plain();
    let state = with(&state, "go", true.to_spvalue());
    let state = tick(state, &operation, 10);
    assert_eq!(op_state(&state), "executing");
    assert_eq!(info(&state), format!("Starting initialized operation '{OP}'."));
    assert_eq!(state.get_value("go", TARGET), Some(false.to_spvalue()));
}

#[test]
fn an_initial_operation_whose_guard_does_not_hold_is_disabled() {
    let (state, operation) = plain();
    let state = tick(state, &operation, 10);
    assert_eq!(op_state(&state), "disabled");
    assert_eq!(info(&state), format!("Disabling operation '{OP}'."));
}

#[test]
fn stop_cancels_an_initial_operation_before_it_starts() {
    let (state, operation) = plain();
    let state = with(&state, "go", true.to_spvalue());
    let state = stop_pressed(&state);
    let state = tick(state, &operation, 10);
    assert_eq!(op_state(&state), "cancelled");
    assert_eq!(state.get_value("go", TARGET), Some(true.to_spvalue()));
}

#[test]
fn a_disabled_operation_settles_on_one_message() {
    let (state, operation) = plain();
    let state = tick(state, &operation, 10);
    let state = tick(state, &operation, 10);
    let settled = info(&state);
    assert!(settled.starts_with(&format!("Operation '{OP}' disabled.")), "unexpected message: {settled}");
    assert!(settled.contains("Debug full guard:"), "{settled}");
    assert!(settled.contains("go = true"), "{settled}");
    for _ in 0..5 {
        let next = tick(state.clone(), &operation, 10);
        assert_eq!(info(&next), settled, "the message must stop changing");
    }
}

#[test]
fn disabled_time_accumulates_in_its_own_counter() {
    let (state, operation) = plain();
    let mut state = tick(state, &operation, 10);
    assert_eq!(counter(&state, "elapsed_disabled_ms"), 0);
    for _ in 0..4 {
        state = tick(state, &operation, 25);
    }
    assert_eq!(counter(&state, "elapsed_disabled_ms"), 100);
    assert_eq!(counter(&state, "elapsed_executing_ms"), 0);
}

#[test]
fn a_disabled_operation_starts_once_its_guard_holds() {
    let (state, operation) = plain();
    let state = tick(state, &operation, 10);
    let state = with(&state, "go", true.to_spvalue());
    let state = tick(state, &operation, 10);
    assert_eq!(op_state(&state), "executing");
    assert_eq!(info(&state), format!("Starting disabled operation '{OP}'."));
}

#[test]
fn a_disabled_operation_times_out_on_its_own_deadline() {
    let (state, operation) = operation(Some(10_000), Some(50), None, None, false);
    let mut state = tick(state, &operation, 10);
    for _ in 0..10 {
        state = tick(state, &operation, 20);
        if op_state(&state) == "timedout" {
            break;
        }
    }
    assert_eq!(op_state(&state), "timedout");
    assert_eq!(info(&state), format!("Timeout for disabled operation '{OP}'."));
}

#[test]
fn failing_takes_precedence_over_completing() {
    let (state, operation) = plain();
    let state = with(&state, "go", true.to_spvalue());
    let state = tick(state, &operation, 10);
    let state = with(&state, "done", true.to_spvalue());
    let state = with(&state, "broken", true.to_spvalue());
    let state = tick(state, &operation, 10);
    assert_eq!(op_state(&state), "failed");
}

#[test]
fn stop_takes_precedence_over_every_other_executing_outcome() {
    let (state, operation) = plain();
    let state = with(&state, "go", true.to_spvalue());
    let state = tick(state, &operation, 10);
    let state = with(&state, "done", true.to_spvalue());
    let state = with(&state, "broken", true.to_spvalue());
    let state = stop_pressed(&state);
    let state = tick(state, &operation, 10);
    assert_eq!(op_state(&state), "cancelled");
}

#[test]
fn a_failed_operation_retries_while_it_has_retries_left() {
    let (state, operation) = operation(Some(10_000), Some(10_000), Some(2), None, false);
    let state = with(&state, OP, "failed".to_spvalue());
    let state = tick(state, &operation, 10);
    assert_eq!(counter(&state, "failure_retry_counter"), 1);
    assert_eq!(info(&state), format!("Retrying operation (failure) '{OP}'. Retry 1 out of 2."));
    assert_eq!(op_state(&state), "initial");
}

#[test]
fn a_failed_operation_out_of_retries_is_fatal_and_clears_the_counters() {
    let (state, operation) = operation(Some(10_000), Some(10_000), None, None, false);
    let state = with(&state, OP, "failed".to_spvalue());
    let state = with(&state, &format!("{OP}_timeout_retry_counter"), 1i64.to_spvalue());
    let state = tick(state, &operation, 10);
    assert_eq!(info(&state), format!("Operation '{OP}' has no more retries left."));
    assert_eq!(op_state(&state), "fatal");
    assert_eq!(counter(&state, "failure_retry_counter"), 0);
    assert_eq!(counter(&state, "timeout_retry_counter"), 0);
}

#[test]
fn a_failed_operation_out_of_retries_is_bypassed_when_allowed() {
    let (state, operation) = operation(Some(10_000), Some(10_000), None, None, true);
    let state = with(&state, OP, "failed".to_spvalue());
    let state = tick(state, &operation, 10);
    assert_eq!(info(&state), format!("Operation '{OP}' has no more retries left. Bypassing."));
    assert_eq!(op_state(&state), "bypassed");
}

#[test]
fn the_happy_path_runs_start_to_terminated() {
    let (state, operation) = plain();
    let state = with(&state, "go", true.to_spvalue());
    let state = tick(state, &operation, 10);
    assert_eq!(op_state(&state), "executing");
    let state = with(&state, "done", true.to_spvalue());
    let state = tick(state, &operation, 10);
    assert_eq!(op_state(&state), "completed");
    let state = tick(state, &operation, 10);
    assert_eq!(op_state(&state), "terminated_completed");
    assert_eq!(counter(&state, "elapsed_executing_ms"), 10);
}

#[test]
fn completing_advances_the_plan_cursor_only_when_planned() {
    let (state, operation) = plain();
    let state = with(&state, OP, "completed".to_spvalue());
    let mut step = 4i64;
    let mut plan_state = String::from("executing");
    let _ = process_operation(
        SP_ID,
        state.clone(),
        &operation,
        OperationProcessingType::Planned,
        &mut step,
        &mut plan_state,
        10,
        TARGET,
    );
    assert_eq!(step, 5);
    let mut step = 4i64;
    let _ = process_operation(
        SP_ID,
        state,
        &operation,
        OperationProcessingType::SOP,
        &mut step,
        &mut plan_state,
        10,
        TARGET,
    );
    assert_eq!(step, 4);
}

#[test]
fn a_fatal_planned_operation_fails_the_plan() {
    let (state, operation) = plain();
    let state = with(&state, OP, "fatal".to_spvalue());
    let mut step = 0i64;
    let mut plan_state = String::from("executing");
    let state = process_operation(
        SP_ID,
        state,
        &operation,
        OperationProcessingType::Planned,
        &mut step,
        &mut plan_state,
        10,
        TARGET,
    );
    assert_eq!(plan_state, "failed");
    assert_eq!(info(&state), format!("Operation '{OP}' unrecoverable. Stopping execution."));
}

#[test]
fn a_timedout_operation_retries_while_it_has_retries_left() {
    let (state, operation) = operation(Some(10_000), Some(10_000), None, Some(1), false);
    let state = with(&state, OP, "timedout".to_spvalue());
    let state = tick(state, &operation, 10);
    assert_eq!(op_state(&state), "initial");
    assert_eq!(counter(&state, "timeout_retry_counter"), 1);
    assert_eq!(info(&state), format!("Retrying operation (timeout) '{OP}'. Retry 1 out of 1."));
}

#[test]
fn stop_does_not_disturb_a_terminated_operation() {
    let (state, operation) = plain();
    let state = with(&state, OP, "terminated_completed".to_spvalue());
    let state = stop_pressed(&state);
    let state = tick(state, &operation, 10);
    assert_eq!(op_state(&state), "terminated_completed");
    assert_eq!(info(&state), format!("Operation '{OP}' terminated."));
}

#[test]
fn a_bypassed_operation_advances_the_plan_but_never_terminates() {
    let (state, operation) = plain();
    let state = with(&state, OP, "bypassed".to_spvalue());
    let mut step = 0i64;
    let mut plan_state = String::from("executing");
    let state = process_operation(
        SP_ID,
        state,
        &operation,
        OperationProcessingType::Planned,
        &mut step,
        &mut plan_state,
        10,
        TARGET,
    );
    assert_eq!(step, 1, "the plan moves on");
    assert!(info(&state).contains("bypassed"));
    assert_eq!(op_state(&state), "terminated_bypassed");
}

#[test]
fn a_fatal_operation_is_retired_as_terminated_fatal() {
    let (state, operation) = plain();
    let state = with(&state, OP, "fatal".to_spvalue());
    let state = tick(state, &operation, 10);
    assert_eq!(op_state(&state), "terminated_fatal");
    let state = tick(state, &operation, 10);
    assert_eq!(op_state(&state), "terminated_fatal");
    assert_eq!(info(&state), format!("Operation '{OP}' terminated."));
}

#[test]
fn a_cancelled_operation_is_retired_as_terminated_cancelled() {
    let (state, operation) = plain();
    let state = with(&state, OP, "cancelled".to_spvalue());
    let state = tick(state, &operation, 10);
    assert_eq!(op_state(&state), "terminated_cancelled");
    assert_eq!(info(&state), format!("Operation '{OP}' cancelled. Stopping execution."));
}
