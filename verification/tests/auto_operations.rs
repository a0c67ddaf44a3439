use micro_sp::auto_operation_driver::{auto_operation_tick, AutoOperationRunner};
use micro_sp::operation::Operation;
use micro_sp::predicate::{Predicate, SPWrapped};
use micro_sp::sop::Model;
use micro_sp::state::{SPAssignment, SPVariable, State};
use micro_sp::state_init::generate_operation_state_variables;
use micro_sp::transition::{Action, Transition};
use micro_sp::value::{SPValueType, ToSPValue};

const SP: &str = "sp";
const TARGET: &str = "test";

fn var(name: &str) -> SPVariable {
    SPVariable::new(name, SPValueType::Bool)
}

fn equals(name: &str, value: bool) -> Predicate {
    Predicate::EQ(SPWrapped::SPVariable(var(name)), SPWrapped::SPValue(value.to_spvalue()))
}

/// Starts when `flag` is false, setting it; completes once it is set.
fn auto_op(name: &str, flag: &str) -> Operation {
    Operation::new(
        name,
        Some(10_000),
        Some(10_000),
        None,
        None,
        false,
        vec![Transition::new(
            "start",
            equals(flag, false),
            Predicate::TRUE,
            vec![Action::new(var(flag), SPWrapped::SPValue(true.to_spvalue()))],
            vec![],
        )],
        vec![Transition::new("complete", equals(flag, true), Predicate::TRUE, vec![], vec![])],
        vec![],
        vec![],
        vec![],
        vec![],
    )
}

fn world(model: &Model, flags: &[&str]) -> State {
    let mut state = generate_operation_state_variables(model, false, TARGET);
    for flag in flags {
        state.add_mut(SPAssignment::new(var(flag), false.to_spvalue()), TARGET);
    }
    state.add_mut(
        SPAssignment::new(
            SPVariable::new(&format!("{SP}_dashboard_command"), SPValueType::String),
            "none".to_spvalue(),
        ),
        TARGET,
    );
    state
}

fn is_copy_of(name: &str, template: &str) -> bool {
    let prefix = format!("{template}_");
    name.starts_with(&prefix)
        && name.len() == prefix.len() + 10
        && name[prefix.len()..].chars().all(|c| c.is_ascii_alphanumeric())
}

#[test]
fn an_enabled_automatic_operation_starts_runs_and_is_cleaned_up() {
    let model = Model::new("m", vec![], vec![auto_op("flip", "flag")], vec![], vec![], vec![]);
    let mut runner = AutoOperationRunner::new();
    let state = world(&model, &["flag"]);

    // First tick: a copy starts and takes its start transition.
    let first = auto_operation_tick(SP, &model, &mut runner, &state, 10, TARGET);
    assert!(first.keys_changed);
    assert!(first.removed.is_empty());
    assert_eq!(first.active_operations.len(), 1);
    let copy = first.active_operations[0].clone();
    assert!(is_copy_of(&copy, "op_flip"), "{copy}");
    assert_eq!(first.state.get_value("flag", TARGET), Some(true.to_spvalue()));
    assert_eq!(first.state.get_string_or_default_to_unknown(&copy, TARGET), "executing");
    // The template itself stays as it was.
    assert_eq!(first.state.get_string_or_default_to_unknown("op_flip", TARGET), "initial");

    // Second tick: nothing new starts (the guard is false now); the copy completes.
    let second = auto_operation_tick(SP, &model, &mut runner, &first.state, 10, TARGET);
    assert!(!second.keys_changed);
    assert_eq!(second.active_operations, vec![copy.clone()]);
    assert_eq!(second.state.get_string_or_default_to_unknown(&copy, TARGET), "completed");

    // Third tick: the copy terminates, is dropped, and its variables are listed for deletion.
    let third = auto_operation_tick(SP, &model, &mut runner, &second.state, 10, TARGET);
    assert!(third.keys_changed);
    assert!(third.active_operations.is_empty());
    for suffix in [
        "",
        "_information",
        "_elapsed_executing_ms",
        "_elapsed_disabled_ms",
        "_failure_retry_counter",
        "_timeout_retry_counter",
    ] {
        let key = format!("{copy}{suffix}");
        assert!(third.removed.contains(&key), "{key} should be deleted");
    }
    assert_eq!(third.removed.len(), 6);
}

#[test]
fn a_running_copy_blocks_a_second_copy_of_the_same_template() {
    // The guard stays true: `flag` is never set by the start transition.
    let op = Operation::new(
        "steady",
        None,
        None,
        None,
        None,
        false,
        vec![Transition::new("start", equals("gate", true), Predicate::TRUE, vec![], vec![])],
        vec![Transition::new("complete", equals("gate", false), Predicate::TRUE, vec![], vec![])],
        vec![],
        vec![],
        vec![],
        vec![],
    );
    let model = Model::new("m", vec![], vec![op], vec![], vec![], vec![]);
    let mut runner = AutoOperationRunner::new();
    let state = world(&model, &["gate"]).update("gate", true.to_spvalue());
    let first = auto_operation_tick(SP, &model, &mut runner, &state, 10, TARGET);
    assert_eq!(first.active_operations.len(), 1);
    let second = auto_operation_tick(SP, &model, &mut runner, &first.state, 10, TARGET);
    assert_eq!(second.active_operations, first.active_operations);
    assert!(!second.keys_changed);
}

#[test]
fn only_one_mutually_exclusive_operation_runs_at_a_time() {
    let model = Model::new(
        "m",
        vec![],
        vec![],
        vec![auto_op("left", "l"), auto_op("right", "r")],
        vec![],
        vec![],
    );
    let mut runner = AutoOperationRunner::new();
    let state = world(&model, &["l", "r"]);
    let first = auto_operation_tick(SP, &model, &mut runner, &state, 10, TARGET);
    // Both may start, but only the first one listed does.
    assert_eq!(first.active_operations.len(), 1);
    assert!(is_copy_of(&first.active_operations[0], "op_left"));
    assert_eq!(first.state.get_value("l", TARGET), Some(true.to_spvalue()));
    assert_eq!(first.state.get_value("r", TARGET), Some(false.to_spvalue()));
    // While it runs, the other one waits.
    let second = auto_operation_tick(SP, &model, &mut runner, &first.state, 10, TARGET);
    assert_eq!(second.active_operations, first.active_operations);
    let third = auto_operation_tick(SP, &model, &mut runner, &second.state, 10, TARGET);
    assert!(third.active_operations.is_empty());
    // Once it has terminated, the next one starts.
    let fourth = auto_operation_tick(SP, &model, &mut runner, &third.state, 10, TARGET);
    assert_eq!(fourth.active_operations.len(), 1);
    assert!(is_copy_of(&fourth.active_operations[0], "op_right"));
}

#[test]
fn with_nothing_enabled_a_tick_changes_nothing() {
    let model = Model::new("m", vec![], vec![auto_op("flip", "flag")], vec![], vec![], vec![]);
    let mut runner = AutoOperationRunner::new();
    let state = world(&model, &["flag"]).update("flag", true.to_spvalue());
    let out = auto_operation_tick(SP, &model, &mut runner, &state, 10, TARGET);
    assert!(!out.keys_changed);
    assert!(out.active_operations.is_empty());
    assert!(out.removed.is_empty());
    assert_eq!(out.state.len(), state.len());
    for name in state.names() {
        assert_eq!(out.state.get_value(&name, TARGET), state.get_value(&name, TARGET));
    }
}
