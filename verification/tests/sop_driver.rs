use micro_sp::operation::Operation;
use micro_sp::predicate::{Predicate, SPWrapped};
use micro_sp::render::visualize_sop;
use micro_sp::runner_states::SOPState;
use micro_sp::sop::{Model, SOPStruct, SOP};
use micro_sp::sop_driver::{sop_runner_tick, SopRunner};
use micro_sp::sop_runner::uniquify_sop_operations;
use micro_sp::state::{SPAssignment, SPVariable, State};
use micro_sp::state_init::generate_operation_state_variables;
use micro_sp::transition::{Action, Transition};
use micro_sp::value::{SPValueType, ToSPValue};

const SP: &str = "sp";
const TARGET: &str = "test";
const SOP_ID: &str = "sop1";

fn var(name: &str) -> SPVariable {
    SPVariable::new(name, SPValueType::Bool)
}

fn equals(name: &str, value: bool) -> Predicate {
    Predicate::EQ(SPWrapped::SPVariable(var(name)), SPWrapped::SPValue(value.to_spvalue()))
}

fn step(name: &str, flag: &str) -> Operation {
    Operation::new(
        name,
        None,
        None,
        None,
        None,
        false,
        vec![Transition::new(
            "start",
            equals(flag, false),
            Predicate::TRUE,
            vec![Action::new(var(flag), SPWrapped::SPValue(true.to_spvalue()))],
            vec![],
        )],
        vec![Transition::new("complete", equals(flag, true), Predicate::TRUE, vec![], vec![])],
        vec![],
        vec![],
        vec![],
        vec![],
    )
}

fn tree() -> SOP {
    SOP::Sequence(vec![
        SOP::Operation(Box::new(step("a", "fa"))),
        SOP::Operation(Box::new(step("b", "fb"))),
    ])
}

fn model() -> Model {
    Model::new("m", vec![], vec![], vec![], vec![SOPStruct { id: SOP_ID.to_string(), sop: tree() }], vec![])
}

fn string_var(state: &mut State, name: &str, value: &str) {
    state.add_mut(SPAssignment::new(SPVariable::new(name, SPValueType::String), value.to_spvalue()), TARGET);
}

fn world(model: &Model, enabled: bool) -> State {
    let mut state = generate_operation_state_variables(model, false, TARGET);
    for flag in ["fa", "fb"] {
        state.add_mut(SPAssignment::new(var(flag), false.to_spvalue()), TARGET);
    }
    string_var(&mut state, &format!("{SP}_sop_state"), "initial");
    string_var(&mut state, &format!("{SP}_sop_id"), SOP_ID);
    string_var(&mut state, &format!("{SP}_dashboard_command"), "none");
    state.add_mut(SPAssignment::new(var(&format!("{SP}_sop_enabled")), enabled.to_spvalue()), TARGET);
    if !state.contains(&format!("{SOP_ID}_sop_information")) {
        string_var(&mut state, &format!("{SOP_ID}_sop_information"), "");
    }
    state
}

fn text(state: &State, key: &str) -> String {
    state.get_string_or_default_to_unknown(key, TARGET)
}

#[test]
fn uniquified_operations_get_fresh_names_and_keep_the_rest() {
    let template = tree();
    let unique = uniquify_sop_operations(tree());
    let (SOP::Sequence(a), SOP::Sequence(b)) = (&template, &unique) else {
        panic!("the shape must be kept");
    };
    assert_eq!(a.len(), b.len());
    for (x, y) in a.iter().zip(b.iter()) {
        let (SOP::Operation(x), SOP::Operation(y)) = (x, y) else {
            panic!("leaves stay leaves");
        };
        let prefix = format!("op_{}_", x.name);
        assert!(y.name.starts_with(&prefix), "{}", y.name);
        assert_eq!(y.name.len(), prefix.len() + 10);
        assert_eq!(x.preconditions, y.preconditions);
        assert_eq!(x.postconditions, y.postconditions);
    }
    // Two runs never share names.
    let again = uniquify_sop_operations(tree());
    assert_ne!(unique, again);
}

#[test]
fn a_tree_is_drawn_one_node_per_line() {
    let drawn = visualize_sop(&SOP::Parallel(vec![
        tree(),
        SOP::Alternative(vec![SOP::Operation(Box::new(step("c", "fc")))]),
    ]));
    assert_eq!(drawn, "parallel\n  sequence\n    a\n    b\n  alternative\n    c\n");
}

#[test]
fn a_disabled_sop_is_left_alone() {
    let model = model();
    let mut runner = SopRunner::new();
    let state = world(&model, false);
    let out = sop_runner_tick(SP, &model, &mut runner, &state, 10, TARGET);
    assert!(!out.write);
    assert!(runner.active_id.is_none());
    assert!(out.active_operations.is_empty());
}

#[test]
fn an_unknown_sop_id_is_skipped() {
    let model = model();
    let mut runner = SopRunner::new();
    let state = world(&model, true).update(&format!("{SP}_sop_id"), "nope".to_spvalue());
    let out = sop_runner_tick(SP, &model, &mut runner, &state, 10, TARGET);
    assert!(!out.write);
    assert!(runner.active_id.is_none());
}

#[test]
fn an_enabled_sop_runs_to_completion_and_is_released() {
    let model = model();
    let mut runner = SopRunner::new();
    let state = world(&model, true);

    // Activation.
    let first = sop_runner_tick(SP, &model, &mut runner, &state, 10, TARGET);
    assert!(first.write && first.keys_changed);
    let run_id = runner.active_id.clone().expect("a run has started");
    assert!(run_id.starts_with("sop1_") && run_id.len() == "sop1_".len() + 10);
    assert_eq!(first.active_operations.len(), 2);
    assert!(first.active_operations[0].starts_with("op_a_"));
    assert!(first.active_operations[1].starts_with("op_b_"));
    assert_eq!(first.state.get_value(&format!("{SP}_sop_enabled"), TARGET), Some(false.to_spvalue()));
    assert_eq!(text(&first.state, "sop1_sop_information"), "SOP 'sop1' is enabled, starting execution.");
    for op in &first.active_operations {
        assert_eq!(text(&first.state, op), "initial");
        assert!(first.state.contains(&format!("{op}_information")));
    }

    // The run is reported and starts executing.
    let second = sop_runner_tick(SP, &model, &mut runner, &first.state, 10, TARGET);
    assert_eq!(runner.active_state, SOPState::Executing);
    let expected = format!(
        "Initializing a new SOP '{run_id}':\nsequence\n  {}\n  {}\n",
        first.active_operations[0], first.active_operations[1]
    );
    assert_eq!(text(&second.state, "sop1_sop_information"), expected);

    // Drive it until the root is no longer executing.
    let mut state = second.state;
    let mut ticks = 0;
    while runner.active_state == SOPState::Executing {
        let out = sop_runner_tick(SP, &model, &mut runner, &state, 10, TARGET);
        assert_eq!(text(&out.state, &format!("{SP}_sop_state")), "executing");
        state = out.state;
        ticks += 1;
        assert!(ticks < 20, "the SOP should finish");
    }
    assert_eq!(runner.active_state, SOPState::Completed);
    assert_eq!(text(&state, "sop1_sop_information"), format!("Completing SOP '{run_id}'."));
    assert_eq!(state.get_value("fa", TARGET), Some(true.to_spvalue()));
    assert_eq!(state.get_value("fb", TARGET), Some(true.to_spvalue()));

    // Release.
    let last = sop_runner_tick(SP, &model, &mut runner, &state, 10, TARGET);
    assert!(runner.active_id.is_none() && runner.active_sop.is_none());
    assert_eq!(runner.active_state, SOPState::Initial);
    assert!(last.keys_changed);
    assert_eq!(text(&last.state, &format!("{SP}_sop_state")), "completed");
    assert_eq!(text(&last.state, "sop1_sop_information"), format!("Completed SOP '{run_id}'."));
    assert_eq!(last.removed.len(), 18);
    assert!(last.removed.contains(&format!("op_{run_id}")));
    assert!(last.removed.contains(&first.active_operations[0]));
    assert!(last.removed.contains(&format!("{}_timeout_retry_counter", first.active_operations[1])));
}
