use micro_sp::operation::Operation;
use micro_sp::predicate::{Predicate, SPWrapped};
use micro_sp::runner_states::SOPState;
use micro_sp::sop::{Model, SOPStruct, SOP};
use micro_sp::sop_multi::generate_multi_sop_state_variables;
use micro_sp::sop_multi_driver::{sop_multi_tick, ActiveSop};
use micro_sp::state::{SPAssignment, SPVariable, State};
use micro_sp::state_init::generate_operation_state_variables;
use micro_sp::transition::{Action, Transition};
use micro_sp::value::{SPValueType, ToSPValue};

const SP: &str = "sp";
const TARGET: &str = "test";

fn var(name: &str) -> SPVariable {
    SPVariable::new(name, SPValueType::Bool)
}

fn equals(name: &str, value: bool) -> Predicate {
    Predicate::EQ(SPWrapped::SPVariable(var(name)), SPWrapped::SPValue(value.to_spvalue()))
}

fn step(name: &str, flag: &str) -> Operation {
    Operation::new(
        name,
        None,
        None,
        None,
        None,
        false,
        vec![Transition::new(
            "start",
            equals(flag, false),
            Predicate::TRUE,
            vec![Action::new(var(flag), SPWrapped::SPValue(true.to_spvalue()))],
            vec![],
        )],
        vec![Transition::new("complete", equals(flag, true), Predicate::TRUE, vec![], vec![])],
        vec![],
        vec![],
        vec![],
        vec![],
    )
}

fn sops() -> Vec<SOPStruct> {
    vec![
        SOPStruct { id: "left".to_string(), sop: SOP::Sequence(vec![SOP::Operation(Box::new(step("l", "fl")))]) },
        SOPStruct { id: "right".to_string(), sop: SOP::Sequence(vec![SOP::Operation(Box::new(step("r", "fr")))]) },
    ]
}

fn world(model: &Model) -> State {
    let mut state = generate_operation_state_variables(model, false, TARGET);
    state.extend_mut(generate_multi_sop_state_variables(&sops(), TARGET), true);
    for flag in ["fl", "fr"] {
        state.add_mut(SPAssignment::new(var(flag), false.to_spvalue()), TARGET);
    }
    state.add_mut(
        SPAssignment::new(SPVariable::new(&format!("{SP}_dashboard_command"), SPValueType::String), "none".to_spvalue()),
        TARGET,
    );
    state
}

fn text(state: &State, key: &str) -> String {
    state.get_string_or_default_to_unknown(key, TARGET)
}

#[test]
fn with_nothing_requested_nothing_is_written() {
    let model = Model::new("m", vec![], vec![], vec![], sops(), vec![]);
    let mut active: Vec<ActiveSop> = Vec::new();
    let out = sop_multi_tick(SP, &model, &mut active, &world(&model), 10, TARGET);
    assert!(!out.write);
    assert!(active.is_empty());
}

#[test]
fn two_sops_run_at_the_same_time_and_finish_independently() {
    let model = Model::new("m", vec![], vec![], vec![], sops(), vec![]);
    let mut active: Vec<ActiveSop> = Vec::new();
    let state = world(&model)
        .update("left_sop_enabled", true.to_spvalue())
        .update("right_sop_enabled", true.to_spvalue());

    let first = sop_multi_tick(SP, &model, &mut active, &state, 10, TARGET);
    assert!(first.write && first.keys_changed);
    assert_eq!(active.len(), 2);
    assert_eq!(active[0].template_id, "left");
    assert_eq!(active[1].template_id, "right");
    assert!(active.iter().all(|a| a.tracked_state == SOPState::Executing));
    assert_eq!(first.state.get_value("left_sop_enabled", TARGET), Some(false.to_spvalue()));
    assert_eq!(first.state.get_value("right_sop_enabled", TARGET), Some(false.to_spvalue()));
    assert_eq!(text(&first.state, "sp_sop_runner_information"), "2 SOP(s) active: left, right.");
    assert_eq!(first.active_operations.len(), 2);
    let left_id = active[0].unique_id.clone();
    assert!(text(&first.state, "left_sop_information").starts_with(&format!("Initializing a new SOP '{left_id}':\n")));
    // A run just started does not publish its state yet.
    assert_eq!(text(&first.state, "left_sop_state"), "initial");

    // Asking again while it runs is consumed and ignored.
    let again = first.state.update("left_sop_enabled", true.to_spvalue());
    let second = sop_multi_tick(SP, &model, &mut active, &again, 10, TARGET);
    assert_eq!(active.len(), 2);
    assert_eq!(second.state.get_value("left_sop_enabled", TARGET), Some(false.to_spvalue()));
    assert_eq!(text(&second.state, "left_sop_state"), "executing");

    let mut state = second.state;
    let mut ticks = 0;
    while !active.is_empty() {
        let out = sop_multi_tick(SP, &model, &mut active, &state, 10, TARGET);
        state = out.state;
        ticks += 1;
        assert!(ticks < 20, "both SOPs should finish");
    }
    assert_eq!(text(&state, "left_sop_state"), "completed");
    assert_eq!(text(&state, "right_sop_state"), "completed");
    assert_eq!(text(&state, "left_sop_information"), format!("Completed SOP '{left_id}'."));
    assert_eq!(text(&state, "sp_sop_runner_information"), "No SOPs active.");
}
