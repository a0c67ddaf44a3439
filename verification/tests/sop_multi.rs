use micro_sp::operation::Operation;
use micro_sp::predicate::{Predicate, SPWrapped};
use micro_sp::runner_keys::model_variable_keys;
use micro_sp::sop::{Model, SOPStruct, SOP};
use micro_sp::sop_multi::{generate_multi_sop_state_variables, publish, sop_multi_runner_static_keys};
use micro_sp::state::{SPVariable, State};
use micro_sp::transition::{Action, Transition};
use micro_sp::value::{SPValueType, ToSPValue};
use std::collections::HashSet;

const SP: &str = "sp";
const TARGET: &str = "test";

fn flag(name: &str) -> SPVariable {
    SPVariable::new(name, SPValueType::Bool)
}

fn operation(name: &str, f: &str) -> Operation {
    Operation::new(
        name,
        None,
        None,
        None,
        None,
        false,
        vec![Transition::new(
            "start",
            Predicate::EQ(SPWrapped::SPVariable(flag(f)), SPWrapped::SPValue(false.to_spvalue())),
            Predicate::TRUE,
            vec![Action::new(flag(f), SPWrapped::SPValue(true.to_spvalue()))],
            vec![],
        )],
        vec![Transition::new(
            "complete",
            Predicate::EQ(SPWrapped::SPVariable(flag(f)), SPWrapped::SPValue(true.to_spvalue())),
            Predicate::TRUE,
            vec![],
            vec![],
        )],
        vec![],
        vec![],
        vec![],
        vec![],
    )
}

fn sops() -> Vec<SOPStruct> {
    vec![
        SOPStruct {
            id: "sop_alpha".to_string(),
            sop: SOP::Sequence(vec![SOP::Operation(Box::new(operation("alpha", "a")))]),
        },
        SOPStruct {
            id: "sop_beta".to_string(),
            sop: SOP::Sequence(vec![SOP::Operation(Box::new(operation("beta", "b")))]),
        },
    ]
}

#[test]
fn the_static_key_set_covers_every_per_sop_key_and_every_model_variable() {
    let model = Model::new(SP, vec![], vec![], vec![], sops(), vec![]);
    let keys = sop_multi_runner_static_keys(SP, &model);

    let mut sorted = keys.clone();
    sorted.sort_unstable();
    sorted.dedup();
    assert_eq!(keys, sorted, "key sets must be sorted and deduplicated");

    let keys: HashSet<String> = keys.into_iter().collect();
    for key in [
        "sp_dashboard_command",
        "sp_sop_runner_information",
        "sop_alpha_sop_enabled",
        "sop_alpha_sop_state",
        "sop_alpha_sop_information",
        "sop_beta_sop_enabled",
        "sop_beta_sop_state",
        "sop_beta_sop_information",
    ] {
        assert!(keys.contains(key), "the static key set is missing '{key}'");
    }
    for key in model_variable_keys(&model) {
        assert!(keys.contains(&key), "missing model variable '{key}'");
    }
    for key in ["sp_sop_id", "sp_sop_enabled", "sp_sop_state"] {
        assert!(
            !keys.contains(key),
            "the multi runner must not read the single-SOP key '{key}'"
        );
    }
}

#[test]
fn the_seeding_helper_creates_the_request_and_status_variables() {
    let sops = vec![SOPStruct {
        id: "sop_alpha".to_string(),
        sop: SOP::Sequence(vec![SOP::Operation(Box::new(operation("alpha", "a")))]),
    }];
    let state = generate_multi_sop_state_variables(&sops, TARGET);

    assert_eq!(state.get_value("sop_alpha_sop_enabled", TARGET), Some(false.to_spvalue()));
    assert_eq!(state.get_value("sop_alpha_sop_state", TARGET), Some("initial".to_spvalue()));
    assert!(
        !state.contains("sop_alpha_sop_information"),
        "`_sop_information` is generate_operation_state_variables' job"
    );
}

#[test]
fn publishing_creates_a_missing_variable_and_overwrites_an_existing_one() {
    let mut state = State::new();
    publish(&mut state, "x", "one".to_spvalue(), TARGET);
    assert_eq!(state.get_value("x", TARGET), Some("one".to_spvalue()));
    publish(&mut state, "x", "two".to_spvalue(), TARGET);
    assert_eq!(state.get_value("x", TARGET), Some("two".to_spvalue()));
    assert_eq!(state.len(), 1);
}
