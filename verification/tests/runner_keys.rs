use micro_sp::operation::Operation;
use micro_sp::predicate::{Predicate, SPWrapped};
use micro_sp::runner_keys::{
    auto_operation_runner_static_keys, keys_with_active_operations, model_variable_keys, normalize_keys,
    plan_runner_static_keys, push_operation_keys, sop_runner_static_keys,
};
use micro_sp::sop::{Model, SOPStruct, SOP};
use micro_sp::state::SPVariable;
use micro_sp::transition::{Action, Transition};
use micro_sp::value::{SPValueType, ToSPValue};
use std::collections::HashSet;

const SP_ID: &str = "sp";

fn var(name: &str, t: SPValueType) -> SPVariable {
    SPVariable::new(name, t)
}

fn eq_value(name: &str, t: SPValueType, v: micro_sp::value::SPValue) -> Predicate {
    Predicate::EQ(SPWrapped::SPVariable(var(name, t)), SPWrapped::SPValue(v))
}

fn assign(name: &str, t: SPValueType, rhs: SPWrapped) -> Action {
    Action::new(var(name, t), rhs)
}

fn t(name: &str, guard: Predicate, actions: Vec<Action>) -> Transition {
    Transition::new(name, guard, Predicate::TRUE, actions, vec![])
}

fn test_operation(name: &str) -> Operation {
    Operation::new(
        name,
        None,
        None,
        None,
        None,
        true,
        vec![t(
            "start",
            Predicate::AND(vec![
                eq_value("trigger", SPValueType::Bool, false.to_spvalue()),
                eq_value("action_state", SPValueType::String, "initial".to_spvalue()),
            ]),
            vec![assign("trigger", SPValueType::Bool, SPWrapped::SPValue(true.to_spvalue()))],
        )],
        vec![t(
            "complete",
            eq_value("action_state", SPValueType::String, "done".to_spvalue()),
            vec![
                assign("trigger", SPValueType::Bool, SPWrapped::SPValue(false.to_spvalue())),
                assign("pose", SPValueType::String, SPWrapped::SPVariable(var("rhs_source", SPValueType::String))),
            ],
        )],
        vec![t(
            "fail",
            eq_value("action_state", SPValueType::String, "failed".to_spvalue()),
            vec![assign("failed_marker", SPValueType::Bool, SPWrapped::SPValue(true.to_spvalue()))],
        )],
        vec![],
        vec![t(
            "bypass",
            Predicate::TRUE,
            vec![assign("bypassed_marker", SPValueType::Bool, SPWrapped::SPValue(true.to_spvalue()))],
        )],
        vec![t(
            "cancel",
            Predicate::TRUE,
            vec![assign("cancelled_marker", SPValueType::Bool, SPWrapped::SPValue(true.to_spvalue()))],
        )],
    )
}

fn test_model() -> Model {
    Model::new(
        SP_ID,
        vec![],
        vec![test_operation("auto_op")],
        vec![test_operation("mutexed_op")],
        vec![SOPStruct {
            id: "sop_one".to_string(),
            sop: SOP::Sequence(vec![SOP::Operation(Box::new(test_operation("sop_op")))]),
        }],
        vec![test_operation("planned_op")],
    )
}

#[test]
fn action_right_hand_side_variables_are_in_the_key_set() {
    let plain = t(
        "assign_from_variable",
        Predicate::TRUE,
        vec![assign("pose", SPValueType::String, SPWrapped::SPVariable(var("rhs_source", SPValueType::String)))],
    );
    let keys: HashSet<String> = plain.get_all_var_keys().into_iter().collect();
    assert!(keys.contains("pose"), "the action target must be included");
    assert!(
        keys.contains("rhs_source"),
        "the variable the action assigns *from* must be included"
    );

    let nested = Transition::new(
        "nested",
        Predicate::TRUE,
        Predicate::TRUE,
        vec![Action::new(
            var("collected", SPValueType::Array),
            SPWrapped::Array(vec![
                SPWrapped::SPVariable(var("rhs_in_array", SPValueType::String)),
                SPWrapped::SPValue("literal".to_spvalue()),
            ]),
        )],
        vec![Action::new(
            var("mapped", SPValueType::Mapping),
            SPWrapped::Mapping(vec![(
                SPWrapped::SPVariable(var("rhs_in_map_key", SPValueType::String)),
                SPWrapped::SPVariable(var("rhs_in_map_value", SPValueType::String)),
            )]),
        )],
    );
    let keys: HashSet<String> = nested.get_all_var_keys().into_iter().collect();
    for key in ["collected", "rhs_in_array", "mapped", "rhs_in_map_key", "rhs_in_map_value"] {
        assert!(keys.contains(key), "missing '{key}' from a nested right-hand side");
    }
}

#[test]
fn runner_key_sets_include_action_right_hand_side_variables() {
    let model = test_model();
    for (name, keys) in [
        ("sop_runner", sop_runner_static_keys(SP_ID, &model)),
        ("auto_operation_runner", auto_operation_runner_static_keys(SP_ID, &model)),
        ("plan_runner", plan_runner_static_keys(SP_ID, &model)),
    ] {
        let keys: HashSet<String> = keys.into_iter().collect();
        assert!(
            keys.contains("rhs_source"),
            "{name} is missing an action's right-hand side variable"
        );
    }
}

#[test]
fn every_runner_sees_every_model_variable() {
    let model = test_model();
    let model_keys: HashSet<String> = model_variable_keys(&model).into_iter().collect();

    for (name, keys) in [
        ("sop_runner", sop_runner_static_keys(SP_ID, &model)),
        ("auto_operation_runner", auto_operation_runner_static_keys(SP_ID, &model)),
        ("plan_runner", plan_runner_static_keys(SP_ID, &model)),
    ] {
        let keys: HashSet<String> = keys.into_iter().collect();
        for key in &model_keys {
            assert!(keys.contains(key), "{name} is missing model variable '{key}'");
        }
    }
}

#[test]
fn bypass_and_cancel_variables_are_in_the_key_set() {
    let op = test_operation("op");
    let keys: HashSet<String> = op.get_all_var_keys().into_iter().collect();

    assert!(
        keys.contains("bypassed_marker"),
        "variables only touched by a bypass transition must be included"
    );
    assert!(
        keys.contains("cancelled_marker"),
        "variables only touched by a cancel transition must be included"
    );
    assert!(keys.contains("trigger"));
    assert!(keys.contains("action_state"));
    assert!(keys.contains("pose"));
}

#[test]
fn key_sets_are_sorted_and_deduplicated() {
    let model = test_model();

    for keys in [
        sop_runner_static_keys(SP_ID, &model),
        auto_operation_runner_static_keys(SP_ID, &model),
        plan_runner_static_keys(SP_ID, &model),
    ] {
        let mut sorted = keys.clone();
        sorted.sort_unstable();
        sorted.dedup();
        assert_eq!(keys, sorted, "key sets must be sorted and deduplicated");
    }
}

#[test]
fn static_key_sets_cover_the_runner_variables_each_runner_reads() {
    let model = test_model();

    let sop_keys: HashSet<String> = sop_runner_static_keys(SP_ID, &model).into_iter().collect();
    for key in [
        "sp_sop_state",
        "sp_sop_enabled",
        "sp_sop_id",
        "sp_dashboard_command",
        "sop_one_sop_information",
        "trigger",
        "bypassed_marker",
    ] {
        assert!(sop_keys.contains(key), "sop_runner is missing '{key}'");
    }

    let auto_keys: HashSet<String> =
        auto_operation_runner_static_keys(SP_ID, &model).into_iter().collect();
    for key in ["sp_dashboard_command", "op_auto_op", "op_mutexed_op", "trigger", "bypassed_marker"] {
        assert!(auto_keys.contains(key), "auto runner is missing '{key}'");
    }

    let plan_keys: HashSet<String> = plan_runner_static_keys(SP_ID, &model).into_iter().collect();
    for key in [
        "sp_planner_state",
        "sp_current_goal_state",
        "sp_plan_state",
        "sp_plan_current_step",
        "sp_plan",
        "sp_terminated_operations",
        "sp_dashboard_command",
        "trigger",
        "bypassed_marker",
    ] {
        assert!(plan_keys.contains(key), "plan runner is missing '{key}'");
    }
}

#[test]
fn active_operation_keys_cover_the_bookkeeping_variables() {
    let keys: HashSet<String> =
        keys_with_active_operations(&[], &["op_x_abc".to_string()]).into_iter().collect();

    for key in [
        "op_x_abc",
        "op_x_abc_information",
        "op_x_abc_elapsed_executing_ms",
        "op_x_abc_elapsed_disabled_ms",
        "op_x_abc_failure_retry_counter",
        "op_x_abc_timeout_retry_counter",
    ] {
        assert!(keys.contains(key), "missing bookkeeping key '{key}'");
    }
}

#[test]
fn normalizing_sorts_by_bytes_and_drops_duplicates() {
    let keys = vec![
        "b".to_string(),
        "a_b".to_string(),
        "a".to_string(),
        "B".to_string(),
        "a".to_string(),
        "é".to_string(),
        "z".to_string(),
    ];
    let mut expected = keys.clone();
    expected.sort_unstable();
    expected.dedup();
    assert_eq!(normalize_keys(keys), expected);
}

#[test]
fn pushing_an_operation_adds_six_keys_in_order() {
    let mut keys = vec!["x".to_string()];
    push_operation_keys(&mut keys, "op");
    assert_eq!(
        keys,
        vec![
            "x",
            "op",
            "op_information",
            "op_elapsed_executing_ms",
            "op_elapsed_disabled_ms",
            "op_failure_retry_counter",
            "op_timeout_retry_counter",
        ]
    );
}
