use micro_sp::operation::Operation;
use micro_sp::predicate::{Predicate, SPWrapped};
use micro_sp::runner_keys::{auto_operation_runner_static_keys, plan_runner_static_keys, sop_runner_static_keys};
use micro_sp::sop::{Model, SOPStruct, SOP};
use micro_sp::state::{SPAssignment, SPVariable, State};
use micro_sp::state_init::{
    add_operation_meta_tracking_variables, all_values_to_unknown, generate_operation_state_variables,
    generate_runner_state_variables, get_all_operations_from_sop, now_as_millis_i64, reset_all_operations,
};
use micro_sp::transition::{Action, Transition};
use micro_sp::value::{
    ArrayOrUnknown, BoolOrUnknown, FloatOrUnknown, IntOrUnknown, MapOrUnknown, SPTransform,
    SPTransformStamped, SPValue, SPValueType, StringOrUnknown, TimeOrUnknown, ToSPValue,
    TransformOrUnknown,
};

const SP: &str = "sp";
const TARGET: &str = "test";

fn domain() -> State {
    State::from_vec(&vec![
        (SPVariable::new("a", SPValueType::Bool), false.to_spvalue()),
        (SPVariable::new("b", SPValueType::Bool), false.to_spvalue()),
    ])
}

fn flag(name: &str) -> SPVariable {
    SPVariable::new(name, SPValueType::Bool)
}

fn operation(name: &str, f: &str) -> Operation {
    Operation::new(
        name,
        None,
        None,
        None,
        None,
        false,
        vec![Transition::new(
            "start",
            Predicate::EQ(SPWrapped::SPVariable(flag(f)), SPWrapped::SPValue(false.to_spvalue())),
            Predicate::TRUE,
            vec![Action::new(flag(f), SPWrapped::SPValue(true.to_spvalue()))],
            vec![],
        )],
        vec![Transition::new(
            "complete",
            Predicate::EQ(SPWrapped::SPVariable(flag(f)), SPWrapped::SPValue(true.to_spvalue())),
            Predicate::TRUE,
            vec![],
            vec![],
        )],
        vec![],
        vec![],
        vec![],
        vec![],
    )
}

fn model() -> Model {
    Model::new(
        SP,
        vec![Transition::new(
            "beat",
            Predicate::EQ(SPWrapped::SPVariable(flag("a")), SPWrapped::SPValue(false.to_spvalue())),
            Predicate::TRUE,
            vec![Action::new(flag("a"), SPWrapped::SPValue(true.to_spvalue()))],
            vec![],
        )],
        vec![operation("auto", "a")],
        vec![operation("mutexed", "b")],
        vec![SOPStruct {
            id: "the_sop".to_string(),
            sop: SOP::Sequence(vec![SOP::Operation(Box::new(operation("in_sop", "a")))]),
        }],
        vec![operation("planned", "b")],
    )
}

#[test]
fn test_model() {
    let _ = generate_runner_state_variables("asdf", 1, "test");
}

#[test]
fn initialisation_covers_every_key_the_runners_read() {
    let domain = domain();
    let model = model();

    let mut state = generate_runner_state_variables(SP, 2, TARGET);
    state.extend_mut(generate_operation_state_variables(&model, false, TARGET), true);
    state.extend_mut(domain, true);
    state.add_mut(
        SPAssignment::new(
            SPVariable::new(&format!("{SP}_dashboard_command"), SPValueType::String),
            "none".to_spvalue(),
        ),
        TARGET,
    );

    for (label, keys) in [
        ("sop_runner", sop_runner_static_keys(SP, &model)),
        ("auto_operation_runner", auto_operation_runner_static_keys(SP, &model)),
        ("plan_runner", plan_runner_static_keys(SP, &model)),
    ] {
        let missing: Vec<&String> = keys.iter().filter(|k| !state.contains(k)).collect();
        assert!(
            missing.is_empty(),
            "{label} reads keys that initialisation does not create: {missing:?}"
        );
    }
}

#[test]
fn every_operation_in_the_model_gets_a_state_variable() {
    let model = model();
    let state = generate_operation_state_variables(&model, false, TARGET);

    for name in ["op_planned", "op_auto", "op_mutexed", "in_sop"] {
        assert!(state.contains(name), "{name} has no state variable");
        assert_eq!(
            state.get_value(name, TARGET),
            Some("initial".to_spvalue()),
            "{name} should start in 'initial'"
        );
    }
    assert!(state.contains("the_sop_sop_information"));
}

#[test]
fn coverability_tracking_adds_transition_counters() {
    let model = model();

    let without = generate_operation_state_variables(&model, false, TARGET);
    let with = generate_operation_state_variables(&model, true, TARGET);

    assert!(!without.contains("transition_beat_taken"));
    assert!(with.contains("transition_beat_taken"));
    assert_eq!(with.get_value("transition_beat_taken", TARGET), Some(0i64.to_spvalue()));
}

#[test]
fn the_timer_variables_match_the_number_of_timers() {
    let two = generate_runner_state_variables(SP, 2, TARGET);

    for timer in 1..=2 {
        for suffix in ["request_trigger", "request_state", "command", "duration_ms", "elapsed_ms"] {
            let key = format!("{SP}_timer_{timer}_{suffix}");
            assert!(two.contains(&key), "{key} missing");
        }
    }
    assert!(!two.contains(&format!("{SP}_timer_3_request_trigger")));

    let none = generate_runner_state_variables(SP, 0, TARGET);
    assert!(!none.contains(&format!("{SP}_timer_1_request_trigger")));
}

#[test]
fn the_runner_variables_start_where_they_should() {
    let state = generate_runner_state_variables(SP, 1, TARGET);
    assert_eq!(state.get_value("empty", TARGET), Some(SPValue::Bool(BoolOrUnknown::UNKNOWN)));
    assert_eq!(state.get_value("sp_sop_current_step", TARGET), Some(0i64.to_spvalue()));
    assert_eq!(state.get_value("sp_tf_request_state", TARGET), Some("initial".to_spvalue()));
    assert_eq!(state.get_value("sp_timer_1_request_trigger", TARGET), Some(false.to_spvalue()));
    assert_eq!(state.get_value("sp_plan", TARGET), Some(SPValue::Array(ArrayOrUnknown::UNKNOWN)));
    assert_eq!(state.get_value("state_manager_online", TARGET), Some(SPValue::Bool(BoolOrUnknown::UNKNOWN)));
    assert_eq!(state.get_value("sp_dashboard_command", TARGET), Some(SPValue::String(StringOrUnknown::UNKNOWN)));
}

#[test]
fn the_operation_meta_variables_are_all_created() {
    let ops = vec!["op_one".to_string(), "op_two".to_string()];
    let state = add_operation_meta_tracking_variables(&ops, &State::new(), false, TARGET);

    for op in &ops {
        for suffix in [
            "_information",
            "_elapsed_executing_ms",
            "_elapsed_disabled_ms",
            "_failure_retry_counter",
            "_timeout_retry_counter",
        ] {
            assert!(state.contains(&format!("{op}{suffix}")), "{op}{suffix} missing");
        }
    }

    assert_eq!(state.get_int_or_default_to_zero("op_one_elapsed_executing_ms", TARGET), 0);

    let covered = add_operation_meta_tracking_variables(&ops, &State::new(), true, TARGET);
    assert!(covered.contains("op_one_visited_executing"));
    assert!(!state.contains("op_one_visited_executing"));
}

#[test]
fn all_values_to_unknown_clears_values_but_keeps_the_variables() {
    let state = State::from_vec(&vec![
        (SPVariable::new("b", SPValueType::Bool), true.to_spvalue()),
        (SPVariable::new("i", SPValueType::Int64), 7i64.to_spvalue()),
        (
            SPVariable::new("f", SPValueType::Float64),
            SPValue::Float64(FloatOrUnknown::Float64(1.5f64.to_bits())),
        ),
        (SPVariable::new("s", SPValueType::String), "x".to_spvalue()),
        (
            SPVariable::new("arr", SPValueType::Array),
            vec![1i64.to_spvalue()].to_spvalue(),
        ),
        (
            SPVariable::new("map", SPValueType::Mapping),
            vec![("k".to_spvalue(), "v".to_spvalue())].to_spvalue(),
        ),
        (
            SPVariable::new("t", SPValueType::Time),
            SPValue::Time(TimeOrUnknown::Time(now_as_millis_i64())),
        ),
        (
            SPVariable::new("tf", SPValueType::Transform),
            SPValue::Transform(TransformOrUnknown::Transform(SPTransformStamped {
                active_transform: true,
                enable_transform: true,
                time_stamp: now_as_millis_i64(),
                parent_frame_id: "world".to_string(),
                child_frame_id: "robot".to_string(),
                transform: SPTransform {
                    translation_x: 0,
                    translation_y: 0,
                    translation_z: 0,
                    rotation_x: 0,
                    rotation_y: 0,
                    rotation_z: 0,
                    rotation_w: 1.0f64.to_bits(),
                },
            })),
        ),
    ]);

    let cleared = all_values_to_unknown(&state);

    assert_eq!(cleared.len(), state.len(), "nothing is removed");
    let expected = [
        ("b", SPValue::Bool(BoolOrUnknown::UNKNOWN)),
        ("i", SPValue::Int64(IntOrUnknown::UNKNOWN)),
        ("f", SPValue::Float64(FloatOrUnknown::UNKNOWN)),
        ("s", SPValue::String(StringOrUnknown::UNKNOWN)),
        ("arr", SPValue::Array(ArrayOrUnknown::UNKNOWN)),
        ("map", SPValue::Mapping(MapOrUnknown::UNKNOWN)),
        ("t", SPValue::Time(TimeOrUnknown::UNKNOWN)),
        ("tf", SPValue::Transform(TransformOrUnknown::UNKNOWN)),
    ];
    for (name, unknown) in expected {
        assert_eq!(
            cleared.get_value(name, TARGET),
            Some(unknown),
            "{name} should have been cleared to its type's UNKNOWN"
        );
    }
}

#[test]
fn get_all_operations_from_sop_reaches_every_leaf() {
    let tree = SOP::Sequence(vec![
        SOP::Operation(Box::new(operation("one", "a"))),
        SOP::Parallel(vec![
            SOP::Operation(Box::new(operation("two", "b"))),
            SOP::Alternative(vec![SOP::Operation(Box::new(operation("three", "a")))]),
        ]),
    ]);

    let names: Vec<String> = get_all_operations_from_sop(&tree)
        .iter()
        .map(|o| o.name.clone())
        .collect();
    assert_eq!(names, vec!["one", "two", "three"]);

    assert!(get_all_operations_from_sop(&SOP::Sequence(vec![])).is_empty());
}

#[test]
fn reset_all_operations_resets_operations_and_request_interfaces() {
    let model = model();

    let mut state = generate_operation_state_variables(&model, false, TARGET);
    state = state.update("op_planned", "executing".to_spvalue());
    state.add_mut(
        SPAssignment::new(
            SPVariable::new("op_planned_A1b2C3d4E5", SPValueType::String),
            "failed".to_spvalue(),
        ),
        TARGET,
    );
    state.add_mut(
        SPAssignment::new(
            SPVariable::new("op_planned_A1b2C3d4E5_information", SPValueType::String),
            "keep me".to_spvalue(),
        ),
        TARGET,
    );
    state.add_mut(
        SPAssignment::new(
            SPVariable::new("gripper_request_state", SPValueType::String),
            "succeeded".to_spvalue(),
        ),
        TARGET,
    );
    state.add_mut(
        SPAssignment::new(
            SPVariable::new("gripper_request_trigger", SPValueType::Bool),
            true.to_spvalue(),
        ),
        TARGET,
    );

    let reset = reset_all_operations(&state, &model);

    assert_eq!(reset.get_value("op_planned", TARGET), Some("initial".to_spvalue()));
    assert_eq!(
        reset.get_value("op_planned_A1b2C3d4E5", TARGET),
        Some("initial".to_spvalue()),
        "running instances of the operation are reset too"
    );
    assert_eq!(
        reset.get_value("op_planned_A1b2C3d4E5_information", TARGET),
        Some("keep me".to_spvalue()),
        "the bookkeeping variables are excluded by suffix"
    );
    assert_eq!(
        reset.get_value("gripper_request_state", TARGET),
        Some("initial".to_spvalue())
    );
    assert_eq!(
        reset.get_value("gripper_request_trigger", TARGET),
        Some(false.to_spvalue())
    );
}

#[test]
fn reset_all_operations_does_not_reset_a_sops_operations() {
    let model = model();

    let mut state = generate_operation_state_variables(&model, false, TARGET);
    state = state.update("in_sop", "terminated_completed".to_spvalue());

    let reset = reset_all_operations(&state, &model);

    assert_eq!(
        reset.get_value("in_sop", TARGET),
        Some("initial".to_spvalue()),
        "every operation of a SOP's tree is reset"
    );
}

#[test]
fn now_as_millis_returns_a_plausible_wall_clock() {
    let first = micro_sp::state_init::now_as_millis_i64();
    let start = std::time::Instant::now();
    while start.elapsed() < std::time::Duration::from_millis(5) {}
    let second = micro_sp::state_init::now_as_millis_i64();

    // Some time after 2020-01-01, which is when the error fallback of 0
    // would be obvious.
    assert!(first > 1_577_836_800_000, "got {first}");
    assert!(second >= first, "time went backwards: {first} -> {second}");
}
