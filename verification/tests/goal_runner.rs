use micro_sp::goal_tick::{goal_runner_keys, goal_tick, goal_tick_with_ids, incoming_goals_waiting};
use micro_sp::goals::{
    admit_goals, admit_goals_with_ids, goal_string_to_sp_value, goal_to_sp_value, sp_value_to_goal, Goal,
    GoalPriority, GoalState,
};
use micro_sp::state::{SPAssignment, SPVariable, State};
use micro_sp::value::{ArrayOrUnknown, SPValue, SPValueType, ToSPValue};

fn goal(id: &str, priority: GoalPriority, predicate: &str) -> Goal {
    Goal {
        id: id.to_string(),
        priority,
        predicate: predicate.to_string(),
    }
}

#[test]
fn a_goal_survives_the_round_trip() {
    for priority in [
        GoalPriority::Top,
        GoalPriority::High,
        GoalPriority::Normal,
        GoalPriority::Low,
    ] {
        let sent = goal("abc123", priority, "var:pos == c");
        let encoded = goal_to_sp_value(&sent);
        assert_eq!(sp_value_to_goal(&encoded), Ok(sent));
    }
}

#[test]
fn goal_string_to_sp_value_matches_goal_to_sp_value() {
    let from_string =
        goal_string_to_sp_value("abc123", &"var:x == true".to_string(), GoalPriority::High);
    let from_goal = goal_to_sp_value(&goal("abc123", GoalPriority::High, "var:x == true"));
    assert_eq!(from_string, from_goal);
}

#[test]
fn a_malformed_goal_is_rejected() {
    let cases: Vec<(&str, SPValue)> = vec![
        ("not an array", "just a string".to_spvalue()),
        ("an UNKNOWN array", SPValue::Array(ArrayOrUnknown::UNKNOWN)),
        ("too short", vec!["a".to_spvalue(), 1i64.to_spvalue()].to_spvalue()),
        (
            "too long",
            vec![
                "a".to_spvalue(),
                1i64.to_spvalue(),
                "p".to_spvalue(),
                "extra".to_spvalue(),
            ]
            .to_spvalue(),
        ),
        (
            "id of the wrong type",
            vec![1i64.to_spvalue(), 1i64.to_spvalue(), "p".to_spvalue()].to_spvalue(),
        ),
        (
            "priority of the wrong type",
            vec!["a".to_spvalue(), "high".to_spvalue(), "p".to_spvalue()].to_spvalue(),
        ),
        (
            "predicate of the wrong type",
            vec!["a".to_spvalue(), 1i64.to_spvalue(), 7i64.to_spvalue()].to_spvalue(),
        ),
    ];

    for (label, value) in cases {
        assert!(
            sp_value_to_goal(&value).is_err(),
            "{label} should have been rejected"
        );
    }
}

#[test]
fn each_rejection_says_why() {
    assert_eq!(
        sp_value_to_goal(&"x".to_spvalue()),
        Err("Expected SPValue::Array".to_string())
    );
    assert_eq!(
        sp_value_to_goal(&SPValue::Array(ArrayOrUnknown::UNKNOWN)),
        Err("Goal Array is UNKNOWN".to_string())
    );
    assert_eq!(
        sp_value_to_goal(&vec!["a".to_spvalue()].to_spvalue()),
        Err("Goal array expected length 3, found 1".to_string())
    );
    assert_eq!(
        sp_value_to_goal(&vec![1i64.to_spvalue(), 1i64.to_spvalue(), "p".to_spvalue()].to_spvalue()),
        Err("ID expected String".to_string())
    );
    assert_eq!(
        sp_value_to_goal(&vec!["a".to_spvalue(), "x".to_spvalue(), "p".to_spvalue()].to_spvalue()),
        Err("Priority expected Int64".to_string())
    );
    assert_eq!(
        sp_value_to_goal(&vec!["a".to_spvalue(), 1i64.to_spvalue(), 2i64.to_spvalue()].to_spvalue()),
        Err("Predicate expected String".to_string())
    );
}

#[test]
fn an_out_of_range_priority_becomes_low() {
    for out_of_range in [-1, 4, 99, i64::MAX] {
        assert_eq!(GoalPriority::from_int(&out_of_range), GoalPriority::Low);
    }
}

#[test]
fn priority_maps_between_int_string_and_variant() {
    let table = [
        (GoalPriority::Top, 0, "top"),
        (GoalPriority::High, 1, "high"),
        (GoalPriority::Normal, 2, "normal"),
        (GoalPriority::Low, 3, "low"),
    ];

    for (variant, int, text) in table {
        assert_eq!(variant.to_int(), int);
        assert_eq!(GoalPriority::from_int(&int), variant);
        assert_eq!(variant.to_string(), text);
        assert_eq!(GoalPriority::from_str(text), variant);
    }

    assert_eq!(GoalPriority::from_str("URGENT"), GoalPriority::Low);
    assert_eq!(GoalPriority::from_str(""), GoalPriority::Low);
}

#[test]
fn priorities_order_top_first() {
    let mut priorities = vec![
        GoalPriority::Low,
        GoalPriority::Top,
        GoalPriority::Normal,
        GoalPriority::High,
    ];
    priorities.sort();
    assert_eq!(
        priorities,
        vec![
            GoalPriority::Top,
            GoalPriority::High,
            GoalPriority::Normal,
            GoalPriority::Low
        ]
    );
}

#[test]
fn goal_state_round_trips_through_its_string_form() {
    for variant in [
        GoalState::Initial,
        GoalState::Executing,
        GoalState::Failed,
        GoalState::Cancelled,
        GoalState::Completed,
        GoalState::UNKNOWN,
    ] {
        let text = variant.to_string();
        assert_eq!(
            GoalState::from_str(&text),
            variant,
            "'{text}' must parse back to {variant:?}"
        );
        assert_eq!(variant.clone().to_spvalue(), text.to_spvalue());
    }
}

#[test]
fn an_unrecognised_goal_state_is_unknown() {
    for junk in ["", "Initial", "UNKNOWN", "nonsense"] {
        assert_eq!(GoalState::from_str(junk), GoalState::UNKNOWN, "{junk:?}");
    }
}

#[test]
fn an_unchanged_queue_is_returned_unchanged() {
    let queue = vec![
        goal("aaa", GoalPriority::Normal, "var:x == true"),
        goal("bbb", GoalPriority::Low, "var:y == true"),
    ];

    let once = admit_goals(queue.clone(), vec![]);
    let twice = admit_goals(once.clone(), vec![]);
    let thrice = admit_goals(twice.clone(), vec![]);

    assert_eq!(once, queue);
    assert_eq!(twice, once);
    assert_eq!(thrice, twice, "repeated ticks must not perturb the queue");
}

#[test]
fn admitted_goals_get_a_fresh_unique_id() {
    let incoming = vec![
        goal("", GoalPriority::Normal, "var:x == true"),
        goal("", GoalPriority::Normal, "var:y == true"),
    ];

    let queue = admit_goals(vec![], incoming);

    assert_eq!(queue.len(), 2);
    assert!(!queue[0].id.is_empty());
    assert!(!queue[1].id.is_empty());
    assert_ne!(queue[0].id, queue[1].id, "ids must be unique");
}

#[test]
fn incoming_ids_are_replaced_but_only_once() {
    let queue = admit_goals(
        vec![],
        vec![goal("caller_supplied", GoalPriority::Normal, "var:x == true")],
    );
    assert_eq!(queue.len(), 1);
    assert_ne!(queue[0].id, "caller_supplied");

    let assigned = queue[0].id.clone();
    let queue = admit_goals(queue, vec![]);
    assert_eq!(queue[0].id, assigned, "the id must survive the next tick");
}

#[test]
fn a_queued_goal_without_an_id_gets_one_and_keeps_it() {
    let queue = admit_goals(vec![goal("", GoalPriority::High, "var:x == true")], vec![]);
    assert!(!queue[0].id.is_empty());

    let assigned = queue[0].id.clone();
    let queue = admit_goals(queue, vec![]);
    assert_eq!(queue[0].id, assigned);

    let queue = admit_goals(
        vec![goal("UNKNOWN", GoalPriority::High, "var:x == true")],
        vec![],
    );
    assert_ne!(queue[0].id, "UNKNOWN");
}

#[test]
fn the_queue_is_ordered_by_priority_and_stable_within_it() {
    let queue = admit_goals(
        vec![
            goal("low", GoalPriority::Low, "var:a == true"),
            goal("normal_first", GoalPriority::Normal, "var:b == true"),
            goal("normal_second", GoalPriority::Normal, "var:c == true"),
            goal("top", GoalPriority::Top, "var:d == true"),
        ],
        vec![],
    );

    let ids: Vec<&str> = queue.iter().map(|g| g.id.as_str()).collect();
    assert_eq!(ids, vec!["top", "normal_first", "normal_second", "low"]);
}

#[test]
fn admitted_goals_join_the_existing_queue() {
    let queue = admit_goals(
        vec![goal("queued", GoalPriority::Normal, "var:a == true")],
        vec![goal("", GoalPriority::Top, "var:b == true")],
    );

    assert_eq!(queue.len(), 2);
    assert_eq!(queue[0].predicate, "var:b == true", "top priority goes first");
    assert_eq!(queue[1].id, "queued", "the queued goal keeps its id");
}

#[test]
fn generated_ids_are_ten_letters_and_digits() {
    let queue = admit_goals(vec![], vec![goal("", GoalPriority::Low, "var:a == true")]);
    assert_eq!(queue[0].id.len(), 10);
    assert!(queue[0].id.chars().all(|c| c.is_ascii_alphanumeric()));
}

#[test]
fn ids_are_handed_out_incoming_first_then_to_queued_goals_missing_one() {
    let queue = admit_goals_with_ids(
        vec![
            goal("", GoalPriority::Normal, "var:a == true"),
            goal("kept", GoalPriority::Normal, "var:b == true"),
        ],
        vec![goal("ignored", GoalPriority::High, "var:c == true")],
        vec!["first".to_string(), "second".to_string()],
    );
    let ids: Vec<&str> = queue.iter().map(|g| g.id.as_str()).collect();
    assert_eq!(ids, vec!["first", "second", "kept"]);
}

fn goal_state(sp: &str, current: &str, plan_state: &str, queue: Vec<SPValue>) -> State {
    let mut state = State::new();
    let strings = [
        ("_current_goal_state", current),
        ("_current_goal_id", "goal_one"),
        ("_current_goal_predicate", "var:pos == c"),
        ("_goal_runner_information", "UNKNOWN"),
        ("_planner_state", "found"),
        ("_plan_state", plan_state),
    ];
    for (suffix, value) in strings {
        state.add_mut(
            SPAssignment::new(SPVariable::new(&format!("{sp}{suffix}"), SPValueType::String), value.to_spvalue()),
            "test",
        );
    }
    for (suffix, value) in [("_replan_trigger", false), ("_replanned", true), ("_replan_for_same_goal", false)] {
        state.add_mut(
            SPAssignment::new(SPVariable::new(&format!("{sp}{suffix}"), SPValueType::Bool), value.to_spvalue()),
            "test",
        );
    }
    state.add_mut(
        SPAssignment::new(SPVariable::new(&format!("{sp}_plan_current_step"), SPValueType::Int64), 3i64.to_spvalue()),
        "test",
    );
    for (suffix, value) in [("_plan", vec!["op_a".to_spvalue()]), ("_scheduled_goals", queue), ("_incoming_goals", vec![])] {
        state.add_mut(
            SPAssignment::new(SPVariable::new(&format!("{sp}{suffix}"), SPValueType::Array), value.to_spvalue()),
            "test",
        );
    }
    state
}

#[test]
fn the_goal_runner_reads_thirteen_keys() {
    let keys = goal_runner_keys("sp");
    assert_eq!(keys.len(), 13);
    assert_eq!(keys[0], "sp_current_goal_state");
    assert_eq!(keys[12], "sp_replan_for_same_goal");
}

#[test]
fn an_idle_runner_promotes_the_first_goal_and_asks_for_a_plan() {
    let queue = vec![goal_to_sp_value(&goal("g1", GoalPriority::Normal, "var:a == true"))];
    let state = goal_state("sp", "initial", "completed", queue);
    assert!(!incoming_goals_waiting("sp", &state, "test"));
    let drained = vec![goal_to_sp_value(&goal("", GoalPriority::Top, "var:b == true"))];
    let next = goal_tick_with_ids("sp", &state, &drained, vec!["fresh".to_string()], "test");

    assert_eq!(next.get_value("sp_current_goal_id", "test"), Some("fresh".to_spvalue()));
    assert_eq!(next.get_value("sp_current_goal_predicate", "test"), Some("var:b == true".to_spvalue()));
    assert_eq!(next.get_value("sp_current_goal_state", "test"), Some("executing".to_spvalue()));
    assert_eq!(next.get_value("sp_replan_trigger", "test"), Some(true.to_spvalue()));
    assert_eq!(next.get_value("sp_replanned", "test"), Some(false.to_spvalue()));
    assert_eq!(next.get_value("sp_plan_current_step", "test"), Some(0i64.to_spvalue()));
    assert_eq!(next.get_value("sp_plan_state", "test"), Some("initial".to_spvalue()));
    assert_eq!(next.get_value("sp_planner_state", "test"), Some("ready".to_spvalue()));
    assert_eq!(
        next.get_value("sp_scheduled_goals", "test"),
        Some(vec![goal_to_sp_value(&goal("g1", GoalPriority::Normal, "var:a == true"))].to_spvalue()),
        "the top goal went first; the other stays queued"
    );
    assert_eq!(
        next.get_value("sp_goal_runner_information", "test"),
        Some("Initializing new goal fresh: \n       var:b == true".to_spvalue())
    );
}

#[test]
fn a_failed_plan_fails_the_goal_and_then_releases_it() {
    let state = goal_state("sp", "executing", "failed", vec![]);
    let next = goal_tick("sp", &state, &vec![], "test");
    assert_eq!(next.get_value("sp_current_goal_state", "test"), Some("failed".to_spvalue()));
    let next = goal_tick("sp", &next, &vec![], "test");
    assert_eq!(next.get_value("sp_current_goal_state", "test"), Some("initial".to_spvalue()));
    assert_eq!(
        next.get_value("sp_goal_runner_information", "test"),
        Some("Goal goal_one failed: \n       var:pos == c".to_spvalue())
    );
}

#[test]
fn a_cancelled_plan_is_never_reported_as_a_cancelled_goal() {
    let state = goal_state("sp", "executing", "cancelled", vec![]);
    let next = goal_tick("sp", &state, &vec![], "test");
    assert_eq!(
        next.get_value("sp_current_goal_state", "test"),
        Some("cancelled".to_spvalue()),
        "a cancelled plan cancels the goal"
    );
}

#[test]
fn an_empty_queue_leaves_the_runner_waiting() {
    let state = goal_state("sp", "initial", "completed", vec![]);
    let next = goal_tick("sp", &state, &vec![], "test");
    assert_eq!(next.get_value("sp_current_goal_state", "test"), Some("initial".to_spvalue()));
    assert_eq!(
        next.get_value("sp_goal_runner_information", "test"),
        Some("No goals scheduled, goal list is empty.".to_spvalue())
    );
}
