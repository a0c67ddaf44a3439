use micro_sp::planner_tick::{plan_needed, process_planner_tick, PlanningResult};
use micro_sp::state::State;
use micro_sp::state_init::generate_runner_state_variables;
use micro_sp::value::{SPValue, StringOrUnknown, ToSPValue};

const SP: &str = "sp";
const TARGET: &str = "test";

fn key(suffix: &str) -> String {
    format!("{SP}_{suffix}")
}

fn world() -> State {
    generate_runner_state_variables(SP, 0, TARGET)
        .update(&key("replan_trigger"), false.to_spvalue())
        .update(&key("replanned"), false.to_spvalue())
        .update(&key("plan_counter"), 0i64.to_spvalue())
        .update(&key("planner_state"), "ready".to_spvalue())
        .update(&key("plan_id"), "old".to_spvalue())
        .update(&key("plan"), vec!["op_old_1".to_string()].to_spvalue())
        .update(&key("planner_information"), "".to_spvalue())
}

fn triggered() -> State {
    world().update(&key("replan_trigger"), true.to_spvalue())
}

fn result(found: bool, plan: &[&str]) -> PlanningResult {
    PlanningResult { found, length: plan.len(), plan: plan.iter().map(|s| s.to_string()).collect() }
}

fn nothing() -> PlanningResult {
    result(false, &[])
}

fn text(state: &State, suffix: &str) -> String {
    state.get_string_or_default_to_unknown(&key(suffix), TARGET)
}

fn flag(state: &State, suffix: &str) -> bool {
    state.get_bool_or_default_to_false(&key(suffix), TARGET)
}

fn plan(state: &State) -> Vec<String> {
    state
        .get_array_or_default_to_empty(&key("plan"), TARGET)
        .iter()
        .filter_map(|v| match v {
            SPValue::String(StringOrUnknown::String(s)) => Some(s.clone()),
            _ => None,
        })
        .collect()
}

#[test]
fn an_untriggered_tick_asks_for_nothing_and_keeps_the_plan() {
    let state = world().update(&key("replanned"), true.to_spvalue());
    assert!(!plan_needed(SP, &state, TARGET));
    let next = process_planner_tick(SP, &state, &nothing(), TARGET);
    assert!(!flag(&next, "replanned"), "a stray replanned flag is cleared");
    assert!(!flag(&next, "replan_trigger"));
    assert_eq!(plan(&next), vec!["op_old_1".to_string()]);
    assert_eq!(text(&next, "plan_id"), "old");
}

#[test]
fn a_replan_request_produces_a_plan_and_then_clears_itself() {
    let state = triggered();
    assert!(plan_needed(SP, &state, TARGET));
    let next = process_planner_tick(SP, &state, &result(true, &["op_a", "op_b"]), TARGET);
    assert_eq!(text(&next, "planner_state"), "found");
    assert!(flag(&next, "replanned"));
    assert!(flag(&next, "replan_trigger"));
    assert_eq!(next.get_int_or_default_to_zero(&key("plan_counter"), TARGET), 1);
    let steps = plan(&next);
    assert_eq!(steps.len(), 2);
    assert!(steps[0].starts_with("op_a_") && steps[0].len() == "op_a_".len() + 10);
    assert!(steps[1].starts_with("op_b_") && steps[1].len() == "op_b_".len() + 10);
    for step in &steps {
        assert_eq!(next.get_string_or_default_to_unknown(step, TARGET), "initial");
        assert!(next.contains(&format!("{step}_information")));
        assert!(next.contains(&format!("{step}_timeout_retry_counter")));
    }
    let id = text(&next, "plan_id");
    assert_eq!(id.len(), 10);
    assert_eq!(
        text(&next, "planner_information"),
        format!("Got a new plan {id}:\n       1 -> {}\n       2 -> {}", steps[0], steps[1])
    );

    // The plan runner has not taken it yet: the next tick closes the handshake.
    assert!(!plan_needed(SP, &next, TARGET));
    let after = process_planner_tick(SP, &next, &nothing(), TARGET);
    assert!(!flag(&after, "replan_trigger"));
    assert!(!flag(&after, "replanned"));
    assert_eq!(plan(&after), steps);
}

#[test]
fn a_goal_that_already_holds_produces_no_plan() {
    let next = process_planner_tick(SP, &triggered(), &result(true, &[]), TARGET);
    assert_eq!(text(&next, "planner_state"), "found");
    assert!(plan(&next).is_empty());
    assert!(!flag(&next, "replanned"));
    assert_eq!(next.get_int_or_default_to_zero(&key("plan_counter"), TARGET), 0);
    assert_eq!(text(&next, "planner_information"), "We are already in the goal. No action needed.");
}

#[test]
fn an_unreachable_goal_reports_not_found() {
    let next = process_planner_tick(SP, &triggered(), &nothing(), TARGET);
    assert_eq!(text(&next, "planner_state"), "not_found");
    assert_eq!(text(&next, "plan_id"), "");
    assert!(plan(&next).is_empty());
    assert_eq!(text(&next, "planner_information"), "Planner triggered but no plan was found.");
}

#[test]
fn a_replan_is_ignored_unless_the_planner_is_ready_but_the_old_plan_is_dropped() {
    let state = triggered().update(&key("planner_state"), "found".to_spvalue());
    assert!(!plan_needed(SP, &state, TARGET));
    let next = process_planner_tick(SP, &state, &result(true, &["op_a"]), TARGET);
    assert_eq!(text(&next, "planner_state"), "found");
    assert!(plan(&next).is_empty());
    assert_eq!(text(&next, "plan_id"), "old");
    assert!(flag(&next, "replan_trigger"));
    assert!(!flag(&next, "replanned"));
}

#[test]
fn the_plan_counter_counts_plans() {
    let mut state = triggered();
    for expected in 1..=3i64 {
        state = process_planner_tick(SP, &state, &result(true, &["op_a"]), TARGET);
        assert_eq!(state.get_int_or_default_to_zero(&key("plan_counter"), TARGET), expected);
        // The plan runner takes the plan and asks again.
        state = state
            .update(&key("replanned"), false.to_spvalue())
            .update(&key("planner_state"), "ready".to_spvalue());
    }
}
