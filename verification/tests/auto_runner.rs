use micro_sp::auto_runner::{auto_transition_runner_keys, auto_transition_tick, process_transition};
use micro_sp::predicate::{Predicate, SPWrapped};
use micro_sp::sop::Model;
use micro_sp::state::{SPAssignment, SPVariable, State};
use micro_sp::transition::{Action, Transition};
use micro_sp::value::{SPValueType, ToSPValue};

const TARGET: &str = "test";

fn var(name: &str) -> SPVariable {
    SPVariable::new(name, SPValueType::Bool)
}

fn equals(name: &str, value: bool) -> Predicate {
    Predicate::EQ(SPWrapped::SPVariable(var(name)), SPWrapped::SPValue(value.to_spvalue()))
}

fn state() -> State {
    let mut state = State::new();
    for name in ["a", "b", "c"] {
        state.add_mut(SPAssignment::new(var(name), false.to_spvalue()), TARGET);
    }
    state
}

/// `needs == true && sets == false` (or just `sets == false`), then `sets <- true`.
fn link(name: &str, needs: Option<&str>, sets: &str) -> Transition {
    let guard = match needs {
        Some(needs) => Predicate::AND(vec![equals(needs, true), equals(sets, false)]),
        None => equals(sets, false),
    };
    Transition::new(
        name,
        guard,
        Predicate::TRUE,
        vec![Action::new(var(sets), SPWrapped::SPValue(true.to_spvalue()))],
        vec![],
    )
}

fn assert_same(left: &State, right: &State) {
    assert_eq!(left.len(), right.len());
    for name in right.names() {
        assert_eq!(left.get_value(&name, TARGET), right.get_value(&name, TARGET), "{name}");
    }
}

/// The bug: every transition was evaluated against the same snapshot, so a
/// chain of three took three ticks - one link per tick - instead of one.
#[test]
fn a_chain_of_transitions_completes_within_one_tick() {
    let state = state();
    let transitions = vec![
        link("first", None, "a"),
        link("second", Some("a"), "b"),
        link("third", Some("b"), "c"),
    ];

    let mut new_state = state.duplicate();
    for t in &transitions {
        process_transition(t, &mut new_state, TARGET);
    }

    for name in ["a", "b", "c"] {
        assert_eq!(
            new_state.get_value(name, TARGET),
            Some(true.to_spvalue()),
            "'{name}' should have been set in the same tick"
        );
    }
}

/// Order still matters within a tick: a link whose predecessor comes later
/// in the model does not fire until the next tick, as before.
#[test]
fn a_chain_listed_backwards_still_advances_one_link_per_tick() {
    let state = state();
    let transitions = vec![
        link("third", Some("b"), "c"),
        link("second", Some("a"), "b"),
        link("first", None, "a"),
    ];

    let mut new_state = state.duplicate();
    for t in &transitions {
        process_transition(t, &mut new_state, TARGET);
    }
    assert_eq!(new_state.get_value("a", TARGET), Some(true.to_spvalue()));
    assert_eq!(new_state.get_value("b", TARGET), Some(false.to_spvalue()));
    assert_eq!(new_state.get_value("c", TARGET), Some(false.to_spvalue()));
}

/// A transition whose guard is false must leave the state untouched.
#[test]
fn a_transition_that_does_not_fire_changes_nothing() {
    let state = state();
    let blocked = link("blocked", Some("a"), "b");

    let mut new_state = state.duplicate();
    process_transition(&blocked, &mut new_state, TARGET);

    assert_same(&new_state, &state);
}

fn model(transitions: Vec<Transition>) -> Model {
    Model::new("m", transitions, vec![], vec![], vec![], vec![])
}

#[test]
fn a_tick_of_the_auto_transitions_runs_the_whole_chain_in_model_order() {
    let state = state();
    let m = model(vec![
        link("first", None, "a"),
        link("second", Some("a"), "b"),
        link("third", Some("b"), "c"),
    ]);
    let after = auto_transition_tick(&m, &state, TARGET);
    for name in ["a", "b", "c"] {
        assert_eq!(after.get_value(name, TARGET), Some(true.to_spvalue()));
    }
    // The state handed in is not touched.
    assert_eq!(state.get_value("a", TARGET), Some(false.to_spvalue()));
}

#[test]
fn a_backwards_chain_needs_one_tick_per_link() {
    let m = model(vec![
        link("third", Some("b"), "c"),
        link("second", Some("a"), "b"),
        link("first", None, "a"),
    ]);
    let first = auto_transition_tick(&m, &state(), TARGET);
    assert_eq!(first.get_value("a", TARGET), Some(true.to_spvalue()));
    assert_eq!(first.get_value("b", TARGET), Some(false.to_spvalue()));
    let second = auto_transition_tick(&m, &first, TARGET);
    assert_eq!(second.get_value("b", TARGET), Some(true.to_spvalue()));
    assert_eq!(second.get_value("c", TARGET), Some(false.to_spvalue()));
    let third = auto_transition_tick(&m, &second, TARGET);
    assert_eq!(third.get_value("c", TARGET), Some(true.to_spvalue()));
}

#[test]
fn a_tick_with_nothing_enabled_changes_nothing() {
    let state = state();
    let m = model(vec![link("blocked", Some("a"), "b")]);
    let after = auto_transition_tick(&m, &state, TARGET);
    assert_same(&after, &state);
}

#[test]
fn the_auto_transition_keys_are_every_variable_once_and_sorted() {
    let m = model(vec![
        link("third", Some("b"), "c"),
        link("second", Some("a"), "b"),
        link("first", None, "a"),
    ]);
    assert_eq!(auto_transition_runner_keys(&m), vec!["a".to_string(), "b".to_string(), "c".to_string()]);
}
