//! Automatic transitions.
//!
//! Each tick, every automatic transition whose guards hold is taken, in
//! model order, on one state threaded through all of them: a transition
//! sees what the ones before it in the same tick did.
use crate::predicate::contains_name;
use crate::runner_keys::{names_of, normalize_keys, strictly_sorted};
use crate::sop::Model;
use crate::state::State;
use crate::transition::{
    guards_hold, lemma_covered_same_domain, lemma_take_transition_domain, take_transition,
    transition_covered, transition_mentions, transition_views, StateMap, Transition, TransitionView,
};
use vstd::prelude::*;

verus! {

/// The state after one transition: taken if its guards hold, else unchanged.
pub open spec fn transition_step(t: TransitionView, m: StateMap) -> StateMap {
    if guards_hold(t, m) {
        take_transition(t, m)
    } else {
        m
    }
}

/// The state after the transitions `s[..n]`, each on the state the ones
/// before it left.
pub open spec fn transitions_in_turn(s: Seq<TransitionView>, m: StateMap, n: int) -> StateMap
    decreases n,
{
    if n <= 0 {
        m
    } else {
        transition_step(s[n - 1], transitions_in_turn(s, m, n - 1))
    }
}

/// Takes the transition if its guards hold.
pub fn process_transition(transition: &Transition, state: &mut State, log_target: &str)
    requires
        transition_covered(transition@, old(state)@),
    ensures
        final(state)@ == transition_step(transition@, old(state)@),
{
    if !transition.eval(state, log_target) {
        return;
    }
    let next = transition.take(state, log_target);
    *state = next;
}

/// One tick of the automatic transitions: each is taken in model order if
/// its guards hold in the state the ones before it left.
pub fn auto_transition_tick(model: &Model, state: &State, log_target: &str) -> (r: State)
    requires
        forall|i: int| 0 <= i < model.auto_transitions.len() ==> transition_covered(#[trigger] model.auto_transitions[i]@, state@),
    ensures
        r@ == transitions_in_turn(transition_views(model.auto_transitions@), state@, model.auto_transitions.len() as int),
        r@.dom() == state@.dom(),
{
    let ghost s = transition_views(model.auto_transitions@);
    let mut new_state = state.duplicate();
    let mut i: usize = 0;
    while i < model.auto_transitions.len()
        invariant
            i <= model.auto_transitions.len(),
            s == transition_views(model.auto_transitions@),
            new_state@ == transitions_in_turn(s, state@, i as int),
            new_state@.dom() == state@.dom(),
            forall|j: int| 0 <= j < model.auto_transitions.len() ==> transition_covered(#[trigger] model.auto_transitions[j]@, state@),
        decreases model.auto_transitions.len() - i,
    {
        proof {
            lemma_covered_same_domain(state@, new_state@);
            assert(transition_covered(model.auto_transitions[i as int]@, state@));
            assert(s[i as int] == model.auto_transitions[i as int]@);
            lemma_take_transition_domain(model.auto_transitions[i as int]@, new_state@);
        }
        process_transition(&model.auto_transitions[i], &mut new_state, log_target);
        i += 1;
    }
    new_state
}

/// The keys the automatic transition runner reads: every variable its
/// transitions mention, sorted, each once.
pub fn auto_transition_runner_keys(model: &Model) -> (r: Vec<String>)
    ensures
        strictly_sorted(names_of(r@)),
        forall|n: Seq<char>| #[trigger] contains_name(r@, n) == exists|i: int|
            0 <= i < model.auto_transitions.len() && transition_mentions(#[trigger] model.auto_transitions[i]@, n),
{
    let mut keys: Vec<String> = Vec::new();
    let mut i: usize = 0;
    while i < model.auto_transitions.len()
        invariant
            i <= model.auto_transitions.len(),
            forall|n: Seq<char>| #[trigger] contains_name(keys@, n) == exists|j: int|
                0 <= j < i && transition_mentions(#[trigger] model.auto_transitions[j]@, n),
        decreases model.auto_transitions.len() - i,
    {
        let tk = model.auto_transitions[i].get_all_var_keys();
        let ghost before = keys@;
        let mut k: usize = 0;
        while k < tk.len()
            invariant
                k <= tk.len(),
                forall|n: Seq<char>| #[trigger] contains_name(keys@, n) == (contains_name(before, n) || exists|j: int|
                    0 <= j < k && #[trigger] tk[j]@ == n),
            decreases tk.len() - k,
        {
            crate::predicate::push_name(&mut keys, tk[k].clone());
            proof {
                assert forall|n: Seq<char>| #[trigger] contains_name(keys@, n) == (contains_name(before, n)
                    || exists|j: int| 0 <= j < k + 1 && #[trigger] tk[j]@ == n) by {
                    if exists|j: int| 0 <= j < k + 1 && #[trigger] tk[j]@ == n {
                        let j = choose|j: int| 0 <= j < k + 1 && #[trigger] tk[j]@ == n;
                        if j < k {
                            assert(exists|j: int| 0 <= j < k && #[trigger] tk[j]@ == n);
                        }
                    }
                    if tk[k as int]@ == n {
                        assert(exists|j: int| 0 <= j < k + 1 && #[trigger] tk[j]@ == n);
                    }
                }
            }
            k += 1;
        }
        proof {
            assert forall|n: Seq<char>| #[trigger] contains_name(keys@, n) == exists|j: int|
                0 <= j < i + 1 && transition_mentions(#[trigger] model.auto_transitions[j]@, n) by {
                if exists|j: int| 0 <= j < tk.len() && #[trigger] tk[j]@ == n {
                    assert(contains_name(tk@, n));
                }
                if contains_name(tk@, n) {
                    let j = choose|j: int| 0 <= j < tk@.len() && #[trigger] tk@[j]@ == n;
                    assert(tk[j]@ == n);
                }
                if transition_mentions(model.auto_transitions[i as int]@, n) {
                    assert(exists|j: int| 0 <= j < i + 1 && transition_mentions(#[trigger] model.auto_transitions[j]@, n));
                }
                if exists|j: int| 0 <= j < i + 1 && transition_mentions(#[trigger] model.auto_transitions[j]@, n) {
                    let j = choose|j: int| 0 <= j < i + 1 && transition_mentions(#[trigger] model.auto_transitions[j]@, n);
                    if j < i {
                        assert(exists|j: int| 0 <= j < i && transition_mentions(#[trigger] model.auto_transitions[j]@, n));
                    }
                }
            }
        }
        i += 1;
    }
    normalize_keys(keys)
}

/// A transition whose guards do not hold leaves the state as it was.
pub proof fn lemma_blocked_transition_changes_nothing(t: TransitionView, m: StateMap)
    requires
        !guards_hold(t, m),
    ensures
        transition_step(t, m) == m,
{
}

} // verus!
