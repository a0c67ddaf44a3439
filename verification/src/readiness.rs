//! Checks that a state read from the store holds what a runner's tick is
//! about to read and write.
//!
//! A runner reads only its key set; a tick that then reads a variable the
//! state does not hold is an error.  Each check here answers `true` only
//! where the tick's precondition holds, so the loop around a tick can test
//! it before the call and stop where the state is short.
use crate::auto_operation_driver::{auto_tick_ready, lemma_mentioned_covered, op_transitions_covered, AutoOperationRunner};

use crate::goal_tick::{goal_keys, goal_runner_keys, goal_tick_covered};
use crate::operation::{op_mentions, operation_views, transitions_mention, Operation};
use crate::plan_runner::{find_step_operation, plan_keys_present, plan_steps, plan_tick_ready, read_plan, step_as_operation};
use crate::planner_tick::planner_keys_present;
use crate::predicate::contains_name;
use crate::process::tick_covered;
use crate::runner_keys::names_of;
use crate::runner_states::PlanState;
use crate::sop::{sop_operations, Model, SOP};
use crate::sop_driver::{sop_tick_ready, SopRunner};
use crate::sop_multi_driver::{multi_tick_ready, run_views, ActiveSop};
use crate::sop_runner::sop_ticks_covered;
use crate::state::State;
use crate::state_init::get_all_operations_from_sop;
use crate::text::concat;
use crate::transition::{transition_covered, transition_mentions, transitions_covered, StateMap, TransitionView};
use vstd::prelude::*;

verus! {

/// Whether the state holds every one of the names.
fn holds_all(state: &State, keys: &Vec<String>) -> (r: bool)
    ensures
        r == forall|n: Seq<char>| #[trigger] contains_name(keys@, n) ==> state@.contains_key(n),
{
    let mut i: usize = 0;
    while i < keys.len()
        invariant
            i <= keys.len(),
            forall|j: int| 0 <= j < i ==> state@.contains_key(#[trigger] keys@[j]@),
        decreases keys.len() - i,
    {
        if !state.contains(keys[i].as_str()) {
            assert(contains_name(keys@, keys@[i as int]@));
            return false;
        }
        i += 1;
    }
    true
}

/// Covered transitions hold every variable they mention.
proof fn lemma_covered_mentioned(s: Seq<TransitionView>, m: StateMap, n: Seq<char>)
    requires
        transitions_covered(s, m),
        transitions_mention(s, n),
    ensures
        m.contains_key(n),
{
    let i = choose|i: int| 0 <= i < s.len() && transition_mentions(#[trigger] s[i], n);
    let t = s[i];
    assert(transition_covered(t, m));
    if crate::predicate::predicate_mentions(t.guard, n) {
    } else if crate::predicate::predicate_mentions(t.runner_guard, n) {
    } else if exists|j: int| 0 <= j < t.actions.len() && crate::transition::action_mentions(#[trigger] t.actions[j], n) {
        let j = choose|j: int| 0 <= j < t.actions.len() && crate::transition::action_mentions(#[trigger] t.actions[j], n);
        assert(crate::transition::action_covered(t.actions[j], m));
    } else {
        let j = choose|j: int| 0 <= j < t.runner_actions.len() && crate::transition::action_mentions(#[trigger] t.runner_actions[j], n);
        assert(crate::transition::action_covered(t.runner_actions[j], m));
    }
}

/// Whether the state holds every variable the operation's transitions mention.
pub fn transitions_ready(op: &Operation, state: &State) -> (r: bool)
    ensures
        r == op_transitions_covered(op@, state@),
{
    let keys = op.get_all_var_keys();
    if !holds_all(state, &keys) {
        proof {
            let o = op@;
            let m = state@;
            if op_transitions_covered(o, m) {
                assert forall|n: Seq<char>| #[trigger] contains_name(keys@, n) implies m.contains_key(n) by {
                    assert(op_mentions(o, n));
                    if transitions_mention(o.preconditions, n) {
                        lemma_covered_mentioned(o.preconditions, m, n);
                    } else if transitions_mention(o.postconditions, n) {
                        lemma_covered_mentioned(o.postconditions, m, n);
                    } else if transitions_mention(o.fail_transitions, n) {
                        lemma_covered_mentioned(o.fail_transitions, m, n);
                    } else if transitions_mention(o.timeout_transitions, n) {
                        lemma_covered_mentioned(o.timeout_transitions, m, n);
                    } else if transitions_mention(o.bypass_transitions, n) {
                        lemma_covered_mentioned(o.bypass_transitions, m, n);
                    } else {
                        lemma_covered_mentioned(o.cancel_transitions, m, n);
                    }
                }
            }
        }
        return false;
    }
    proof {
        let o = op@;
        let m = state@;
        assert forall|n: Seq<char>| transitions_mention(o.preconditions, n) implies #[trigger] m.contains_key(n) by {
            assert(op_mentions(o, n));
            assert(contains_name(keys@, n));
        }
        assert forall|n: Seq<char>| transitions_mention(o.postconditions, n) implies #[trigger] m.contains_key(n) by {
            assert(op_mentions(o, n));
            assert(contains_name(keys@, n));
        }
        assert forall|n: Seq<char>| transitions_mention(o.fail_transitions, n) implies #[trigger] m.contains_key(n) by {
            assert(op_mentions(o, n));
            assert(contains_name(keys@, n));
        }
        assert forall|n: Seq<char>| transitions_mention(o.timeout_transitions, n) implies #[trigger] m.contains_key(n) by {
            assert(op_mentions(o, n));
            assert(contains_name(keys@, n));
        }
        assert forall|n: Seq<char>| transitions_mention(o.bypass_transitions, n) implies #[trigger] m.contains_key(n) by {
            assert(op_mentions(o, n));
            assert(contains_name(keys@, n));
        }
        assert forall|n: Seq<char>| transitions_mention(o.cancel_transitions, n) implies #[trigger] m.contains_key(n) by {
            assert(op_mentions(o, n));
            assert(contains_name(keys@, n));
        }
        lemma_mentioned_covered(o.preconditions, m);
        lemma_mentioned_covered(o.postconditions, m);
        lemma_mentioned_covered(o.fail_transitions, m);
        lemma_mentioned_covered(o.timeout_transitions, m);
        lemma_mentioned_covered(o.bypass_transitions, m);
        lemma_mentioned_covered(o.cancel_transitions, m);
    }
    true
}

/// Whether the state holds everything a tick of the operation reads and
/// writes: its transitions' variables, its lifecycle variable and its five
/// bookkeeping variables.
pub fn operation_tick_ready(op: &Operation, state: &State) -> (r: bool)
    ensures
        r == tick_covered(op@, state@),
{
    let name = op.name.as_str();
    transitions_ready(op, state) && state.contains(name) && state.contains(concat(name, "_information").as_str())
        && state.contains(concat(name, "_failure_retry_counter").as_str()) && state.contains(
        concat(name, "_timeout_retry_counter").as_str(),
    ) && state.contains(concat(name, "_elapsed_executing_ms").as_str()) && state.contains(
        concat(name, "_elapsed_disabled_ms").as_str(),
    )
}

/// Whether the state holds every variable the automatic transitions read or write.
pub fn auto_transitions_ready(model: &Model, state: &State) -> (r: bool)
    ensures
        r == forall|i: int| 0 <= i < model.auto_transitions.len() ==> transition_covered(#[trigger] model.auto_transitions[i]@, state@),
{
    let mut i: usize = 0;
    while i < model.auto_transitions.len()
        invariant
            i <= model.auto_transitions.len(),
            forall|j: int| 0 <= j < i ==> transition_covered(#[trigger] model.auto_transitions[j]@, state@),
        decreases model.auto_transitions.len() - i,
    {
        let keys = model.auto_transitions[i].get_all_var_keys();
        if !holds_all(state, &keys) {
            proof {
                let t = model.auto_transitions[i as int]@;
                if transition_covered(t, state@) {
                    assert forall|n: Seq<char>| #[trigger] contains_name(keys@, n) implies state@.contains_key(n) by {
                        let s1 = seq![t];
                        assert(transitions_covered(s1, state@));
                        assert(transition_mentions(s1[0], n));
                        lemma_covered_mentioned(s1, state@, n);
                    }
                }
            }
            return false;
        }
        proof {
            let t = model.auto_transitions[i as int]@;
            let s = seq![t];
            assert forall|n: Seq<char>| transitions_mention(s, n) implies #[trigger] state@.contains_key(n) by {
                let k = choose|k: int| 0 <= k < s.len() && transition_mentions(#[trigger] s[k], n);
                assert(k == 0);
                assert(contains_name(keys@, n));
            }
            lemma_mentioned_covered(s, state@);
            assert(transition_covered(s[0], state@));
        }
        i += 1;
    }
    true
}

/// Whether a tick of the automatic operation runner can run on the state.
pub fn auto_operations_ready(model: &Model, runner: &AutoOperationRunner, state: &State) -> (r: bool)
    ensures
        r == auto_tick_ready(*model, runner@, state@),
{
    let mut i: usize = 0;
    while i < model.auto_operations.len()
        invariant
            i <= model.auto_operations.len(),
            forall|j: int| 0 <= j < i ==> op_transitions_covered(#[trigger] model.auto_operations[j]@, state@),
        decreases model.auto_operations.len() - i,
    {
        if !transitions_ready(&model.auto_operations[i], state) {
            return false;
        }
        i += 1;
    }
    let mut i: usize = 0;
    while i < model.mutexed_auto_operations.len()
        invariant
            i <= model.mutexed_auto_operations.len(),
            forall|j: int| 0 <= j < i ==> op_transitions_covered(#[trigger] model.mutexed_auto_operations[j]@, state@),
        decreases model.mutexed_auto_operations.len() - i,
    {
        if !transitions_ready(&model.mutexed_auto_operations[i], state) {
            return false;
        }
        i += 1;
    }
    let mut i: usize = 0;
    while i < runner.active.len()
        invariant
            i <= runner.active.len(),
            forall|j: int| 0 <= j < i ==> tick_covered(#[trigger] operation_views(runner.active@)[j], state@),
        decreases runner.active.len() - i,
    {
        assert(operation_views(runner.active@)[i as int] == runner.active[i as int]@);
        if !operation_tick_ready(&runner.active[i], state) {
            assert(!tick_covered(runner@.active[i as int], state@));
            return false;
        }
        i += 1;
    }
    match &runner.mutexed {
        Some(x) => operation_tick_ready(x, state),
        None => true,
    }
}

/// Whether the state holds what a tick of every operation of the tree reads and writes.
pub fn tree_tick_ready(sop: &SOP, state: &State) -> (r: bool)
    ensures
        r == sop_ticks_covered(sop@, state@),
{
    let ops = get_all_operations_from_sop(sop);
    let mut i: usize = 0;
    while i < ops.len()
        invariant
            i <= ops.len(),
            operation_views(ops@) == sop_operations(sop@),
            forall|j: int| 0 <= j < i ==> tick_covered(#[trigger] sop_operations(sop@)[j], state@),
        decreases ops.len() - i,
    {
        assert(operation_views(ops@)[i as int] == ops[i as int]@);
        if !operation_tick_ready(&ops[i], state) {
            return false;
        }
        i += 1;
    }
    true
}

/// Whether a tick of the SOP runner can run on the state.
pub fn sop_runner_ready(sp_id: &str, model: &Model, runner: &SopRunner, state: &State) -> (r: bool)
    ensures
        r == sop_tick_ready(sp_id@, *model, runner@, state@),
{
    if !(state.contains(concat(sp_id, "_sop_state").as_str()) && state.contains(concat(sp_id, "_sop_enabled").as_str())
        && state.contains(concat(sp_id, "_sop_id").as_str())) {
        return false;
    }
    let mut i: usize = 0;
    while i < model.sops.len()
        invariant
            i <= model.sops.len(),
            forall|j: int| 0 <= j < i ==> state@.contains_key(#[trigger] model.sops[j].id@ + "_sop_information"@),
        decreases model.sops.len() - i,
    {
        if !state.contains(concat(model.sops[i].id.as_str(), "_sop_information").as_str()) {
            return false;
        }
        i += 1;
    }
    if runner.active_id.is_some() != runner.active_sop.is_some() {
        return false;
    }
    if runner.active_id.is_some() && runner.active_state == crate::runner_states::SOPState::Executing {
        match &runner.active_sop {
            Some(t) => tree_tick_ready(t, state),
            None => false,
        }
    } else {
        true
    }
}

/// Whether a tick of the multi-SOP runner can run on the state.
pub fn multi_sop_runner_ready(active: &Vec<ActiveSop>, state: &State) -> (r: bool)
    ensures
        r == multi_tick_ready(run_views(active@), state@),
{
    let mut i: usize = 0;
    while i < active.len()
        invariant
            i <= active.len(),
            forall|j: int| 0 <= j < i && (#[trigger] run_views(active@)[j]).tracked_state == crate::runner_states::SOPState::Executing
                ==> sop_ticks_covered(run_views(active@)[j].sop, state@),
        decreases active.len() - i,
    {
        assert(run_views(active@)[i as int] == active[i as int]@);
        if active[i].tracked_state == crate::runner_states::SOPState::Executing && !tree_tick_ready(&active[i].sop, state) {
            return false;
        }
        i += 1;
    }
    true
}

/// Whether a tick of the plan runner can run on the state.
pub fn plan_runner_ready(sp_id: &str, model: &Model, state: &State, tick_elapsed_ms: i64, log_target: &str) -> (r: bool)
    ensures
        r == (plan_keys_present(state@, sp_id@) && plan_tick_ready(sp_id@, *model, state@, tick_elapsed_ms)),
{
    let present = state.contains(concat(sp_id, "_planner_state").as_str()) && state.contains(
        concat(sp_id, "_current_goal_state").as_str(),
    ) && state.contains(concat(sp_id, "_plan_state").as_str()) && state.contains(
        concat(sp_id, "_plan_current_step").as_str(),
    ) && state.contains(concat(sp_id, "_plan").as_str()) && state.contains(concat(sp_id, "_terminated_operations").as_str());
    if !present {
        return false;
    }
    let plan = read_plan(state, sp_id, log_target);
    let plan_state = state.get_string_or_default_to_unknown(concat(sp_id, "_plan_state").as_str(), log_target);
    let step = state.get_int_or_default_to_zero(concat(sp_id, "_plan_current_step").as_str(), log_target);
    let ghost steps = plan_steps(state@, sp_id@);
    assert(names_of(plan@) == steps);
    if PlanState::from_str(plan_state.as_str()) == PlanState::Executing && 0 <= step && (step as u64) < (plan.len() as u64) {
        let idx = step as usize;
        assert(steps[idx as int] == plan@[idx as int]@);
        let ops = model.operations.as_slice();
        assert(ops@ == model.operations@);
        match find_step_operation(ops, plan[idx].as_str()) {
            Some(op) => {
                let renamed = op.renamed(plan[idx].clone());
                assert(step_as_operation(*model, steps[idx as int]) == Some(renamed@));
                operation_tick_ready(&renamed, state)
            },
            None => true,
        }
    } else {
        true
    }
}

/// Whether the state holds the variables a planner tick writes back.
pub fn planner_ready(sp_id: &str, state: &State) -> (r: bool)
    ensures
        r == planner_keys_present(state@, sp_id@),
{
    state.contains(concat(sp_id, "_replan_trigger").as_str()) && state.contains(concat(sp_id, "_replanned").as_str())
        && state.contains(concat(sp_id, "_plan_counter").as_str()) && state.contains(
        concat(sp_id, "_planner_state").as_str(),
    ) && state.contains(concat(sp_id, "_plan_id").as_str()) && state.contains(concat(sp_id, "_plan").as_str())
        && state.contains(concat(sp_id, "_planner_information").as_str())
}

/// Whether the state holds the variables a goal tick reads and writes
/// (all the goal runner's keys but the inbox, which it only empties).
pub fn goal_runner_ready(sp_id: &str, state: &State) -> (r: bool)
    ensures
        r == goal_tick_covered(state@, sp_id@),
{
    let keys = goal_runner_keys(sp_id);
    let mut i: usize = 0;
    while i < keys.len()
        invariant
            i <= keys.len(),
            names_of(keys@) == goal_keys(sp_id@),
            forall|j: int| 0 <= j < i && j != 8 ==> state@.contains_key(#[trigger] goal_keys(sp_id@)[j]),
        decreases keys.len() - i,
    {
        assert(names_of(keys@)[i as int] == keys@[i as int]@);
        if i != 8 && !state.contains(keys[i].as_str()) {
            return false;
        }
        i += 1;
    }
    true
}

} // verus!
