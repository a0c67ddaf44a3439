//! One tick of the goal runner.
//!
//! The runner admits the goals that arrived to the priority queue in
//! `{sp_id}_scheduled_goals`, promotes one goal at a time to the current
//! goal and asks the planner for it, and moves the current goal on by what
//! the plan runner reports in `{sp_id}_plan_state`.  The goals that arrived
//! are handed in: taking them out of the inbox is the caller's work.
use crate::goals::{admit_goals_with_ids, count_missing_ids, count_needing, decode_goal_values, decode_goals, encode_goals, goal_state_of, goal_state_text, goal_views, admitted, queue_value, Goal, GoalState};
use crate::ids::{is_id, new_id};

use crate::runner_keys::names_of;
use crate::runner_states::{plan_state_of, planner_state_text, plan_state_text, PlanState, PlannerState};
use crate::state::{array_or_empty, bool_or_false, string_or_unknown, State};
use crate::text::{concat, concat3};
use crate::transition::StateMap;
use crate::value::{bool_view, int_view, string_view, SPValue, SPValueView, ToSPValue};
use vstd::prelude::*;

verus! {

/// The variables the goal runner reads and writes, in the order it lists them.
pub open spec fn goal_keys(sp: Seq<char>) -> Seq<Seq<char>> {
    seq![
        sp + "_current_goal_state"@,
        sp + "_current_goal_id"@,
        sp + "_current_goal_predicate"@,
        sp + "_goal_runner_information"@,
        sp + "_planner_state"@,
        sp + "_plan_state"@,
        sp + "_plan"@,
        sp + "_scheduled_goals"@,
        sp + "_incoming_goals"@,
        sp + "_replan_trigger"@,
        sp + "_replanned"@,
        sp + "_plan_current_step"@,
        sp + "_replan_for_same_goal"@,
    ]
}

/// The keys the goal runner reads and writes.
pub fn goal_runner_keys(sp_id: &str) -> (r: Vec<String>)
    ensures
        names_of(r@) == goal_keys(sp_id@),
{
    let mut v: Vec<String> = Vec::new();
    v.push(concat(sp_id, "_current_goal_state"));
    v.push(concat(sp_id, "_current_goal_id"));
    v.push(concat(sp_id, "_current_goal_predicate"));
    v.push(concat(sp_id, "_goal_runner_information"));
    v.push(concat(sp_id, "_planner_state"));
    v.push(concat(sp_id, "_plan_state"));
    v.push(concat(sp_id, "_plan"));
    v.push(concat(sp_id, "_scheduled_goals"));
    v.push(concat(sp_id, "_incoming_goals"));
    v.push(concat(sp_id, "_replan_trigger"));
    v.push(concat(sp_id, "_replanned"));
    v.push(concat(sp_id, "_plan_current_step"));
    v.push(concat(sp_id, "_replan_for_same_goal"));
    assert(names_of(v@) =~= goal_keys(sp_id@));
    v
}

/// Whether goals wait in the inbox `{sp_id}_incoming_goals`: only then does
/// a tick take them out.
pub fn incoming_goals_waiting(sp_id: &str, state: &State, log_target: &str) -> (r: bool)
    ensures
        r == (array_or_empty(state@, sp_id@ + "_incoming_goals"@).len() > 0),
{
    let key = concat(sp_id, "_incoming_goals");
    state.get_array_or_default_to_empty(key.as_str(), log_target).len() > 0
}

/// Whether the state holds every variable a goal tick writes.
pub open spec fn goal_tick_covered(m: StateMap, sp: Seq<char>) -> bool {
    forall|i: int| 0 <= i < goal_keys(sp).len() && i != 8 ==> m.contains_key(#[trigger] goal_keys(sp)[i])
}

/// The value of an empty plan.
pub open spec fn empty_plan() -> SPValueView {
    SPValueView::Array(Some(Seq::empty()))
}

/// `m` with the planner asked for a new plan: trigger up, no plan yet, the
/// cursor at the start, the plan initial and the planner ready.
pub open spec fn with_replan(m: StateMap, sp: Seq<char>) -> StateMap {
    m.insert(sp + "_replan_trigger"@, bool_view(true)).insert(sp + "_replanned"@, bool_view(false)).insert(
        sp + "_plan_current_step"@,
        int_view(0),
    ).insert(sp + "_plan"@, empty_plan()).insert(sp + "_plan_state"@, string_view(plan_state_text(PlanState::Initial))).insert(
        sp + "_planner_state"@,
        string_view(planner_state_text(PlannerState::Ready)),
    )
}

/// A message about a goal: `a`, the id, `b`, the predicate.
pub open spec fn goal_message(a: Seq<char>, id: Seq<char>, b: Seq<char>, predicate: Seq<char>) -> Seq<char> {
    a + id + b + predicate
}

/// One goal tick, before the information message is written: the new state
/// and the message.
pub open spec fn goal_tick_decision(sp: Seq<char>, m: StateMap, drained: Seq<SPValueView>, ids: Seq<Seq<char>>) -> (StateMap, Seq<char>) {
    let cgs_key = sp + "_current_goal_state"@;
    let id = string_or_unknown(m, sp + "_current_goal_id"@);
    let pred = string_or_unknown(m, sp + "_current_goal_predicate"@);
    let sep = ": \n       "@;
    let queue = admitted(
        decode_goals(array_or_empty(m, sp + "_scheduled_goals"@)),
        decode_goals(drained),
        ids,
    );
    let m1 = m.insert(sp + "_scheduled_goals"@, queue_value(queue));
    match goal_state_of(string_or_unknown(m, cgs_key)) {
        GoalState::Initial => if bool_or_false(m, sp + "_replan_for_same_goal"@) {
            (
                with_replan(m1.insert(sp + "_replan_for_same_goal"@, bool_view(false)), sp),
                goal_message("Replan for same goal "@, id, sep, pred),
            )
        } else if queue.len() > 0 {
            let current = queue[0];
            (
                with_replan(
                    m1.insert(sp + "_scheduled_goals"@, queue_value(queue.drop_first())).insert(
                        sp + "_current_goal_id"@,
                        string_view(current.id),
                    ).insert(cgs_key, string_view(goal_state_text(GoalState::Executing))).insert(
                        sp + "_current_goal_predicate"@,
                        string_view(current.predicate),
                    ),
                    sp,
                ),
                goal_message("Initializing new goal "@, current.id, sep, current.predicate),
            )
        } else {
            (m1, "No goals scheduled, goal list is empty."@)
        },
        GoalState::Executing => (
            match plan_state_of(string_or_unknown(m, sp + "_plan_state"@)) {
                PlanState::Initial | PlanState::Executing => m1,
                PlanState::Failed => m1.insert(cgs_key, string_view(goal_state_text(GoalState::Failed))),
                PlanState::Completed => m1.insert(cgs_key, string_view(goal_state_text(GoalState::Completed))),
                PlanState::Cancelled => m1.insert(cgs_key, string_view(goal_state_text(GoalState::Cancelled))),
                PlanState::UNKNOWN => m1.insert(cgs_key, string_view(goal_state_text(GoalState::UNKNOWN))),
            },
            goal_message("Executing goal "@, id, sep, pred),
        ),
        GoalState::Failed => (
            m1.insert(cgs_key, string_view(goal_state_text(GoalState::Initial))),
            goal_message("Goal "@, id, " failed"@ + sep, pred),
        ),
        GoalState::Completed => (
            m1.insert(cgs_key, string_view(goal_state_text(GoalState::Initial))),
            goal_message("Goal "@, id, " completed"@ + sep, pred),
        ),
        GoalState::Cancelled => (
            m1.insert(cgs_key, string_view(goal_state_text(GoalState::Initial))),
            goal_message("Goal "@, id, " cancelled"@ + sep, pred),
        ),
        GoalState::UNKNOWN => (
            m1.insert(cgs_key, string_view(goal_state_text(GoalState::Initial))),
            string_or_unknown(m, sp + "_goal_runner_information"@),
        ),
    }
}

/// The state after one goal tick.
pub open spec fn goal_tick_state(sp: Seq<char>, m: StateMap, drained: Seq<SPValueView>, ids: Seq<Seq<char>>) -> StateMap {
    let (m1, info) = goal_tick_decision(sp, m, drained, ids);
    m1.insert(sp + "_goal_runner_information"@, string_view(info))
}

/// The views of a list of values.
pub open spec fn values_of(v: Seq<SPValue>) -> Seq<SPValueView> {
    Seq::new(v.len(), |j: int| v[j]@)
}

/// Asks the planner for a new plan.
fn request_replan(state: &mut State, sp_id: &str)
    requires
        old(state)@.contains_key(sp_id@ + "_replan_trigger"@),
        old(state)@.contains_key(sp_id@ + "_replanned"@),
        old(state)@.contains_key(sp_id@ + "_plan_current_step"@),
        old(state)@.contains_key(sp_id@ + "_plan"@),
        old(state)@.contains_key(sp_id@ + "_plan_state"@),
        old(state)@.contains_key(sp_id@ + "_planner_state"@),
    ensures
        final(state)@ == with_replan(old(state)@, sp_id@),
{
    state.update_mut(concat(sp_id, "_replan_trigger").as_str(), true.to_spvalue());
    state.update_mut(concat(sp_id, "_replanned").as_str(), false.to_spvalue());
    state.update_mut(concat(sp_id, "_plan_current_step").as_str(), 0i64.to_spvalue());
    let empty: Vec<String> = Vec::new();
    state.update_mut(concat(sp_id, "_plan").as_str(), empty.to_spvalue());
    state.update_mut(concat(sp_id, "_plan_state").as_str(), PlanState::Initial.to_spvalue());
    state.update_mut(concat(sp_id, "_planner_state").as_str(), PlannerState::Ready.to_spvalue());
    assert(Seq::new(empty.len() as nat, |j: int| string_view(empty[j]@)) =~= Seq::<SPValueView>::empty());
}

/// `a`, the id, `b`, the predicate.
fn build_goal_message(a: &str, id: &str, b: &str, predicate: &str) -> (r: String)
    ensures
        r@ == goal_message(a@, id@, b@, predicate@),
{
    let mut s = concat3(a, id, b);
    s.append(predicate);
    s
}

/// One goal tick with the given ids for the goals that need one.
///
/// `drained` is what was taken out of the inbox; `ids` holds one id for each
/// of those that decodes as a goal, followed by one for each scheduled goal
/// whose id is empty or `"UNKNOWN"`.
pub fn goal_tick_with_ids(sp_id: &str, state: &State, drained: &Vec<SPValue>, ids: Vec<String>, log_target: &str) -> (r: State)
    requires
        goal_tick_covered(state@, sp_id@),
        ids.len() == decode_goals(values_of(drained@)).len()
            + count_needing(
            decode_goals(array_or_empty(state@, sp_id@ + "_scheduled_goals"@)),
            decode_goals(array_or_empty(state@, sp_id@ + "_scheduled_goals"@)).len() as int,
        ),
    ensures
        r@ == goal_tick_state(
            sp_id@,
            state@,
            values_of(drained@),
            Seq::new(ids.len() as nat, |k: int| ids[k]@),
        ),
{
    let ghost m = state@;
    let ghost idv = Seq::new(ids.len() as nat, |k: int| ids[k]@);
    proof {
        assert(m.contains_key(goal_keys(sp_id@)[0]));
        assert(m.contains_key(goal_keys(sp_id@)[1]));
        assert(m.contains_key(goal_keys(sp_id@)[2]));
        assert(m.contains_key(goal_keys(sp_id@)[3]));
        assert(m.contains_key(goal_keys(sp_id@)[4]));
        assert(m.contains_key(goal_keys(sp_id@)[5]));
        assert(m.contains_key(goal_keys(sp_id@)[6]));
        assert(m.contains_key(goal_keys(sp_id@)[7]));
        assert(m.contains_key(goal_keys(sp_id@)[9]));
        assert(m.contains_key(goal_keys(sp_id@)[10]));
        assert(m.contains_key(goal_keys(sp_id@)[11]));
        assert(m.contains_key(goal_keys(sp_id@)[12]));
    }
    let cgs_key = concat(sp_id, "_current_goal_state");
    let info_key = concat(sp_id, "_goal_runner_information");
    let sched_key = concat(sp_id, "_scheduled_goals");
    let current_goal_state = state.get_string_or_default_to_unknown(cgs_key.as_str(), log_target);
    let mut info = state.get_string_or_default_to_unknown(info_key.as_str(), log_target);
    let current_goal_id = state.get_string_or_default_to_unknown(concat(sp_id, "_current_goal_id").as_str(), log_target);
    let current_goal_predicate = state.get_string_or_default_to_unknown(
        concat(sp_id, "_current_goal_predicate").as_str(),
        log_target,
    );
    let replan_for_same_goal = state.get_bool_or_default_to_false(concat(sp_id, "_replan_for_same_goal").as_str(), log_target);
    let plan_state = state.get_string_or_default_to_unknown(concat(sp_id, "_plan_state").as_str(), log_target);
    let scheduled_values = state.get_array_or_default_to_empty(sched_key.as_str(), log_target);
    proof {
        assert(Seq::new(scheduled_values.len() as nat, |j: int| scheduled_values[j]@) =~= array_or_empty(m, sp_id@ + "_scheduled_goals"@));
    }
    let scheduled = decode_goal_values(&scheduled_values);
    let incoming = decode_goal_values(drained);
    assert(values_of(drained@) =~= Seq::new(drained.len() as nat, |j: int| drained[j]@));
    let queue = admit_goals_with_ids(scheduled, incoming, ids);
    let mut new_state = state.duplicate();
    new_state.update_mut(sched_key.as_str(), encode_goals(&queue));
    let sep = ": \n       ";
    match GoalState::from_str(current_goal_state.as_str()) {
        GoalState::Initial => {
            if replan_for_same_goal {
                info = build_goal_message("Replan for same goal ", current_goal_id.as_str(), sep, current_goal_predicate.as_str());
                new_state.update_mut(concat(sp_id, "_replan_for_same_goal").as_str(), false.to_spvalue());
                request_replan(&mut new_state, sp_id);
            } else if queue.len() > 0 {
                let current = &queue[0];
                let mut rest: Vec<Goal> = Vec::new();
                let mut i: usize = 1;
                while i < queue.len()
                    invariant
                        1 <= i <= queue.len(),
                        rest.len() == i - 1,
                        forall|j: int| 0 <= j < i - 1 ==> #[trigger] rest[j]@ == queue[j + 1]@,
                    decreases queue.len() - i,
                {
                    rest.push(queue[i].clone_goal());
                    i += 1;
                }
                assert(goal_views(rest@) =~= goal_views(queue@).drop_first());
                info = build_goal_message("Initializing new goal ", current.id.as_str(), sep, current.predicate.as_str());
                new_state.update_mut(sched_key.as_str(), encode_goals(&rest));
                new_state.update_mut(concat(sp_id, "_current_goal_id").as_str(), current.id.to_spvalue());
                new_state.update_mut(cgs_key.as_str(), GoalState::Executing.to_spvalue());
                new_state.update_mut(concat(sp_id, "_current_goal_predicate").as_str(), current.predicate.to_spvalue());
                request_replan(&mut new_state, sp_id);
            } else {
                info = String::from_str("No goals scheduled, goal list is empty.");
            }
        },
        GoalState::Executing => {
            info = build_goal_message("Executing goal ", current_goal_id.as_str(), sep, current_goal_predicate.as_str());
            match PlanState::from_str(plan_state.as_str()) {
                PlanState::Initial => {},
                PlanState::Executing => {},
                PlanState::Failed => {
                    new_state.update_mut(cgs_key.as_str(), GoalState::Failed.to_spvalue());
                },
                PlanState::Completed => {
                    new_state.update_mut(cgs_key.as_str(), GoalState::Completed.to_spvalue());
                },
                PlanState::Cancelled => {
                    new_state.update_mut(cgs_key.as_str(), GoalState::Cancelled.to_spvalue());
                },
                PlanState::UNKNOWN => {
                    new_state.update_mut(cgs_key.as_str(), GoalState::UNKNOWN.to_spvalue());
                },
            }
        },
        GoalState::Failed => {
            info = build_goal_message("Goal ", current_goal_id.as_str(), " failed: \n       ", current_goal_predicate.as_str());
            new_state.update_mut(cgs_key.as_str(), GoalState::Initial.to_spvalue());
        },
        GoalState::Completed => {
            info = build_goal_message("Goal ", current_goal_id.as_str(), " completed: \n       ", current_goal_predicate.as_str());
            new_state.update_mut(cgs_key.as_str(), GoalState::Initial.to_spvalue());
        },
        GoalState::Cancelled => {
            info = build_goal_message("Goal ", current_goal_id.as_str(), " cancelled: \n       ", current_goal_predicate.as_str());
            new_state.update_mut(cgs_key.as_str(), GoalState::Initial.to_spvalue());
        },
        GoalState::UNKNOWN => {
            new_state.update_mut(cgs_key.as_str(), GoalState::Initial.to_spvalue());
        },
    }
    proof {
        reveal_strlit(" failed");
        reveal_strlit(" completed");
        reveal_strlit(" cancelled");
        reveal_strlit(": \n       ");
        reveal_strlit(" failed: \n       ");
        reveal_strlit(" completed: \n       ");
        reveal_strlit(" cancelled: \n       ");
        assert(" failed: \n       "@ =~= " failed"@ + ": \n       "@);
        assert(" completed: \n       "@ =~= " completed"@ + ": \n       "@);
        assert(" cancelled: \n       "@ =~= " cancelled"@ + ": \n       "@);
    }
    new_state.update_mut(info_key.as_str(), info.to_spvalue());
    new_state
}

/// One goal tick: the goals taken out of the inbox join the queue with fresh
/// random ids (as do queued goals without an id), and the current goal moves
/// on.  The ids are random; every other effect is fixed.
pub fn goal_tick(sp_id: &str, state: &State, drained: &Vec<SPValue>, log_target: &str) -> (r: State)
    requires
        goal_tick_covered(state@, sp_id@),
    ensures
        exists|ids: Seq<Seq<char>>| #![trigger goal_tick_state(sp_id@, state@, values_of(drained@), ids)]
            (forall|k: int| 0 <= k < ids.len() ==> is_id(#[trigger] ids[k]))
            && ids.len() == decode_goals(values_of(drained@)).len() + count_needing(
                decode_goals(array_or_empty(state@, sp_id@ + "_scheduled_goals"@)),
                decode_goals(array_or_empty(state@, sp_id@ + "_scheduled_goals"@)).len() as int,
            )
            && r@ == goal_tick_state(sp_id@, state@, values_of(drained@), ids),
{
    let sched_key = concat(sp_id, "_scheduled_goals");
    let scheduled_values = state.get_array_or_default_to_empty(sched_key.as_str(), log_target);
    proof {
        assert(Seq::new(scheduled_values.len() as nat, |j: int| scheduled_values[j]@) =~= array_or_empty(state@, sp_id@ + "_scheduled_goals"@));
    }
    let scheduled = decode_goal_values(&scheduled_values);
    let incoming = decode_goal_values(drained);
    assert(values_of(drained@) =~= Seq::new(drained.len() as nat, |j: int| drained[j]@));
    let needed = count_missing_ids(&scheduled);
    let mut ids: Vec<String> = Vec::new();
    let mut k: usize = 0;
    while k < incoming.len()
        invariant
            k <= incoming.len(),
            ids.len() == k,
            forall|j: int| 0 <= j < ids.len() ==> is_id(#[trigger] ids[j]@),
        decreases incoming.len() - k,
    {
        ids.push(new_id());
        k += 1;
    }
    let mut k: usize = 0;
    while k < needed
        invariant
            k <= needed,
            ids.len() == incoming.len() + k,
            forall|j: int| 0 <= j < ids.len() ==> is_id(#[trigger] ids[j]@),
        decreases needed - k,
    {
        ids.push(new_id());
        k += 1;
    }
    let ghost idv = Seq::new(ids.len() as nat, |j: int| ids[j]@);
    assert(forall|j: int| 0 <= j < idv.len() ==> is_id(#[trigger] idv[j]));
    goal_tick_with_ids(sp_id, state, drained, ids, log_target)
}


// ----------------------------------------------------------------------------
// Laws of the goal runner.
/// Every goal state reads back as itself from the string it is written as.
proof fn lemma_goal_state_text_round_trip(s: GoalState)
    ensures
        goal_state_of(goal_state_text(s)) == s,
{
    reveal_strlit("initial");
    reveal_strlit("executing");
    reveal_strlit("failed");
    reveal_strlit("cancelled");
    reveal_strlit("completed");
    reveal_strlit("unknown");
    assert("initial"@.len() == 7);
    assert("executing"@.len() == 9);
    assert("failed"@.len() == 6);
    assert("cancelled"@.len() == 9);
    assert("completed"@.len() == 9);
    assert("unknown"@.len() == 7);
    assert("initial"@[0] != "unknown"@[0]);
    assert("cancelled"@[1] != "completed"@[1]);
    assert("cancelled"@[0] != "executing"@[0]);
    assert("completed"@[0] != "executing"@[0]);
}

/// While the current goal executes, a goal tick makes it follow its plan:
/// a completed plan makes the goal completed, a failed plan failed, a
/// cancelled plan cancelled, and a plan still initial or executing leaves
/// the goal executing.  The current goal stays the current goal.
pub proof fn lemma_executing_goal_follows_its_plan(
    sp: Seq<char>,
    m: StateMap,
    drained: Seq<SPValueView>,
    ids: Seq<Seq<char>>,
)
    requires
        goal_state_of(string_or_unknown(m, sp + "_current_goal_state"@)) == GoalState::Executing,
    ensures
        ({
            let r = goal_tick_state(sp, m, drained, ids);
            let goal = goal_state_of(string_or_unknown(r, sp + "_current_goal_state"@));
            let plan = plan_state_of(string_or_unknown(m, sp + "_plan_state"@));
            &&& plan == PlanState::Completed ==> goal == GoalState::Completed
            &&& plan == PlanState::Failed ==> goal == GoalState::Failed
            &&& plan == PlanState::Cancelled ==> goal == GoalState::Cancelled
            &&& (plan == PlanState::Initial || plan == PlanState::Executing) ==> goal == GoalState::Executing
            &&& r.contains_key(sp + "_current_goal_id"@) == m.contains_key(sp + "_current_goal_id"@)
            &&& m.contains_key(sp + "_current_goal_id"@) ==> r[sp + "_current_goal_id"@] == m[sp + "_current_goal_id"@]
        }),
{
    reveal_strlit("_current_goal_state");
    reveal_strlit("_current_goal_id");
    reveal_strlit("_scheduled_goals");
    reveal_strlit("_goal_runner_information");
    let cgs = sp + "_current_goal_state"@;
    let cid = sp + "_current_goal_id"@;
    assert(cgs.len() == sp.len() + 19);
    assert(cid.len() == sp.len() + 16);
    assert((sp + "_scheduled_goals"@).len() == sp.len() + 16);
    assert((sp + "_goal_runner_information"@).len() == sp.len() + 24);
    assert(cid[sp.len() + 1int] != (sp + "_scheduled_goals"@)[sp.len() + 1int]);
    lemma_goal_state_text_round_trip(GoalState::Completed);
    lemma_goal_state_text_round_trip(GoalState::Failed);
    lemma_goal_state_text_round_trip(GoalState::Cancelled);
}

} // verus!
