//! The decisions of one tick of the planner.
//!
//! The planner reacts to `{sp_id}_replan_trigger`.  With the trigger down
//! it clears `{sp_id}_replanned`; with both up (the plan runner has not
//! taken the last plan yet) it clears both; with the trigger up alone it
//! drops the current plan and, if `{sp_id}_planner_state` reads `ready`,
//! asks for a plan.  No plan: the planner state becomes `not_found`.  A
//! plan: the state becomes `found` and the plan gets an id; an empty plan
//! means the goal already holds, a plan with steps is raised (each step
//! its operation's name, `_` and a fresh id, with the step's lifecycle and
//! bookkeeping variables), `{sp_id}_replanned` goes up and the plan
//! counter counts it.
//!
//! The search itself is not part of this tick: the tick says whether it is
//! needed and takes its result.
use crate::ids::{is_id, new_id};
use crate::plan_runner::string_items;
use crate::operation::operation_views;
use crate::predicate::{contains_name, push_name};
use crate::runner_keys::{names_of, normalize_keys, ops_mention, push_all, strictly_sorted};
use crate::sop::Model;
use crate::runner_states::{planner_state_of, planner_state_text, PlannerState};
use crate::sop_multi_driver::joined;
use crate::state::{array_or_empty, bool_or_false, int_or_zero, string_or_unknown, State};
use crate::state_init::{add_operation_meta_tracking_variables, add_operation_state_tracking_variable, with_metas};
use crate::text::{concat, concat3, nat_decimal, u64_decimal};
use crate::transition::StateMap;
use crate::value::{bool_view, int_view, string_view, SPValueView, ToSPValue};
use vstd::prelude::*;

verus! {

/// What a search for a plan found.
pub struct PlanningResult {
    /// Whether a plan was found.
    pub found: bool,
    /// The number of steps.
    pub length: usize,
    /// The operations to run, in order.
    pub plan: Vec<String>,
}

/// The keys the planner tick writes back.
pub open spec fn planner_keys_present(m: StateMap, sp: Seq<char>) -> bool {
    &&& m.contains_key(sp + "_replan_trigger"@)
    &&& m.contains_key(sp + "_replanned"@)
    &&& m.contains_key(sp + "_plan_counter"@)
    &&& m.contains_key(sp + "_planner_state"@)
    &&& m.contains_key(sp + "_plan_id"@)
    &&& m.contains_key(sp + "_plan"@)
    &&& m.contains_key(sp + "_planner_information"@)
}

/// Whether this tick asks for a plan: the trigger is up, the last plan has
/// been taken, and the planner is ready.
pub open spec fn needs_plan(m: StateMap, sp: Seq<char>) -> bool {
    &&& bool_or_false(m, sp + "_replan_trigger"@)
    &&& !bool_or_false(m, sp + "_replanned"@)
    &&& planner_state_of(string_or_unknown(m, sp + "_planner_state"@)) == PlannerState::Ready
}

/// The lines of a plan: `       {n} -> {step}` for each step, counted from one.
pub open spec fn plan_lines(plan: Seq<Seq<char>>) -> Seq<char> {
    joined(Seq::new(plan.len(), |i: int| "       "@ + nat_decimal((i + 1) as nat) + " -> "@ + plan[i]), "\n"@)
}

/// The state after the variables of freshly planned steps are added: their
/// lifecycle variables at `"initial"`, then their bookkeeping variables.
pub open spec fn with_planned(steps: Seq<Seq<char>>, m: StateMap) -> StateMap {
    with_metas(
        steps,
        m.union_prefer_right(Map::new(|k: Seq<char>| steps.contains(k), |k: Seq<char>| string_view("initial"@))),
        false,
    )
}

/// What the planner decides in one tick: (trigger, replanned, plan
/// counter, planner state, plan id, plan, information, state).  Where a
/// plan is asked for, `found`, `length` and `plan` are what the search
/// gave; the plan gets the id `plan_id` and step `i` the id `step_ids[i]`.
pub open spec fn planner_decision(
    sp: Seq<char>,
    m: StateMap,
    found: bool,
    length: nat,
    plan: Seq<Seq<char>>,
    plan_id: Seq<char>,
    step_ids: Seq<Seq<char>>,
) -> (bool, bool, i64, Seq<char>, Seq<char>, Seq<Seq<char>>, Seq<char>, StateMap) {
    let trigger = bool_or_false(m, sp + "_replan_trigger"@);
    let replanned = bool_or_false(m, sp + "_replanned"@);
    let counter = int_or_zero(m, sp + "_plan_counter"@);
    let planner = string_or_unknown(m, sp + "_planner_state"@);
    let old_id = string_or_unknown(m, sp + "_plan_id"@);
    let old_plan = string_items(array_or_empty(m, sp + "_plan"@));
    let info = string_or_unknown(m, sp + "_planner_information"@);
    if !trigger {
        (trigger, false, counter, planner, old_id, old_plan, info, m)
    } else if replanned {
        (false, false, counter, planner, old_id, old_plan, info, m)
    } else if planner_state_of(planner) != PlannerState::Ready {
        (trigger, replanned, counter, planner, old_id, Seq::empty(), info, m)
    } else if !found {
        (
            trigger,
            replanned,
            counter,
            planner_state_text(PlannerState::NotFound),
            Seq::empty(),
            Seq::empty(),
            "Planner triggered but no plan was found."@,
            m,
        )
    } else if length > 0 {
        let steps = Seq::new(plan.len(), |i: int| plan[i] + "_"@ + step_ids[i]);
        (
            trigger,
            true,
            counter.wrapping_add(1),
            planner_state_text(PlannerState::Found),
            plan_id,
            steps,
            "Got a new plan "@ + plan_id + ":\n"@ + plan_lines(steps),
            with_planned(steps, m),
        )
    } else {
        (
            trigger,
            replanned,
            counter,
            planner_state_text(PlannerState::Found),
            plan_id,
            Seq::empty(),
            "We are already in the goal. No action needed."@,
            m,
        )
    }
}

/// The state after one planner tick: what it decided, written back.
pub open spec fn planner_tick_state(
    sp: Seq<char>,
    m: StateMap,
    found: bool,
    length: nat,
    plan: Seq<Seq<char>>,
    plan_id: Seq<char>,
    step_ids: Seq<Seq<char>>,
) -> StateMap {
    let (trigger, replanned, counter, planner, id, steps, info, m1) = planner_decision(
        sp,
        m,
        found,
        length,
        plan,
        plan_id,
        step_ids,
    );
    m1.insert(sp + "_replan_trigger"@, bool_view(trigger)).insert(sp + "_replanned"@, bool_view(replanned)).insert(
        sp + "_plan_counter"@,
        int_view(counter),
    ).insert(sp + "_planner_state"@, string_view(planner)).insert(sp + "_plan_id"@, string_view(id)).insert(
        sp + "_plan"@,
        SPValueView::Array(Some(Seq::new(steps.len(), |i: int| string_view(steps[i])))),
    ).insert(sp + "_planner_information"@, string_view(info))
}


/// Whether this tick asks for a plan.
pub fn plan_needed(sp_id: &str, state: &State, log_target: &str) -> (r: bool)
    ensures
        r == needs_plan(state@, sp_id@),
{
    let trigger_k = concat(sp_id, "_replan_trigger");
    let replanned_k = concat(sp_id, "_replanned");
    let planner_k = concat(sp_id, "_planner_state");
    let trigger = state.get_bool_or_default_to_false(trigger_k.as_str(), log_target);
    let replanned = state.get_bool_or_default_to_false(replanned_k.as_str(), log_target);
    let planner = state.get_string_or_default_to_unknown(planner_k.as_str(), log_target);
    trigger && !replanned && PlannerState::from_str(planner.as_str()) == PlannerState::Ready
}

/// The lines of a plan, counted from one.
fn plan_lines_text(steps: &Vec<String>) -> (r: String)
    ensures
        r@ == plan_lines(names_of(steps@)),
{
    let ghost items = Seq::new(steps.len() as nat, |i: int| "       "@ + nat_decimal((i + 1) as nat) + " -> "@ + steps[i]@);
    let mut out = String::new();
    proof {
        reveal_strlit("");
    }
    assert(out@ =~= joined(items.take(0), "\n"@));
    let mut i: usize = 0;
    while i < steps.len()
        invariant
            i <= steps.len(),
            items == Seq::new(steps.len() as nat, |i: int| "       "@ + nat_decimal((i + 1) as nat) + " -> "@ + steps[i]@),
            out@ == joined(items.take(i as int), "\n"@),
        decreases steps.len() - i,
    {
        let ghost t = items.take(i + 1);
        assert(t.drop_last() =~= items.take(i as int));
        if i > 0 {
            out.append("\n");
        } else {
            assert(t =~= seq![items[0]]);
        }
        out.append("       ");
        let n = u64_decimal((i + 1) as u64);
        out.append(n.as_str());
        out.append(" -> ");
        out.append(steps[i].as_str());
        assert(t.last() == items[i as int]);
        assert(out@ =~= joined(t, "\n"@));
        i += 1;
    }
    assert(items.take(steps.len() as int) =~= items);
    assert(names_of(steps@).len() == steps.len());
    assert(items =~= Seq::new(names_of(steps@).len(), |i: int| "       "@ + nat_decimal((i + 1) as nat) + " -> "@ + names_of(steps@)[i]));
    out
}

/// One planner tick, where a search asked for gave `result`, the plan
/// gets the id `plan_id` and step `i` the id `step_ids[i]`.
pub fn process_planner_tick_with(
    sp_id: &str,
    state: &State,
    result: &PlanningResult,
    plan_id: String,
    step_ids: &Vec<String>,
    log_target: &str,
) -> (r: State)
    requires
        planner_keys_present(state@, sp_id@),
        step_ids.len() >= result.plan.len(),
    ensures
        r@ == planner_tick_state(
            sp_id@,
            state@,
            result.found,
            result.length as nat,
            names_of(result.plan@),
            plan_id@,
            names_of(step_ids@),
        ),
{
    let ghost m = state@;
    let trigger_k = concat(sp_id, "_replan_trigger");
    let replanned_k = concat(sp_id, "_replanned");
    let counter_k = concat(sp_id, "_plan_counter");
    let planner_k = concat(sp_id, "_planner_state");
    let id_k = concat(sp_id, "_plan_id");
    let plan_k = concat(sp_id, "_plan");
    let info_k = concat(sp_id, "_planner_information");
    let mut trigger = state.get_bool_or_default_to_false(trigger_k.as_str(), log_target);
    let mut replanned = state.get_bool_or_default_to_false(replanned_k.as_str(), log_target);
    let mut counter = state.get_int_or_default_to_zero(counter_k.as_str(), log_target);
    let mut planner = state.get_string_or_default_to_unknown(planner_k.as_str(), log_target);
    let mut id = state.get_string_or_default_to_unknown(id_k.as_str(), log_target);
    let mut plan = crate::plan_runner::read_plan(state, sp_id, log_target);
    let mut info = state.get_string_or_default_to_unknown(info_k.as_str(), log_target);
    let mut new_state = state.duplicate();
    assert(names_of(plan@) == string_items(array_or_empty(m, sp_id@ + "_plan"@)));
    if !trigger {
        replanned = false;
    } else if replanned {
        trigger = false;
        replanned = false;
    } else {
        plan = Vec::new();
        if PlannerState::from_str(planner.as_str()) == PlannerState::Ready {
            if !result.found {
                id = String::new();
                info = String::from_str("Planner triggered but no plan was found.");
                planner = PlannerState::NotFound.to_string();
                proof {
                    reveal_strlit("");
                }
            } else {
                planner = PlannerState::Found.to_string();
                id = plan_id;
                if result.length > 0 {
                    replanned = true;
                    counter = counter.wrapping_add(1);
                    let mut steps: Vec<String> = Vec::new();
                    let mut i: usize = 0;
                    while i < result.plan.len()
                        invariant
                            i <= result.plan.len(),
                            step_ids.len() >= result.plan.len(),
                            steps.len() == i,
                            forall|j: int| 0 <= j < i ==> #[trigger] steps[j]@ == result.plan[j]@ + "_"@ + step_ids[j]@,
                        decreases result.plan.len() - i,
                    {
                        steps.push(concat3(result.plan[i].as_str(), "_", step_ids[i].as_str()));
                        i += 1;
                    }
                    let ghost sv = Seq::new(result.plan@.len(), |i: int| names_of(result.plan@)[i] + "_"@ + names_of(step_ids@)[i]);
                    assert(names_of(steps@) =~= sv);
                    let s1 = add_operation_state_tracking_variable(&steps, &new_state, log_target);
                    new_state = add_operation_meta_tracking_variables(&steps, &s1, false, log_target);
                    proof {
                        assert forall|k: Seq<char>| #[trigger] crate::predicate::contains_name(steps@, k) == sv.contains(k) by {
                            if crate::predicate::contains_name(steps@, k) {
                                let j = choose|j: int| 0 <= j < steps@.len() && #[trigger] steps@[j]@ == k;
                                assert(sv[j] == k);
                            }
                            if sv.contains(k) {
                                let j = choose|j: int| 0 <= j < sv.len() && sv[j] == k;
                                assert(steps@[j]@ == k);
                            }
                        }
                        assert(s1@ =~= m.union_prefer_right(Map::new(|k: Seq<char>| sv.contains(k), |k: Seq<char>| string_view("initial"@))));
                        assert(new_state@ == with_planned(sv, m));
                    }
                    let mut text = concat3("Got a new plan ", id.as_str(), ":\n");
                    let lines = plan_lines_text(&steps);
                    text.append(lines.as_str());
                    info = text;
                    plan = steps;
                } else {
                    info = String::from_str("We are already in the goal. No action needed.");
                }
            }
        }
    }
    proof {
        let (t, rp, c, p, pid, st, inf, m1) = planner_decision(
            sp_id@,
            m,
            result.found,
            result.length as nat,
            names_of(result.plan@),
            plan_id@,
            names_of(step_ids@),
        );
        assert(trigger == t && replanned == rp && counter == c && planner@ == p && id@ == pid);
        assert(names_of(plan@) =~= st);
        assert(info@ == inf);
        assert(new_state@ == m1);
        crate::auto_operation_driver::lemma_with_metas_holds(st, m.union_prefer_right(Map::new(|k: Seq<char>| st.contains(k), |k: Seq<char>| string_view("initial"@))), false);
    }
    new_state.update_mut(trigger_k.as_str(), trigger.to_spvalue());
    new_state.update_mut(replanned_k.as_str(), replanned.to_spvalue());
    new_state.update_mut(counter_k.as_str(), counter.to_spvalue());
    new_state.update_mut(planner_k.as_str(), planner.to_spvalue());
    new_state.update_mut(id_k.as_str(), id.to_spvalue());
    new_state.update_mut(plan_k.as_str(), plan.to_spvalue());
    new_state.update_mut(info_k.as_str(), info.to_spvalue());
    proof {
        assert(Seq::new(plan.len() as nat, |j: int| string_view(plan[j]@)) =~= Seq::new(names_of(plan@).len(), |i: int| string_view(names_of(plan@)[i])));
    }
    new_state
}

/// One planner tick, where a search asked for gave `result`.  The plan and
/// its steps get fresh random ids; every other effect is fixed.
pub fn process_planner_tick(sp_id: &str, state: &State, result: &PlanningResult, log_target: &str) -> (r: State)
    requires
        planner_keys_present(state@, sp_id@),
    ensures
        exists|plan_id: Seq<char>, step_ids: Seq<Seq<char>>|
            #![trigger planner_tick_state(sp_id@, state@, result.found, result.length as nat, names_of(result.plan@), plan_id, step_ids)]
            {
                &&& is_id(plan_id)
                &&& step_ids.len() == result.plan.len()
                &&& forall|i: int| 0 <= i < step_ids.len() ==> is_id(#[trigger] step_ids[i])
                &&& r@ == planner_tick_state(
                    sp_id@,
                    state@,
                    result.found,
                    result.length as nat,
                    names_of(result.plan@),
                    plan_id,
                    step_ids,
                )
            },
{
    let plan_id = new_id();
    let mut step_ids: Vec<String> = Vec::new();
    let mut i: usize = 0;
    while i < result.plan.len()
        invariant
            i <= result.plan.len(),
            step_ids.len() == i,
            forall|j: int| 0 <= j < i ==> is_id(#[trigger] step_ids[j]@),
        decreases result.plan.len() - i,
    {
        step_ids.push(new_id());
        i += 1;
    }
    let ghost sv = names_of(step_ids@);
    assert(forall|j: int| 0 <= j < sv.len() ==> is_id(#[trigger] sv[j]));
    process_planner_tick_with(sp_id, state, result, plan_id, &step_ids, log_target)
}


/// The planner's own variables.
pub open spec fn planner_own_key(sp: Seq<char>, n: Seq<char>) -> bool {
    ||| n == sp + "_planner_information"@
    ||| n == sp + "_planner_state"@
    ||| n == sp + "_plan_state"@
    ||| n == sp + "_plan_current_step"@
    ||| n == sp + "_plan"@
    ||| n == sp + "_plan_id"@
    ||| n == sp + "_replan_trigger"@
    ||| n == sp + "_replanned"@
    ||| n == sp + "_plan_counter"@
    ||| n == sp + "_replan_counter"@
    ||| n == sp + "_replan_counter_total"@
    ||| n == sp + "_current_goal_state"@
    ||| n == sp + "_current_goal_predicate"@
}

/// The keys the planner reads when it plans: its own variables, and the
/// names and variables of the planned operations, sorted, each once.
pub fn planner_ticker_keys(sp_id: &str, model: &Model) -> (r: Vec<String>)
    ensures
        strictly_sorted(names_of(r@)),
        forall|n: Seq<char>| #[trigger] contains_name(r@, n) == (planner_own_key(sp_id@, n) || ops_mention(
            operation_views(model.operations@),
            n,
        )),
{
    let ghost ops = operation_views(model.operations@);
    let mut keys: Vec<String> = Vec::new();
    let mut i: usize = 0;
    assert forall|n: Seq<char>| #[trigger] contains_name(keys@, n) == ops_mention(ops.take(0), n) by {}
    while i < model.operations.len()
        invariant
            i <= model.operations.len(),
            ops == operation_views(model.operations@),
            forall|n: Seq<char>| #[trigger] contains_name(keys@, n) == ops_mention(ops.take(i as int), n),
        decreases model.operations.len() - i,
    {
        let k = model.operations[i].get_all_var_keys();
        let ghost before = keys@;
        push_all(&mut keys, &k);
        let ghost mid = keys@;
        push_name(&mut keys, model.operations[i].name.clone());
        proof {
            let o = ops[i as int];
            assert(o == model.operations[i as int]@);
            let t0 = ops.take(i as int);
            let t1 = ops.take(i + 1);
            assert(t1 =~= t0.push(o));
            assert forall|n: Seq<char>| #[trigger] contains_name(keys@, n) == ops_mention(t1, n) by {
                assert(contains_name(mid, n) == (contains_name(before, n) || contains_name(k@, n)));
                assert(contains_name(before, n) == ops_mention(t0, n));
                crate::runner_keys::lemma_ops_mention_push(t0, o, n);
            }
        }
        i += 1;
    }
    assert(ops.take(model.operations.len() as int) =~= ops);
    let ghost before = keys@;
    push_name(&mut keys, concat(sp_id, "_planner_information"));
    push_name(&mut keys, concat(sp_id, "_planner_state"));
    push_name(&mut keys, concat(sp_id, "_plan_state"));
    push_name(&mut keys, concat(sp_id, "_plan_current_step"));
    push_name(&mut keys, concat(sp_id, "_plan"));
    push_name(&mut keys, concat(sp_id, "_plan_id"));
    push_name(&mut keys, concat(sp_id, "_replan_trigger"));
    push_name(&mut keys, concat(sp_id, "_replanned"));
    push_name(&mut keys, concat(sp_id, "_plan_counter"));
    push_name(&mut keys, concat(sp_id, "_replan_counter"));
    push_name(&mut keys, concat(sp_id, "_replan_counter_total"));
    push_name(&mut keys, concat(sp_id, "_current_goal_state"));
    push_name(&mut keys, concat(sp_id, "_current_goal_predicate"));
    normalize_keys(keys)
}

} // verus!
