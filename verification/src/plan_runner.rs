//! Executing the current plan, one step at a time.
//!
//! The plan is the list of step names in `{sp_id}_plan`; each step is a
//! model operation under a unique name (its own name, `_` and a ten
//! character id).  A tick of the plan runner starts an initial plan once the
//! planner found one (or fails it when the planner found none), advances the
//! current step through the operation state machine, and completes the plan
//! when the cursor has walked off its end.
use crate::ids::ID_LEN;
use crate::operation::{operation_views, Operation, OperationView};
use crate::process::{process_operation, tick_covered, tick_decision, tick_state, OperationProcessingType};
use crate::predicate::contains_name;
use crate::runner_keys::{lemma_appended_names, op_keys, push_operation_keys, names_of};
use crate::runner_states::{plan_state_of, plan_state_text, planner_state_text, PlanState, PlannerState};
use crate::sop::Model;
use crate::state::{array_or_empty, int_or_zero, string_or_unknown, State};
use crate::text::{concat, has_prefix, id_char, is_id_char, starts_with, str_eq};
use crate::transition::StateMap;
use crate::value::{int_view, string_view, SPValue, SPValueView, StringOrUnknown, ToSPValue};
use vstd::prelude::*;

verus! {

/// Whether `step` ends in a step suffix: `_` followed by ten id characters,
/// with something before it.
pub open spec fn looks_like_step(step: Seq<char>) -> bool {
    step.len() > ID_LEN + 1 && step[step.len() - (ID_LEN + 1)] == '_' && forall|i: int|
        step.len() - ID_LEN <= i < step.len() ==> is_id_char(#[trigger] step[i])
}

/// The name a step was made from: the step without its suffix.
pub open spec fn step_template(step: Seq<char>) -> Seq<char> {
    step.subrange(0, step.len() - (ID_LEN + 1))
}

/// The first of `ops[k..]` named `t`, if any.
pub open spec fn first_named(ops: Seq<OperationView>, t: Seq<char>, k: int) -> Option<int>
    decreases ops.len() - k,
{
    if k < 0 || k >= ops.len() {
        None
    } else if ops[k].name == t {
        Some(k)
    } else {
        first_named(ops, t, k + 1)
    }
}

/// Among `ops[..n]`, the operation with the longest name that is a prefix
/// of `step`; of equally long ones the last.
pub open spec fn longest_prefix(ops: Seq<OperationView>, step: Seq<char>, n: int) -> Option<int>
    decreases n,
{
    if n <= 0 {
        None
    } else {
        let prev = longest_prefix(ops, step, n - 1);
        if has_prefix(step, ops[n - 1].name) {
            match prev {
                Some(p) => if ops[n - 1].name.len() >= ops[p].name.len() {
                    Some(n - 1)
                } else {
                    Some(p)
                },
                None => Some(n - 1),
            }
        } else {
            prev
        }
    }
}

/// The operation a step was made from: the one named as the step without
/// its suffix, if the step has one and such an operation exists; otherwise
/// the one with the longest name the step begins with.
pub open spec fn step_operation(ops: Seq<OperationView>, step: Seq<char>) -> Option<int> {
    if looks_like_step(step) && first_named(ops, step_template(step), 0) is Some {
        first_named(ops, step_template(step), 0)
    } else {
        longest_prefix(ops, step, ops.len() as int)
    }
}

proof fn lemma_first_named(ops: Seq<OperationView>, t: Seq<char>, k: int)
    requires
        0 <= k <= ops.len(),
    ensures
        match first_named(ops, t, k) {
            Some(i) => k <= i < ops.len() && ops[i].name == t,
            None => true,
        },
    decreases ops.len() - k,
{
    if k < ops.len() {
        lemma_first_named(ops, t, k + 1);
    }
}

proof fn lemma_longest_prefix(ops: Seq<OperationView>, step: Seq<char>, n: int)
    requires
        0 <= n <= ops.len(),
    ensures
        match longest_prefix(ops, step, n) {
            Some(i) => 0 <= i < n,
            None => true,
        },
    decreases n,
{
    if n > 0 {
        lemma_longest_prefix(ops, step, n - 1);
    }
}

/// The model operation a plan step was made from, if any.
pub fn find_step_operation<'a>(operations: &'a [Operation], step: &str) -> (r: Option<&'a Operation>)
    ensures
        match step_operation(operation_views(operations@), step@) {
            Some(i) => r is Some && r.unwrap()@ == operations@[i]@,
            None => r is None,
        },
{
    let ghost ops = operation_views(operations@);
    let n = step.unicode_len();
    if n > ID_LEN + 1 && step.get_char(n - (ID_LEN + 1)) == '_' {
        let mut all_id = true;
        let mut i: usize = n - ID_LEN;
        while i < n
            invariant
                n == step@.len(),
                n > ID_LEN + 1,
                n - ID_LEN <= i <= n,
                all_id == forall|j: int| n - ID_LEN <= j < i ==> is_id_char(#[trigger] step@[j]),
            decreases n - i,
        {
            let c = step.get_char(i);
            proof {
                if all_id && !is_id_char(c) {
                    assert(!(forall|j: int| n - ID_LEN <= j < i + 1 ==> is_id_char(#[trigger] step@[j])));
                }
                if !all_id {
                    assert(!(forall|j: int| n - ID_LEN <= j < i + 1 ==> is_id_char(#[trigger] step@[j])));
                }
            }
            all_id = all_id && id_char(c);
            i += 1;
        }
        if all_id {
            let template = step.substring_char(0, n - (ID_LEN + 1));
            let mut k: usize = 0;
            while k < operations.len()
                invariant
                    k <= operations.len(),
                    ops == operation_views(operations@),
                    template@ == step_template(step@),
                    looks_like_step(step@),
                    first_named(ops, template@, 0) == first_named(ops, template@, k as int),
                decreases operations.len() - k,
            {
                if str_eq(operations[k].name.as_str(), template) {
                    assert(ops[k as int] == operations@[k as int]@);
                    return Some(&operations[k]);
                }
                assert(ops[k as int] == operations@[k as int]@);
                k += 1;
            }
        }
    }
    let mut best: Option<usize> = None;
    let mut best_len: usize = 0;
    let mut k: usize = 0;
    while k < operations.len()
        invariant
            k <= operations.len(),
            ops == operation_views(operations@),
            match best {
                Some(b) => longest_prefix(ops, step@, k as int) == Some(b as int) && b < k && best_len == ops[b as int].name.len(),
                None => longest_prefix(ops, step@, k as int) is None,
            },
        decreases operations.len() - k,
    {
        assert(ops[k as int] == operations@[k as int]@);
        let name = operations[k].name.as_str();
        if starts_with(step, name) {
            let len = name.unicode_len();
            match best {
                Some(_) => {
                    if len >= best_len {
                        best = Some(k);
                        best_len = len;
                    }
                },
                None => {
                    best = Some(k);
                    best_len = len;
                },
            }
        }
        k += 1;
    }
    match best {
        Some(b) => {
            assert(ops[b as int] == operations@[b as int]@);
            Some(&operations[b])
        },
        None => None,
    }
}

/// The known strings among the values, in order.
pub open spec fn string_items(s: Seq<SPValueView>) -> Seq<Seq<char>>
    decreases s.len(),
{
    if s.len() == 0 {
        Seq::empty()
    } else {
        match s.last() {
            SPValueView::String(Some(x)) => string_items(s.drop_last()).push(x),
            _ => string_items(s.drop_last()),
        }
    }
}

/// The steps of the current plan: the strings in `{sp_id}_plan`.
pub open spec fn plan_steps(m: StateMap, sp_id: Seq<char>) -> Seq<Seq<char>> {
    string_items(array_or_empty(m, sp_id + "_plan"@))
}

/// The known strings of an array variable, in order.
fn read_strings(state: &State, key: &str, log_target: &str) -> (r: Vec<String>)
    ensures
        names_of(r@) == string_items(array_or_empty(state@, key@)),
{
    let vals = state.get_array_or_default_to_empty(key, log_target);
    let ghost s = array_or_empty(state@, key@);
    let mut out: Vec<String> = Vec::new();
    let mut i: usize = 0;
    while i < vals.len()
        invariant
            i <= vals.len(),
            vals.len() == s.len(),
            forall|j: int| 0 <= j < vals.len() ==> #[trigger] vals[j]@ == s[j],
            names_of(out@) == string_items(s.take(i as int)),
        decreases vals.len() - i,
    {
        proof {
            assert(s.take(i + 1).drop_last() =~= s.take(i as int));
            assert(s.take(i + 1).last() == vals[i as int]@);
        }
        match &vals[i] {
            SPValue::String(StringOrUnknown::String(x)) => {
                let ghost before = names_of(out@);
                out.push(x.clone());
                assert(names_of(out@) =~= before.push(x@));
            },
            _ => {},
        }
        i += 1;
    }
    assert(s.take(vals.len() as int) =~= s);
    out
}

/// The current plan as a list of step names.
pub fn read_plan(state: &State, sp_id: &str, log_target: &str) -> (r: Vec<String>)
    ensures
        names_of(r@) == plan_steps(state@, sp_id@),
{
    let key = concat(sp_id, "_plan");
    read_strings(state, key.as_str(), log_target)
}

/// The plan runner's own variables, each of which a tick writes back.
pub open spec fn plan_keys_present(m: StateMap, sp_id: Seq<char>) -> bool {
    &&& m.contains_key(sp_id + "_planner_state"@)
    &&& m.contains_key(sp_id + "_current_goal_state"@)
    &&& m.contains_key(sp_id + "_plan_state"@)
    &&& m.contains_key(sp_id + "_plan_current_step"@)
    &&& m.contains_key(sp_id + "_plan"@)
    &&& m.contains_key(sp_id + "_terminated_operations"@)
}

/// The operation a plan step runs as: the model operation under the step's name.
pub open spec fn step_as_operation(model: Model, step: Seq<char>) -> Option<OperationView> {
    match step_operation(operation_views(model.operations@), step) {
        Some(i) => Some(OperationView { name: step, ..model.operations[i]@ }),
        None => None,
    }
}

/// Whether a tick of the plan runner can drive its current step: when the
/// plan is executing and the cursor is on a step whose operation the model
/// has, the state holds what that step's tick reads and writes.
pub open spec fn plan_tick_ready(sp_id: Seq<char>, model: Model, m: StateMap, tick: i64) -> bool {
    let steps = plan_steps(m, sp_id);
    let step = int_or_zero(m, sp_id + "_plan_current_step"@);
    plan_state_of(string_or_unknown(m, sp_id + "_plan_state"@)) == PlanState::Executing && 0 <= step
        < steps.len() ==> match step_as_operation(model, steps[step as int]) {
        Some(o) => tick_covered(o, m),
        None => true,
    }
}

/// A tick of an executing plan: the current step advances through the
/// operation state machine; a step the model has no operation for fails
/// the plan; a cursor past the last step completes it.
pub open spec fn executing_tick(
    sp_id: Seq<char>,
    model: Model,
    m: StateMap,
    ps: Seq<char>,
    step: i64,
    steps: Seq<Seq<char>>,
    tick: i64,
) -> (StateMap, Seq<char>, i64) {
    if 0 <= step < steps.len() {
        match step_as_operation(model, steps[step as int]) {
            Some(o) => {
                let t = tick_decision(sp_id, o, m, OperationProcessingType::Planned, step, ps, tick);
                (tick_state(o, t), t.ps, t.step)
            },
            None => (m, plan_state_text(PlanState::Failed), step),
        }
    } else {
        (m, plan_state_text(PlanState::Completed), step)
    }
}

/// Advances an executing plan by one tick.
fn execute_plan_step(
    sp_id: &str,
    model: &Model,
    state: State,
    plan: &Vec<String>,
    plan_current_step: &mut i64,
    plan_state_str: &mut String,
    tick_elapsed_ms: i64,
    log_target: &str,
) -> (r: State)
    requires
        ({
            let steps = names_of(plan@);
            let step = *old(plan_current_step);
            0 <= step < steps.len() ==> match step_as_operation(*model, steps[step as int]) {
                Some(o) => tick_covered(o, state@),
                None => true,
            }
        }),
    ensures
        (r@, final(plan_state_str)@, *final(plan_current_step)) == executing_tick(
            sp_id@,
            *model,
            state@,
            old(plan_state_str)@,
            *old(plan_current_step),
            names_of(plan@),
            tick_elapsed_ms,
        ),
        r@.dom() == state@.dom(),
{
    let ghost steps = names_of(plan@);
    if 0 <= *plan_current_step && (*plan_current_step as u64) < (plan.len() as u64) {
        let idx = *plan_current_step as usize;
        let op_name = plan[idx].as_str();
        assert(steps[idx as int] == plan@[idx as int]@);
        let ops = model.operations.as_slice();
        assert(ops@ == model.operations@);
        match find_step_operation(ops, op_name) {
            Some(operation) => {
                let uq_operation = operation.renamed(plan[idx].clone());
                proof {
                    assert(step_as_operation(*model, steps[idx as int]) == Some(uq_operation@));
                }
                process_operation(
                    sp_id,
                    state,
                    &uq_operation,
                    OperationProcessingType::Planned,
                    plan_current_step,
                    plan_state_str,
                    tick_elapsed_ms,
                    log_target,
                )
            },
            None => {
                *plan_state_str = PlanState::Failed.to_string();
                state
            },
        }
    } else {
        *plan_state_str = PlanState::Completed.to_string();
        state
    }
}

/// One tick of the plan runner, in the specifications: the state after the
/// step, the plan state and the cursor.
pub open spec fn plan_tick(sp_id: Seq<char>, model: Model, m: StateMap, tick: i64) -> (StateMap, Seq<char>, i64) {
    let planner = string_or_unknown(m, sp_id + "_planner_state"@);
    let ps = string_or_unknown(m, sp_id + "_plan_state"@);
    let step = int_or_zero(m, sp_id + "_plan_current_step"@);
    let steps = plan_steps(m, sp_id);
    match plan_state_of(ps) {
        PlanState::Initial => if planner == planner_state_text(PlannerState::Found) {
            (m, plan_state_text(PlanState::Executing), 0)
        } else if planner == planner_state_text(PlannerState::NotFound) {
            (m, plan_state_text(PlanState::Failed), 0)
        } else {
            (m, ps, step)
        },
        PlanState::Executing => executing_tick(sp_id, model, m, ps, step, steps, tick),
        _ => (m, ps, step),
    }
}

/// The state after one tick of the plan runner: the step's state, with the
/// plan state, the plan, the planner state, the goal state and the cursor
/// written back, and the list of terminated operations emptied.
pub open spec fn plan_tick_state(sp_id: Seq<char>, model: Model, m: StateMap, tick: i64) -> StateMap {
    let (m1, ps, step) = plan_tick(sp_id, model, m, tick);
    let steps = plan_steps(m, sp_id);
    m1.insert(sp_id + "_plan_state"@, string_view(ps)).insert(
        sp_id + "_plan"@,
        SPValueView::Array(Some(Seq::new(steps.len(), |i: int| string_view(steps[i])))),
    ).insert(sp_id + "_planner_state"@, string_view(string_or_unknown(m, sp_id + "_planner_state"@))).insert(
        sp_id + "_current_goal_state"@,
        string_view(string_or_unknown(m, sp_id + "_current_goal_state"@)),
    ).insert(sp_id + "_plan_current_step"@, int_view(step)).insert(
        sp_id + "_terminated_operations"@,
        SPValueView::Array(Some(Seq::empty())),
    )
}

/// One tick of the plan runner.
pub fn process_plan_tick(sp_id: &str, model: &Model, state: &State, tick_elapsed_ms: i64, log_target: &str) -> (r: State)
    requires
        plan_keys_present(state@, sp_id@),
        plan_tick_ready(sp_id@, *model, state@, tick_elapsed_ms),
    ensures
        r@ == plan_tick_state(sp_id@, *model, state@, tick_elapsed_ms),
{
    let ghost m = state@;
    let planner_k = concat(sp_id, "_planner_state");
    let goal_k = concat(sp_id, "_current_goal_state");
    let plan_state_k = concat(sp_id, "_plan_state");
    let step_k = concat(sp_id, "_plan_current_step");
    let plan_k = concat(sp_id, "_plan");
    let terminated_k = concat(sp_id, "_terminated_operations");
    let planner_state = state.get_string_or_default_to_unknown(planner_k.as_str(), log_target);
    let goal_state = state.get_string_or_default_to_unknown(goal_k.as_str(), log_target);
    let mut plan_state_str = state.get_string_or_default_to_unknown(plan_state_k.as_str(), log_target);
    let mut plan_current_step = state.get_int_or_default_to_zero(step_k.as_str(), log_target);
    let plan = read_plan(state, sp_id, log_target);
    let mut new_state = state.duplicate();
    proof {
        reveal_strlit("found");
        reveal_strlit("not_found");
        assert("found"@.len() == 5 && "not_found"@.len() == 9);
        assert(planner_state_text(PlannerState::Found) != planner_state_text(PlannerState::NotFound));
    }
    match PlanState::from_str(plan_state_str.as_str()) {
        PlanState::Initial => {
            if str_eq(planner_state.as_str(), PlannerState::Found.as_text()) {
                plan_state_str = PlanState::Executing.to_string();
                plan_current_step = 0;
            }
            if str_eq(planner_state.as_str(), PlannerState::NotFound.as_text()) {
                plan_state_str = PlanState::Failed.to_string();
                plan_current_step = 0;
            }
        },
        PlanState::Executing => {
            new_state = execute_plan_step(
                sp_id,
                model,
                new_state,
                &plan,
                &mut plan_current_step,
                &mut plan_state_str,
                tick_elapsed_ms,
                log_target,
            );
        },
        _ => {},
    }
    proof {
        let (m1, ps, step) = plan_tick(sp_id@, *model, m, tick_elapsed_ms);
        assert(new_state@ == m1 && plan_state_str@ == ps && plan_current_step == step);
        assert(new_state@.dom() =~= m.dom());
    }
    new_state.update_mut(plan_state_k.as_str(), plan_state_str.to_spvalue());
    new_state.update_mut(plan_k.as_str(), plan.to_spvalue());
    new_state.update_mut(planner_k.as_str(), planner_state.to_spvalue());
    new_state.update_mut(goal_k.as_str(), goal_state.to_spvalue());
    new_state.update_mut(step_k.as_str(), plan_current_step.to_spvalue());
    let empty: Vec<SPValue> = Vec::new();
    new_state.update_mut(terminated_k.as_str(), empty.to_spvalue());
    proof {
        let steps = plan_steps(m, sp_id@);
        assert(Seq::new(plan.len() as nat, |i: int| string_view(plan[i]@)) =~= Seq::new(steps.len(), |i: int| string_view(steps[i])));
        assert(Seq::new(empty.len() as nat, |i: int| empty[i]@) =~= Seq::<SPValueView>::empty());
    }
    new_state
}

/// The variables to delete for the operations listed in
/// `{sp_id}_terminated_operations`: each one's state variable and its five
/// bookkeeping variables.
pub fn terminated_operation_keys(state: &State, sp_id: &str, log_target: &str) -> (r: Vec<String>)
    ensures
        forall|n: Seq<char>| #[trigger] contains_name(r@, n) == exists|i: int|
            0 <= i < string_items(array_or_empty(state@, sp_id@ + "_terminated_operations"@)).len()
            && op_keys(string_items(array_or_empty(state@, sp_id@ + "_terminated_operations"@))[i]).contains(n),
{
    let key = concat(sp_id, "_terminated_operations");
    let ops = read_strings(state, key.as_str(), log_target);
    let ghost s = names_of(ops@);
    let mut keys: Vec<String> = Vec::new();
    let mut i: usize = 0;
    while i < ops.len()
        invariant
            i <= ops.len(),
            s == names_of(ops@),
            forall|n: Seq<char>| #[trigger] contains_name(keys@, n) == exists|j: int| 0 <= j < i && op_keys(#[trigger] s[j]).contains(n),
        decreases ops.len() - i,
    {
        let ghost before = keys@;
        push_operation_keys(&mut keys, ops[i].as_str());
        proof {
            let ok = op_keys(s[i as int]);
            assert(s[i as int] == ops[i as int]@);
            lemma_appended_names(before, keys@, ok);
            assert forall|n: Seq<char>| #[trigger] contains_name(keys@, n) == exists|j: int| 0 <= j < i + 1 && op_keys(#[trigger] s[j]).contains(n) by {
                if exists|j: int| 0 <= j < i + 1 && op_keys(#[trigger] s[j]).contains(n) {
                    let j = choose|j: int| 0 <= j < i + 1 && op_keys(#[trigger] s[j]).contains(n);
                    if j < i {
                        assert(exists|j: int| 0 <= j < i && op_keys(#[trigger] s[j]).contains(n));
                    }
                }
                if ok.contains(n) {
                    assert(exists|j: int| 0 <= j < i + 1 && op_keys(#[trigger] s[j]).contains(n));
                }
            }
        }
        i += 1;
    }
    keys
}

} // verus!
