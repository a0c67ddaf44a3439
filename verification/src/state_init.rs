//! The initial state a model needs.
//!
//! Every variable a runner reads has to exist before the runner starts;
//! these functions create the runner variables, the lifecycle and
//! bookkeeping variables of every operation, and reset a state to the
//! starting values of its operations and request interfaces.
use crate::clock::{duration_millis, since_unix_epoch, system_now};
use crate::operation::{operation_views, Operation};
use crate::predicate::{contains_name, push_name};
use crate::runner_keys::{names_of, normalize_keys};
use crate::sop::{get_all_operations_recursive, sop_operations, sop_leaf_names, Model, SOP};
use crate::state::{SPAssignment, SPVariable, State};
use crate::text::{concat, concat3, ends_with, has_prefix, has_suffix, nat_decimal, starts_with, str_eq, u64_decimal};
use crate::transition::StateMap;
use crate::value::{
    bool_view, int_view, string_view, unknown_view, ArrayOrUnknown, BoolOrUnknown, FloatOrUnknown,
    IntOrUnknown, SPValue, SPValueType, SPValueView, StringOrUnknown, ToSPValue, TransformOrUnknown,
};
use vstd::prelude::*;

verus! {

/// Every operation of the tree, leaves from left to right.
pub fn get_all_operations_from_sop(sop: &SOP) -> (r: Vec<Operation>)
    ensures
        operation_views(r@) == sop_operations(sop@),
{
    let mut operations: Vec<Operation> = Vec::new();
    get_all_operations_recursive(sop, &mut operations);
    assert(operation_views(operations@) =~= sop_operations(sop@));
    operations
}

/// The runner variables that come before the timers' (all but `empty`).
pub open spec fn runner_head_entries(name: Seq<char>) -> Seq<(Seq<char>, SPValueView)> {
    seq![
        (name + "_terminated_operations"@, SPValueView::Array(None)),
        (name + "_active_auto_operations"@, SPValueView::Array(None)),
        (name + "_dashboard_command"@, SPValueView::String(None)),
    ]
}

/// The bulk of the runner variables, after the timers'.
pub open spec fn runner_main_entries(name: Seq<char>) -> Seq<(Seq<char>, SPValueView)> {
    seq![
        (name + "_runner_state"@, SPValueView::String(None)),
        (name + "_current_goal_predicate"@, SPValueView::String(None)),
        (name + "_current_goal_id"@, SPValueView::String(None)),
        (name + "_current_goal_state"@, SPValueView::String(None)),
        (name + "_plan"@, SPValueView::Array(None)),
        (name + "_plan_exists"@, SPValueView::Bool(None)),
        (name + "_plan_name"@, SPValueView::String(None)),
        (name + "_plan_id"@, SPValueView::String(None)),
        (name + "_plan_state"@, SPValueView::String(None)),
        (name + "_planner_state"@, SPValueView::String(None)),
        (name + "_plan_duration"@, SPValueView::Float64(None)),
        (name + "_plan_current_step"@, SPValueView::Int64(None)),
        (name + "_planner_information"@, SPValueView::String(None)),
        (name + "_plan_runner_information"@, SPValueView::String(None)),
        (name + "_goal_runner_information"@, SPValueView::String(None)),
        (name + "_sop_runner_information"@, SPValueView::String(None)),
        (name + "_main_runner_information"@, SPValueView::String(None)),
        (name + "_goal_scheduler_information"@, SPValueView::String(None)),
        (name + "_replanned"@, SPValueView::Bool(None)),
        (name + "_replan_for_same_goal"@, SPValueView::Bool(None)),
        (name + "_replan_counter"@, SPValueView::Int64(None)),
        (name + "_replan_counter_total"@, SPValueView::Int64(None)),
        (name + "_plan_counter"@, SPValueView::Int64(None)),
        (name + "_replan_fail_counter"@, SPValueView::Int64(None)),
        (name + "_replan_trigger"@, SPValueView::Bool(None)),
        (name + "_incoming_goals"@, SPValueView::Array(None)),
        (name + "_scheduled_goals"@, SPValueView::Array(None)),
        (name + "_sop_id"@, SPValueView::String(None)),
        (name + "_sop_state"@, SPValueView::String(None)),
        (name + "_sop_stack"@, SPValueView::String(None)),
        (name + "_sop_enabled"@, SPValueView::Bool(None)),
        (name + "_start_time"@, SPValueView::Int64(None)),
        (name + "_sop_current_step"@, SPValueView::Int64(Some(0))),
        (name + "_tf_request_trigger"@, SPValueView::Bool(Some(false))),
        (name + "_tf_request_state"@, SPValueView::String(Some("initial"@))),
        (name + "_tf_command"@, SPValueView::String(None)),
        (name + "_tf_parent"@, SPValueView::String(None)),
        (name + "_tf_child"@, SPValueView::String(None)),
        (name + "_tf_lookup_result"@, SPValueView::Transform(None)),
        (name + "_tf_insert_transforms"@, SPValueView::Array(None)),
    ]
}

/// The runners' online flags, last.
pub open spec fn runner_tail_entries(name: Seq<char>) -> Seq<(Seq<char>, SPValueView)> {
    seq![("state_manager_online"@, SPValueView::Bool(None))] + seq![
        (name + "_auto_transition_runner_online"@, SPValueView::Bool(None)),
        (name + "_planner_ticker_online"@, SPValueView::Bool(None)),
        (name + "_operation_planner_online"@, SPValueView::Bool(None)),
        (name + "_operation_runner_online"@, SPValueView::Bool(None)),
    ]
}

/// The five variables of timer `t`.
pub open spec fn timer_entries_of(name: Seq<char>, t: nat) -> Seq<(Seq<char>, SPValueView)> {
    seq![
        (name + "_timer_"@ + nat_decimal(t) + "_request_trigger"@, SPValueView::Bool(Some(false))),
        (name + "_timer_"@ + nat_decimal(t) + "_request_state"@, SPValueView::String(Some("initial"@))),
        (name + "_timer_"@ + nat_decimal(t) + "_command"@, SPValueView::String(None)),
        (name + "_timer_"@ + nat_decimal(t) + "_duration_ms"@, SPValueView::Int64(None)),
        (name + "_timer_"@ + nat_decimal(t) + "_elapsed_ms"@, SPValueView::Int64(None)),
    ]
}

/// Appends the runner variables that come before the timers'.
fn push_head_entries(name: &str, e: &mut Vec<SPAssignment>)
    ensures
        entry_views(final(e)@) == entry_views(old(e)@) + runner_head_entries(name@),
{
    let ghost start = entry_views(e@);
    e.push(entry(concat(name, "_terminated_operations"), SPValueType::Array, SPValue::Array(ArrayOrUnknown::UNKNOWN)));
    e.push(entry(concat(name, "_active_auto_operations"), SPValueType::Array, SPValue::Array(ArrayOrUnknown::UNKNOWN)));
    e.push(entry(concat(name, "_dashboard_command"), SPValueType::String, SPValue::String(StringOrUnknown::UNKNOWN)));
    assert(entry_views(e@) =~= start + runner_head_entries(name@));
}

/// Appends the bulk of the runner variables.
fn push_main_entries(name: &str, e: &mut Vec<SPAssignment>)
    ensures
        entry_views(final(e)@) == entry_views(old(e)@) + runner_main_entries(name@),
{
    let ghost start = entry_views(e@);
    e.push(entry(concat(name, "_runner_state"), SPValueType::String, SPValue::String(StringOrUnknown::UNKNOWN)));
    e.push(entry(concat(name, "_current_goal_predicate"), SPValueType::String, SPValue::String(StringOrUnknown::UNKNOWN)));
    e.push(entry(concat(name, "_current_goal_id"), SPValueType::String, SPValue::String(StringOrUnknown::UNKNOWN)));
    e.push(entry(concat(name, "_current_goal_state"), SPValueType::String, SPValue::String(StringOrUnknown::UNKNOWN)));
    e.push(entry(concat(name, "_plan"), SPValueType::Array, SPValue::Array(ArrayOrUnknown::UNKNOWN)));
    e.push(entry(concat(name, "_plan_exists"), SPValueType::Bool, SPValue::Bool(BoolOrUnknown::UNKNOWN)));
    e.push(entry(concat(name, "_plan_name"), SPValueType::String, SPValue::String(StringOrUnknown::UNKNOWN)));
    e.push(entry(concat(name, "_plan_id"), SPValueType::String, SPValue::String(StringOrUnknown::UNKNOWN)));
    e.push(entry(concat(name, "_plan_state"), SPValueType::String, SPValue::String(StringOrUnknown::UNKNOWN)));
    e.push(entry(concat(name, "_planner_state"), SPValueType::String, SPValue::String(StringOrUnknown::UNKNOWN)));
    e.push(entry(concat(name, "_plan_duration"), SPValueType::Float64, SPValue::Float64(FloatOrUnknown::UNKNOWN)));
    e.push(entry(concat(name, "_plan_current_step"), SPValueType::Int64, SPValue::Int64(IntOrUnknown::UNKNOWN)));
    e.push(entry(concat(name, "_planner_information"), SPValueType::String, SPValue::String(StringOrUnknown::UNKNOWN)));
    e.push(entry(concat(name, "_plan_runner_information"), SPValueType::String, SPValue::String(StringOrUnknown::UNKNOWN)));
    e.push(entry(concat(name, "_goal_runner_information"), SPValueType::String, SPValue::String(StringOrUnknown::UNKNOWN)));
    e.push(entry(concat(name, "_sop_runner_information"), SPValueType::String, SPValue::String(StringOrUnknown::UNKNOWN)));
    e.push(entry(concat(name, "_main_runner_information"), SPValueType::String, SPValue::String(StringOrUnknown::UNKNOWN)));
    e.push(entry(concat(name, "_goal_scheduler_information"), SPValueType::String, SPValue::String(StringOrUnknown::UNKNOWN)));
    e.push(entry(concat(name, "_replanned"), SPValueType::Bool, SPValue::Bool(BoolOrUnknown::UNKNOWN)));
    e.push(entry(concat(name, "_replan_for_same_goal"), SPValueType::Bool, SPValue::Bool(BoolOrUnknown::UNKNOWN)));
    e.push(entry(concat(name, "_replan_counter"), SPValueType::Int64, SPValue::Int64(IntOrUnknown::UNKNOWN)));
    e.push(entry(concat(name, "_replan_counter_total"), SPValueType::Int64, SPValue::Int64(IntOrUnknown::UNKNOWN)));
    e.push(entry(concat(name, "_plan_counter"), SPValueType::Int64, SPValue::Int64(IntOrUnknown::UNKNOWN)));
    e.push(entry(concat(name, "_replan_fail_counter"), SPValueType::Int64, SPValue::Int64(IntOrUnknown::UNKNOWN)));
    e.push(entry(concat(name, "_replan_trigger"), SPValueType::Bool, SPValue::Bool(BoolOrUnknown::UNKNOWN)));
    e.push(entry(concat(name, "_incoming_goals"), SPValueType::Array, SPValue::Array(ArrayOrUnknown::UNKNOWN)));
    e.push(entry(concat(name, "_scheduled_goals"), SPValueType::Array, SPValue::Array(ArrayOrUnknown::UNKNOWN)));
    e.push(entry(concat(name, "_sop_id"), SPValueType::String, SPValue::String(StringOrUnknown::UNKNOWN)));
    e.push(entry(concat(name, "_sop_state"), SPValueType::String, SPValue::String(StringOrUnknown::UNKNOWN)));
    e.push(entry(concat(name, "_sop_stack"), SPValueType::String, SPValue::String(StringOrUnknown::UNKNOWN)));
    e.push(entry(concat(name, "_sop_enabled"), SPValueType::Bool, SPValue::Bool(BoolOrUnknown::UNKNOWN)));
    e.push(entry(concat(name, "_start_time"), SPValueType::Int64, SPValue::Int64(IntOrUnknown::UNKNOWN)));
    e.push(entry(concat(name, "_sop_current_step"), SPValueType::Int64, SPValue::Int64(IntOrUnknown::Int64(0))));
    e.push(entry(concat(name, "_tf_request_trigger"), SPValueType::Bool, SPValue::Bool(BoolOrUnknown::Bool(false))));
    e.push(entry(concat(name, "_tf_request_state"), SPValueType::String, SPValue::String(StringOrUnknown::String(String::from_str("initial")))));
    e.push(entry(concat(name, "_tf_command"), SPValueType::String, SPValue::String(StringOrUnknown::UNKNOWN)));
    e.push(entry(concat(name, "_tf_parent"), SPValueType::String, SPValue::String(StringOrUnknown::UNKNOWN)));
    e.push(entry(concat(name, "_tf_child"), SPValueType::String, SPValue::String(StringOrUnknown::UNKNOWN)));
    e.push(entry(concat(name, "_tf_lookup_result"), SPValueType::Transform, SPValue::Transform(TransformOrUnknown::UNKNOWN)));
    e.push(entry(concat(name, "_tf_insert_transforms"), SPValueType::Array, SPValue::Array(ArrayOrUnknown::UNKNOWN)));
    assert(entry_views(e@) =~= start + runner_main_entries(name@));
}

/// Appends the online flags.
fn push_tail_entries(name: &str, e: &mut Vec<SPAssignment>)
    ensures
        entry_views(final(e)@) == entry_views(old(e)@) + runner_tail_entries(name@),
{
    let ghost start = entry_views(e@);
    e.push(entry(String::from_str("state_manager_online"), SPValueType::Bool, SPValue::Bool(BoolOrUnknown::UNKNOWN)));
    e.push(entry(concat(name, "_auto_transition_runner_online"), SPValueType::Bool, SPValue::Bool(BoolOrUnknown::UNKNOWN)));
    e.push(entry(concat(name, "_planner_ticker_online"), SPValueType::Bool, SPValue::Bool(BoolOrUnknown::UNKNOWN)));
    e.push(entry(concat(name, "_operation_planner_online"), SPValueType::Bool, SPValue::Bool(BoolOrUnknown::UNKNOWN)));
    e.push(entry(concat(name, "_operation_runner_online"), SPValueType::Bool, SPValue::Bool(BoolOrUnknown::UNKNOWN)));
    assert(entry_views(e@) =~= start + runner_tail_entries(name@));
}

/// Appends the five variables of timer `t`.
fn push_timer_entries(name: &str, t: u64, e: &mut Vec<SPAssignment>)
    ensures
        entry_views(final(e)@) == entry_views(old(e)@) + timer_entries_of(name@, t as nat),
{
    let ghost start = entry_views(e@);
    let id = u64_decimal(t);
    let prefix = concat3(name, "_timer_", id.as_str());
    e.push(entry(concat(prefix.as_str(), "_request_trigger"), SPValueType::Bool, SPValue::Bool(BoolOrUnknown::Bool(false))));
    e.push(entry(concat(prefix.as_str(), "_request_state"), SPValueType::String, SPValue::String(StringOrUnknown::String(String::from_str("initial")))));
    e.push(entry(concat(prefix.as_str(), "_command"), SPValueType::String, SPValue::String(StringOrUnknown::UNKNOWN)));
    e.push(entry(concat(prefix.as_str(), "_duration_ms"), SPValueType::Int64, SPValue::Int64(IntOrUnknown::UNKNOWN)));
    e.push(entry(concat(prefix.as_str(), "_elapsed_ms"), SPValueType::Int64, SPValue::Int64(IntOrUnknown::UNKNOWN)));
    assert(entry_views(e@) =~= start + timer_entries_of(name@, t as nat));
}

/// The name and value of each assignment.
pub open spec fn entry_views(v: Seq<SPAssignment>) -> Seq<(Seq<char>, SPValueView)> {
    Seq::new(v.len(), |i: int| (v[i].var.name@, v[i].val@))
}

/// `m` with the entries added in order; a later entry replaces an earlier
/// one of the same name.
pub open spec fn with_entries(m: StateMap, s: Seq<(Seq<char>, SPValueView)>) -> StateMap
    decreases s.len(),
{
    if s.len() == 0 {
        m
    } else {
        with_entries(m, s.drop_last()).insert(s.last().0, s.last().1)
    }
}

/// An assignment of a new variable.
pub fn entry(name: String, t: SPValueType, v: SPValue) -> (a: SPAssignment)
    ensures
        a.var.name@ == name@,
        a.var.value_type == t,
        a.val@ == v@,
{
    SPAssignment::new(SPVariable { name, value_type: t }, v)
}

/// Adds the assignments in order.
pub fn add_entries(state: &mut State, v: &Vec<SPAssignment>, log_target: &str)
    ensures
        final(state)@ == with_entries(old(state)@, entry_views(v@)),
{
    let ghost start = state@;
    let ghost s = entry_views(v@);
    let mut i: usize = 0;
    while i < v.len()
        invariant
            i <= v.len(),
            s == entry_views(v@),
            state@ == with_entries(start, s.take(i as int)),
        decreases v.len() - i,
    {
        let a = SPAssignment::new(
            SPVariable { name: v[i].var.name.clone(), value_type: v[i].var.value_type },
            v[i].val.duplicate(),
        );
        state.add_mut(a, log_target);
        proof {
            assert(s.take(i + 1).drop_last() =~= s.take(i as int));
            assert(s.take(i + 1).last() == s[i as int]);
        }
        i += 1;
    }
    assert(s.take(v.len() as int) =~= s);
}

/// The variables of timers `1..=n`, timer by timer.
pub open spec fn timer_entries(name: Seq<char>, n: nat) -> Seq<(Seq<char>, SPValueView)>
    decreases n,
{
    if n == 0 {
        Seq::empty()
    } else {
        timer_entries(name, (n - 1) as nat) + timer_entries_of(name, n)
    }
}

/// Every runner variable of the controller `name` with `timers` timers, in
/// the order they are created.
pub open spec fn runner_entries(name: Seq<char>, timers: nat) -> Seq<(Seq<char>, SPValueView)> {
    seq![("empty"@, SPValueView::Bool(None))] + timer_entries(name, timers) + runner_head_entries(name)
        + runner_main_entries(name) + runner_tail_entries(name)
}

/// The runner variables of the controller `name`, with `number_of_timers`
/// timers numbered from `1`, at their starting values.
pub fn generate_runner_state_variables(name: &str, number_of_timers: u64, log_target: &str) -> (r: State)
    ensures
        r@ == with_entries(Map::empty(), runner_entries(name@, number_of_timers as nat)),
{
    let mut e: Vec<SPAssignment> = Vec::new();
    e.push(entry(String::from_str("empty"), SPValueType::Bool, SPValue::Bool(BoolOrUnknown::UNKNOWN)));
    proof {
        reveal_strlit("empty");
    }
    assert(entry_views(e@) =~= seq![("empty"@, SPValueView::Bool(None))] + timer_entries(name@, 0));
    let mut t: u64 = 0;
    while t < number_of_timers
        invariant
            t <= number_of_timers,
            entry_views(e@) == seq![("empty"@, SPValueView::Bool(None))] + timer_entries(name@, t as nat),
        decreases number_of_timers - t,
    {
        t += 1;
        let ghost before = entry_views(e@);
        push_timer_entries(name, t, &mut e);
        assert(entry_views(e@) =~= seq![("empty"@, SPValueView::Bool(None))] + timer_entries(name@, t as nat));
    }
    let ghost after_timers = entry_views(e@);
    push_head_entries(name, &mut e);
    push_main_entries(name, &mut e);
    push_tail_entries(name, &mut e);
    assert(entry_views(e@) =~= runner_entries(name@, number_of_timers as nat));
    let mut state = State::new();
    add_entries(&mut state, &e, log_target);
    state
}

/// Every variable of `state`, kept under its name and kind, with its value
/// made unknown.
pub fn all_values_to_unknown(state: &State) -> (r: State)
    ensures
        r@ == Map::new(|k: Seq<char>| state@.contains_key(k), |k: Seq<char>| unknown_view(state@[k].kind())),
{
    let names = state.names();
    let mut new_state = state.duplicate();
    let mut i: usize = 0;
    while i < names.len()
        invariant
            i <= names.len(),
            names.len() == state.size(),
            forall|k: Seq<char>| #[trigger] state@.contains_key(k) <==> exists|j: int|
                0 <= j < names.len() && #[trigger] names[j]@ == k,
            forall|a: int, b: int| 0 <= a < b < names.len() ==> names[a]@ != names[b]@,
            new_state@.dom() == state@.dom(),
            forall|k: Seq<char>| #[trigger] new_state@.contains_key(k) ==> new_state@[k] == (if exists|j: int|
                0 <= j < i && #[trigger] names[j]@ == k {
                unknown_view(state@[k].kind())
            } else {
                state@[k]
            }),
        decreases names.len() - i,
    {
        assert(state@.contains_key(names[i as int]@));
        let v = state.value_of(names[i].as_str());
        let u = SPValue::unknown_of(v.has_type());
        let ghost before = new_state@;
        new_state.update_mut(names[i].as_str(), u);
        proof {
            assert forall|k: Seq<char>| #[trigger] new_state@.contains_key(k) implies new_state@[k] == (if exists|j: int|
                0 <= j < i + 1 && #[trigger] names[j]@ == k {
                unknown_view(state@[k].kind())
            } else {
                state@[k]
            }) by {
                if k == names[i as int]@ {
                    assert(exists|j: int| 0 <= j < i + 1 && #[trigger] names[j]@ == k);
                } else {
                    if exists|j: int| 0 <= j < i + 1 && #[trigger] names[j]@ == k {
                        let j = choose|j: int| 0 <= j < i + 1 && #[trigger] names[j]@ == k;
                        assert(j != i);
                        assert(exists|j: int| 0 <= j < i && #[trigger] names[j]@ == k);
                    }
                }
            }
            assert(new_state@.dom() =~= state@.dom());
        }
        i += 1;
    }
    assert(new_state@ =~= Map::new(|k: Seq<char>| state@.contains_key(k), |k: Seq<char>| unknown_view(state@[k].kind()))) by {
        assert forall|k: Seq<char>| #[trigger] new_state@.contains_key(k) implies new_state@[k] == unknown_view(state@[k].kind()) by {
            assert(state@.contains_key(k));
            let j = choose|j: int| 0 <= j < names.len() && #[trigger] names[j]@ == k;
        }
    }
    new_state
}

/// Every variable named in `ops`, set to `"initial"`, over `state`.
pub fn add_operation_state_tracking_variable(ops: &Vec<String>, state: &State, log_target: &str) -> (r: State)
    ensures
        r@ == state@.union_prefer_right(Map::new(|k: Seq<char>| contains_name(ops@, k), |k: Seq<char>| string_view("initial"@))),
{
    let mut s = state.duplicate();
    let mut i: usize = 0;
    while i < ops.len()
        invariant
            i <= ops.len(),
            s@ == state@.union_prefer_right(Map::new(|k: Seq<char>| named_before(ops@, i as int, k), |k: Seq<char>| string_view("initial"@))),
        decreases ops.len() - i,
    {
        let a = entry(ops[i].clone(), SPValueType::String, "initial".to_spvalue());
        s.add_mut(a, log_target);
        proof {
            assert forall|k: Seq<char>| #[trigger] named_before(ops@, i + 1, k) == (named_before(ops@, i as int, k) || k == ops[i as int]@) by {
                if named_before(ops@, i + 1, k) {
                    let j = choose|j: int| 0 <= j < i + 1 && #[trigger] ops@[j]@ == k;
                    if j < i {
                        assert(named_before(ops@, i as int, k));
                    }
                }
                if k == ops[i as int]@ {
                    assert(ops@[i as int]@ == k);
                }
            }
            assert(s@ =~= state@.union_prefer_right(Map::new(|k: Seq<char>| named_before(ops@, i + 1, k), |k: Seq<char>| string_view("initial"@))));
        }
        i += 1;
    }
    assert forall|k: Seq<char>| #[trigger] contains_name(ops@, k) == named_before(ops@, ops.len() as int, k) by {}
    assert(s@ =~= state@.union_prefer_right(Map::new(|k: Seq<char>| contains_name(ops@, k), |k: Seq<char>| string_view("initial"@))));
    s
}

/// Whether one of `v[..i]` holds the characters `k`.
pub open spec fn named_before(v: Seq<String>, i: int, k: Seq<char>) -> bool {
    exists|j: int| 0 <= j < i && #[trigger] v[j]@ == k
}

/// Whether `k` is the information variable of one of the first `i` SOPs.
pub open spec fn sop_info_before(model: Model, i: int, k: Seq<char>) -> bool {
    exists|j: int| 0 <= j < i && #[trigger] model.sops[j].id@ + "_sop_information"@ == k
}

/// Whether `k` counts one of the first `i` automatic transitions.
pub open spec fn taken_before(model: Model, i: int, k: Seq<char>) -> bool {
    exists|j: int| 0 <= j < i && "transition_"@ + #[trigger] model.auto_transitions[j].name@ + "_taken"@ == k
}

/// `m` with the bookkeeping variables of the operation `op`: its
/// information, elapsed times and retry counters unknown, and with
/// coverability tracking its visit counters at zero.
pub open spec fn with_meta(op: Seq<char>, m: StateMap, cov: bool) -> StateMap {
    let m1 = m.insert(op + "_information"@, SPValueView::String(None)).insert(
        op + "_elapsed_executing_ms"@,
        SPValueView::Int64(None),
    ).insert(op + "_elapsed_disabled_ms"@, SPValueView::Int64(None)).insert(
        op + "_failure_retry_counter"@,
        SPValueView::Int64(None),
    ).insert(op + "_timeout_retry_counter"@, SPValueView::Int64(None));
    if cov {
        m1.insert(op + "_visited_initial"@, int_view(0)).insert(
            op + "_visited_executing"@,
            int_view(0),
        ).insert(op + "_visited_timedout"@, int_view(0)).insert(
            op + "_visited_disabled"@,
            int_view(0),
        ).insert(op + "_visited_failed"@, int_view(0)).insert(op + "_visited_completed"@, int_view(0))
    } else {
        m1
    }
}

/// `m` with the bookkeeping variables of each operation, in order.
pub open spec fn with_metas(ops: Seq<Seq<char>>, m: StateMap, cov: bool) -> StateMap
    decreases ops.len(),
{
    if ops.len() == 0 {
        m
    } else {
        with_meta(ops.last(), with_metas(ops.drop_last(), m, cov), cov)
    }
}

/// Adds one variable.
fn add_var(state: &mut State, name: String, t: SPValueType, v: SPValue, log_target: &str)
    ensures
        final(state)@ == old(state)@.insert(name@, v@),
{
    state.add_mut(entry(name, t, v), log_target);
}

/// The bookkeeping variables of every operation named in `ops`, over `state`.
pub fn add_operation_meta_tracking_variables(
    ops: &Vec<String>,
    state: &State,
    coverability_tracking: bool,
    log_target: &str,
) -> (r: State)
    ensures
        r@ == with_metas(names_of(ops@), state@, coverability_tracking),
{
    let mut s = state.duplicate();
    let ghost names = names_of(ops@);
    let mut i: usize = 0;
    while i < ops.len()
        invariant
            i <= ops.len(),
            names == names_of(ops@),
            s@ == with_metas(names.take(i as int), state@, coverability_tracking),
        decreases ops.len() - i,
    {
        let op = ops[i].as_str();
        add_var(&mut s, concat(op, "_information"), SPValueType::String, SPValue::String(StringOrUnknown::UNKNOWN), log_target);
        add_var(&mut s, concat(op, "_elapsed_executing_ms"), SPValueType::Int64, SPValue::Int64(IntOrUnknown::UNKNOWN), log_target);
        add_var(&mut s, concat(op, "_elapsed_disabled_ms"), SPValueType::Int64, SPValue::Int64(IntOrUnknown::UNKNOWN), log_target);
        add_var(&mut s, concat(op, "_failure_retry_counter"), SPValueType::Int64, SPValue::Int64(IntOrUnknown::UNKNOWN), log_target);
        add_var(&mut s, concat(op, "_timeout_retry_counter"), SPValueType::Int64, SPValue::Int64(IntOrUnknown::UNKNOWN), log_target);
        if coverability_tracking {
            add_var(&mut s, concat(op, "_visited_initial"), SPValueType::Int64, 0i64.to_spvalue(), log_target);
            add_var(&mut s, concat(op, "_visited_executing"), SPValueType::Int64, 0i64.to_spvalue(), log_target);
            add_var(&mut s, concat(op, "_visited_timedout"), SPValueType::Int64, 0i64.to_spvalue(), log_target);
            add_var(&mut s, concat(op, "_visited_disabled"), SPValueType::Int64, 0i64.to_spvalue(), log_target);
            add_var(&mut s, concat(op, "_visited_failed"), SPValueType::Int64, 0i64.to_spvalue(), log_target);
            add_var(&mut s, concat(op, "_visited_completed"), SPValueType::Int64, 0i64.to_spvalue(), log_target);
        }
        proof {
            assert(names.take(i + 1).drop_last() =~= names.take(i as int));
            assert(names.take(i + 1).last() == ops[i as int]@);
        }
        i += 1;
    }
    assert(names.take(ops.len() as int) =~= names);
    s
}

/// Whether `k` is the lifecycle variable of an operation of the model: a
/// planned, automatic or mutually exclusive operation, or one inside a SOP.
pub open spec fn tracked_operation(model: Model, k: Seq<char>) -> bool {
    ||| exists|i: int| 0 <= i < model.operations.len() && #[trigger] model.operations[i].name@ == k
    ||| exists|i: int| 0 <= i < model.auto_operations.len() && #[trigger] model.auto_operations[i].name@ == k
    ||| exists|i: int| 0 <= i < model.mutexed_auto_operations.len() && #[trigger] model.mutexed_auto_operations[i].name@ == k
    ||| exists|i: int, j: int| 0 <= i < model.sops.len() && 0 <= j < sop_operations(model.sops[i].sop@).len()
        && #[trigger] sop_operations(model.sops[i].sop@)[j].name == k
}

/// Whether `k` is the information variable of one of the model's SOPs.
pub open spec fn sop_information_key(model: Model, k: Seq<char>) -> bool {
    exists|i: int| 0 <= i < model.sops.len() && #[trigger] model.sops[i].id@ + "_sop_information"@ == k
}

/// Whether `k` counts how often one of the automatic transitions was taken.
pub open spec fn taken_key(model: Model, k: Seq<char>) -> bool {
    exists|i: int| 0 <= i < model.auto_transitions.len() && "transition_"@ + #[trigger] model.auto_transitions[i].name@ + "_taken"@ == k
}

/// The operation variables of a model: each SOP's information unknown,
/// every operation's lifecycle variable `"initial"`, and with coverability
/// tracking a zero counter per automatic transition.
pub open spec fn operation_variables(model: Model, cov: bool) -> StateMap {
    Map::new(
        |k: Seq<char>| sop_information_key(model, k) || tracked_operation(model, k) || (cov && taken_key(model, k)),
        |k: Seq<char>|
            if cov && taken_key(model, k) {
                int_view(0)
            } else if tracked_operation(model, k) {
                string_view("initial"@)
            } else {
                SPValueView::String(None)
            },
    )
}

/// Appends the names of the operations.
fn push_operation_names(out: &mut Vec<String>, ops: &Vec<Operation>)
    ensures
        forall|n: Seq<char>| #[trigger] contains_name(final(out)@, n) == (contains_name(old(out)@, n)
            || exists|i: int| 0 <= i < ops.len() && #[trigger] ops[i].name@ == n),
{
    let ghost start = out@;
    let mut i: usize = 0;
    while i < ops.len()
        invariant
            i <= ops.len(),
            forall|n: Seq<char>| #[trigger] contains_name(out@, n) == (contains_name(start, n) || exists|j: int|
                0 <= j < i && #[trigger] ops[j].name@ == n),
        decreases ops.len() - i,
    {
        push_name(out, ops[i].name.clone());
        proof {
            assert forall|n: Seq<char>| #[trigger] contains_name(out@, n) == (contains_name(start, n)
                || exists|j: int| 0 <= j < i + 1 && #[trigger] ops[j].name@ == n) by {
                if exists|j: int| 0 <= j < i + 1 && #[trigger] ops[j].name@ == n {
                    let j = choose|j: int| 0 <= j < i + 1 && #[trigger] ops[j].name@ == n;
                    if j < i {
                        assert(exists|j: int| 0 <= j < i && #[trigger] ops[j].name@ == n);
                    }
                }
                if ops[i as int].name@ == n {
                    assert(exists|j: int| 0 <= j < i + 1 && #[trigger] ops[j].name@ == n);
                }
            }
        }
        i += 1;
    }
}

/// The operation variables of a model.
pub fn generate_operation_state_variables(model: &Model, coverability_tracking: bool, log_target: &str) -> (r: State)
    ensures
        r@ == operation_variables(*model, coverability_tracking),
{
    let mut state = State::new();
    let mut names: Vec<String> = Vec::new();
    let mut i: usize = 0;
    while i < model.sops.len()
        invariant
            i <= model.sops.len(),
            state@ == Map::new(|k: Seq<char>| sop_info_before(*model, i as int, k), |k: Seq<char>| SPValueView::String(None)),
            forall|n: Seq<char>| #[trigger] contains_name(names@, n) == exists|a: int, b: int| 0 <= a < i && 0 <= b < sop_operations(model.sops[a].sop@).len()
                && #[trigger] sop_operations(model.sops[a].sop@)[b].name == n,
        decreases model.sops.len() - i,
    {
        add_var(&mut state, concat(model.sops[i].id.as_str(), "_sop_information"), SPValueType::String, SPValue::String(StringOrUnknown::UNKNOWN), log_target);
        let ops = get_all_operations_from_sop(&model.sops[i].sop);
        let ghost before = names@;
        push_operation_names(&mut names, &ops);
        proof {
            let sv = sop_operations(model.sops[i as int].sop@);
            assert(operation_views(ops@) == sv);
            assert forall|k: Seq<char>| #[trigger] sop_info_before(*model, i + 1, k) == (sop_info_before(*model, i as int, k) || k == model.sops[i as int].id@ + "_sop_information"@) by {
                if sop_info_before(*model, i + 1, k) {
                    let j = choose|j: int| 0 <= j < i + 1 && #[trigger] model.sops[j].id@ + "_sop_information"@ == k;
                    if j < i {
                        assert(sop_info_before(*model, i as int, k));
                    }
                }
            }
            assert(state@ =~= Map::new(|k: Seq<char>| sop_info_before(*model, i + 1, k), |k: Seq<char>| SPValueView::String(None)));
            assert forall|n: Seq<char>| #[trigger] contains_name(names@, n) == exists|a: int, b: int| 0 <= a < i + 1 && 0 <= b < sop_operations(model.sops[a].sop@).len()
                && #[trigger] sop_operations(model.sops[a].sop@)[b].name == n by {
                if exists|x: int| 0 <= x < ops.len() && #[trigger] ops[x].name@ == n {
                    let x = choose|x: int| 0 <= x < ops.len() && #[trigger] ops[x].name@ == n;
                    assert(sv[x] == ops[x]@);
                    assert(sop_operations(model.sops[i as int].sop@)[x].name == n);
                }
                if exists|a: int, b: int| 0 <= a < i + 1 && 0 <= b < sop_operations(model.sops[a].sop@).len()
                    && #[trigger] sop_operations(model.sops[a].sop@)[b].name == n {
                    let (a, b) = choose|a: int, b: int| 0 <= a < i + 1 && 0 <= b < sop_operations(model.sops[a].sop@).len()
                        && #[trigger] sop_operations(model.sops[a].sop@)[b].name == n;
                    if a == i {
                        assert(sv[b] == ops[b]@);
                        assert(ops[b].name@ == n);
                    } else {
                        assert(exists|a: int, b: int| 0 <= a < i && 0 <= b < sop_operations(model.sops[a].sop@).len()
                            && #[trigger] sop_operations(model.sops[a].sop@)[b].name == n);
                    }
                }
            }
        }
        i += 1;
    }
    push_operation_names(&mut names, &model.operations);
    push_operation_names(&mut names, &model.auto_operations);
    push_operation_names(&mut names, &model.mutexed_auto_operations);
    let names = normalize_keys(names);
    let ghost after_info = state@;
    let state = add_operation_state_tracking_variable(&names, &state, log_target);
    let ghost after_ops = state@;
    assert forall|k: Seq<char>| contains_name(names@, k) == tracked_operation(*model, k) by {}
    let mut state = state;
    if coverability_tracking {
        let mut i: usize = 0;
        while i < model.auto_transitions.len()
            invariant
                i <= model.auto_transitions.len(),
                state@ == after_ops.union_prefer_right(Map::new(|k: Seq<char>| taken_before(*model, i as int, k), |k: Seq<char>| int_view(0))),
            decreases model.auto_transitions.len() - i,
        {
            let key = concat3("transition_", model.auto_transitions[i].name.as_str(), "_taken");
            add_var(&mut state, key, SPValueType::Int64, 0i64.to_spvalue(), log_target);
            proof {
                assert forall|k: Seq<char>| #[trigger] taken_before(*model, i + 1, k) == (taken_before(*model, i as int, k) || k == "transition_"@ + model.auto_transitions[i as int].name@ + "_taken"@) by {
                    if taken_before(*model, i + 1, k) {
                        let j = choose|j: int| 0 <= j < i + 1 && "transition_"@ + #[trigger] model.auto_transitions[j].name@ + "_taken"@ == k;
                        if j < i {
                            assert(taken_before(*model, i as int, k));
                        }
                    }
                }
                assert(state@ =~= after_ops.union_prefer_right(Map::new(|k: Seq<char>| taken_before(*model, i + 1, k), |k: Seq<char>| int_view(0))));
            }
            i += 1;
        }
        assert(state@ =~= operation_variables(*model, coverability_tracking));
    } else {
        assert(state@ =~= operation_variables(*model, coverability_tracking));
    }
    state
}

/// Whether a variable is bookkeeping that a reset keeps: information,
/// retry counters and elapsed times.
pub open spec fn kept_on_reset(k: Seq<char>) -> bool {
    has_suffix(k, "_information"@) || has_suffix(k, "_retry_counter"@) || has_suffix(
        k,
        "_elapsed_executing_ms"@,
    ) || has_suffix(k, "_elapsed_disabled_ms"@)
}

/// Whether a reset puts `k` back to `"initial"` as an operation variable:
/// it is a planned operation or a running instance of one (its name
/// followed by anything but kept bookkeeping), an operation of a SOP (every
/// leaf of its tree), or a variable under a SOP's id that is not kept
/// bookkeeping.
pub open spec fn reset_as_operation(model: Model, k: Seq<char>) -> bool {
    ||| exists|i: int| 0 <= i < model.operations.len() && (#[trigger] model.operations[i].name@ == k || (has_prefix(k, model.operations[i].name@) && !kept_on_reset(k)))
    ||| exists|i: int| 0 <= i < model.sops.len() && (sop_leaf_names(#[trigger] model.sops[i].sop@).contains(k) || (has_prefix(k, model.sops[i].id@) && !kept_on_reset(k)))
}

/// The value a reset gives the variable `k` of `m`: request triggers go
/// `false`, request states and operation variables `"initial"`, anything
/// else keeps its value.
pub open spec fn reset_value(model: Model, m: StateMap, k: Seq<char>) -> SPValueView {
    if has_suffix(k, "_request_trigger"@) {
        bool_view(false)
    } else if has_suffix(k, "_request_state"@) {
        string_view("initial"@)
    } else if reset_as_operation(model, k) {
        string_view("initial"@)
    } else {
        m[k]
    }
}

/// Whether `k` is kept bookkeeping.
fn is_kept_on_reset(k: &str) -> (r: bool)
    ensures
        r == kept_on_reset(k@),
{
    ends_with(k, "_information") || ends_with(k, "_retry_counter") || ends_with(k, "_elapsed_executing_ms")
        || ends_with(k, "_elapsed_disabled_ms")
}

/// Whether a reset puts `k` back to `"initial"` as an operation variable.
fn resets_as_operation(model: &Model, k: &str) -> (r: bool)
    ensures
        r == reset_as_operation(*model, k@),
{
    let kept = is_kept_on_reset(k);
    let mut i: usize = 0;
    while i < model.operations.len()
        invariant
            i <= model.operations.len(),
            kept == kept_on_reset(k@),
            forall|j: int| 0 <= j < i ==> !(#[trigger] model.operations[j].name@ == k@ || (has_prefix(k@, model.operations[j].name@) && !kept_on_reset(k@))),
        decreases model.operations.len() - i,
    {
        let n = model.operations[i].name.as_str();
        if str_eq(n, k) || (starts_with(k, n) && !kept) {
            return true;
        }
        i += 1;
    }
    let mut i: usize = 0;
    while i < model.sops.len()
        invariant
            i <= model.sops.len(),
            kept == kept_on_reset(k@),
            !(exists|j: int| 0 <= j < model.operations.len() && (#[trigger] model.operations[j].name@ == k@ || (has_prefix(k@, model.operations[j].name@) && !kept_on_reset(k@)))),
            forall|j: int| 0 <= j < i ==> !(sop_leaf_names(#[trigger] model.sops[j].sop@).contains(k@) || (has_prefix(k@, model.sops[j].id@) && !kept_on_reset(k@))),
        decreases model.sops.len() - i,
    {
        let names = model.sops[i].sop.get_all_operation_names();
        let mut listed = false;
        let mut x: usize = 0;
        while x < names.len()
            invariant
                x <= names.len(),
                i < model.sops.len(),
                names@.len() == sop_leaf_names(model.sops[i as int].sop@).len(),
                forall|y: int| 0 <= y < names.len() ==> #[trigger] names[y]@ == sop_leaf_names(model.sops[i as int].sop@)[y],
                listed == exists|y: int| 0 <= y < x && #[trigger] names[y]@ == k@,
            decreases names.len() - x,
        {
            if str_eq(names[x].as_str(), k) {
                listed = true;
            }
            proof {
                if names[x as int]@ == k@ {
                    assert(exists|y: int| 0 <= y < x + 1 && #[trigger] names[y]@ == k@);
                }
                if exists|y: int| 0 <= y < x + 1 && #[trigger] names[y]@ == k@ {
                    let y = choose|y: int| 0 <= y < x + 1 && #[trigger] names[y]@ == k@;
                    if y < x {
                        assert(exists|y: int| 0 <= y < x && #[trigger] names[y]@ == k@);
                    }
                }
            }
            x += 1;
        }
        proof {
            let sn = sop_leaf_names(model.sops[i as int].sop@);
            if listed {
                let y = choose|y: int| 0 <= y < names.len() && #[trigger] names[y]@ == k@;
                assert(sn[y] == k@);
                assert(sn.contains(k@));
            }
            if sn.contains(k@) {
                let y = choose|y: int| 0 <= y < sn.len() && sn[y] == k@;
                assert(names[y]@ == k@);
            }
        }
        if listed || (starts_with(k, model.sops[i].id.as_str()) && !kept) {
            return true;
        }
        proof {
            let sn = sop_leaf_names(model.sops[i as int].sop@);
            assert(!sn.contains(k@));
            assert(!(has_prefix(k@, model.sops[i as int].id@) && !kept_on_reset(k@)));
            assert forall|j: int| 0 <= j < i + 1 implies !(sop_leaf_names(#[trigger] model.sops[j].sop@).contains(k@) || (has_prefix(k@, model.sops[j].id@) && !kept_on_reset(k@))) by {
                if j == i {
                    assert(sop_leaf_names(model.sops[j].sop@) == sn);
                }
            }
        }
        i += 1;
    }
    false
}

/// The state with every planned operation (and its running instances),
/// every operation of each SOP's tree (and the variables under the SOP's
/// id) back at `"initial"`, every request state `"initial"` and every
/// request trigger `false`.  Bookkeeping variables (information, retry
/// counters, elapsed times) are kept.
pub fn reset_all_operations(state: &State, model: &Model) -> (r: State)
    requires
        forall|i: int| 0 <= i < model.operations.len() ==> state@.contains_key(#[trigger] model.operations[i].name@),
        forall|i: int, j: int| 0 <= i < model.sops.len() && 0 <= j < sop_leaf_names(model.sops[i].sop@).len()
            ==> state@.contains_key(#[trigger] sop_leaf_names(model.sops[i].sop@)[j]),
    ensures
        r@ == Map::new(|k: Seq<char>| state@.contains_key(k), |k: Seq<char>| reset_value(*model, state@, k)),
{
    let names = state.names();
    let mut new_state = state.duplicate();
    let mut i: usize = 0;
    while i < names.len()
        invariant
            i <= names.len(),
            names.len() == state.size(),
            forall|k: Seq<char>| #[trigger] state@.contains_key(k) <==> exists|j: int|
                0 <= j < names.len() && #[trigger] names[j]@ == k,
            forall|a: int, b: int| 0 <= a < b < names.len() ==> names[a]@ != names[b]@,
            new_state@.dom() == state@.dom(),
            forall|k: Seq<char>| #[trigger] new_state@.contains_key(k) ==> new_state@[k] == (if exists|j: int|
                0 <= j < i && #[trigger] names[j]@ == k {
                reset_value(*model, state@, k)
            } else {
                state@[k]
            }),
        decreases names.len() - i,
    {
        let k = names[i].as_str();
        assert(state@.contains_key(k@));
        let ghost before = new_state@;
        if ends_with(k, "_request_trigger") {
            new_state.update_mut(k, false.to_spvalue());
        } else if ends_with(k, "_request_state") {
            new_state.update_mut(k, "initial".to_spvalue());
        } else if resets_as_operation(model, k) {
            new_state.update_mut(k, "initial".to_spvalue());
        }
        proof {
            assert(new_state@[k@] == reset_value(*model, state@, k@));
            assert forall|x: Seq<char>| #[trigger] new_state@.contains_key(x) implies new_state@[x] == (if exists|j: int|
                0 <= j < i + 1 && #[trigger] names[j]@ == x {
                reset_value(*model, state@, x)
            } else {
                state@[x]
            }) by {
                if x == names[i as int]@ {
                    assert(exists|j: int| 0 <= j < i + 1 && #[trigger] names[j]@ == x);
                } else {
                    assert(new_state@[x] == before[x]);
                    if exists|j: int| 0 <= j < i + 1 && #[trigger] names[j]@ == x {
                        let j = choose|j: int| 0 <= j < i + 1 && #[trigger] names[j]@ == x;
                        assert(j != i);
                        assert(exists|j: int| 0 <= j < i && #[trigger] names[j]@ == x);
                    }
                }
            }
            assert(new_state@.dom() =~= state@.dom());
        }
        i += 1;
    }
    assert(new_state@ =~= Map::new(|k: Seq<char>| state@.contains_key(k), |k: Seq<char>| reset_value(*model, state@, k))) by {
        assert forall|k: Seq<char>| #[trigger] new_state@.contains_key(k) implies new_state@[k] == reset_value(*model, state@, k) by {
            assert(state@.contains_key(k));
            let j = choose|j: int| 0 <= j < names.len() && #[trigger] names[j]@ == k;
        }
    }
    new_state
}

/// The milliseconds since the Unix epoch by the wall clock, or `0` for a
/// reading before the epoch.  A reading beyond the range of `i64` wraps, as
/// the cast it is taken with does.
pub fn now_as_millis_i64() -> (r: i64) {
    let t = system_now();
    match since_unix_epoch(&t) {
        Some(d) => {
            let ms = duration_millis(&d);
            #[verifier::truncate]
            (ms as i64)
        },
        None => 0,
    }
}

} // verus!
