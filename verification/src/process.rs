//! The operation state machine every runner drives.
//!
//! One call advances one operation by one tick: it reads the operation's
//! lifecycle state and bookkeeping variables, takes at most one lifecycle
//! step, and writes back the operation's information message and elapsed
//! times.  A stop asked for on the dashboard cancels an operation that is
//! initial, disabled, executing, failed or timed out; a failed or timed-out
//! operation retries while it has retries left, then is bypassed where that
//! is allowed and is unrecoverable otherwise.
use crate::operation::{operation_state_text, op_can_be_cancelled, op_can_be_completed, op_can_be_failed, op_can_be_timedout, op_can_start, op_state, op_step, op_terminated, operation_covered, with_op_state, Operation, OperationState, OperationView, TerminationReason};
use crate::predicate::{lemma_predicate_views_from, predicate_views_from, Predicate, PredicateView};
use crate::render::{predicate_text, predicate_to_text};
use crate::runner_states::{plan_state_text, PlanState};
use crate::state::{int_or_zero, string_or_unknown, State};
use crate::text::{concat, concat3, has_prefix, i64_to_decimal, int_decimal, starts_with};
use crate::transition::{take_first, lemma_take_first_domain, transitions_covered, StateMap, TransitionView};
use crate::value::{int_view, string_view, ToSPValue};
use vstd::prelude::*;
use vstd::wrapping::i64_specs;

verus! {

/// Who drives an operation: the plan runner, a SOP runner or the automatic
/// operation runner.  Only a planned operation moves the plan along.
#[derive(Debug, Clone, Copy, PartialEq, Eq, Structural)]
pub enum OperationProcessingType {
    Planned,
    SOP,
    Automatic,
}

/// Whether `info` begins with `before`, then `op_name`, then `after`.
pub open spec fn reads_as(info: Seq<char>, before: Seq<char>, op_name: Seq<char>, after: Seq<char>) -> bool {
    has_prefix(info, before + op_name + after)
}

/// Whether `info` already is the message `before`, `op_name`, `after`, ...:
/// it begins with those three one after the other.  A name that is only a
/// prefix of `op_name`, or a longer name that begins with it, does not match.
pub fn info_already_reads_as(info: &str, before: &str, op_name: &str, after: &str) -> (r: bool)
    ensures
        r == reads_as(info@, before@, op_name@, after@),
{
    let whole = concat3(before, op_name, after);
    starts_with(info, whole.as_str())
}

/// A message naming the operation `n`: `a`, the name, `b`.
pub open spec fn say(a: Seq<char>, n: Seq<char>, b: Seq<char>) -> Seq<char> {
    a + n + b
}

/// The message of a retry: which kind, which operation, which attempt out of how many.
pub open spec fn retry_message(kind: Seq<char>, n: Seq<char>, count: i64, total: i64) -> Seq<char> {
    "Retrying operation ("@ + kind + ") '"@ + n + "'. Retry "@ + int_decimal(count as int)
        + " out of "@ + int_decimal(total as int) + "."@
}

/// The runner guards of the preconditions, as one disjunction.
pub open spec fn runner_guard_or(pre: Seq<TransitionView>) -> PredicateView {
    PredicateView::OR(Seq::new(pre.len(), |i: int| pre[i].runner_guard))
}

/// Both guards of each precondition, as one disjunction of conjunctions.
pub open spec fn full_guard_or(pre: Seq<TransitionView>) -> PredicateView {
    PredicateView::OR(
        Seq::new(pre.len(), |i: int| PredicateView::AND(seq![pre[i].guard, pre[i].runner_guard])),
    )
}

/// The message of a disabled operation: what it waits for.
pub open spec fn disabled_message(o: OperationView) -> Seq<char> {
    "Operation '"@ + o.name + "' disabled. Please satisfy the runner guard: \n       "@
        + predicate_text(runner_guard_or(o.preconditions)) + "\n       Debug full guard: \n       "@
        + predicate_text(full_guard_or(o.preconditions))
}

/// What one tick decides: the state after the lifecycle step, the
/// information message, the two elapsed times, the plan step and the plan
/// state.
pub struct Tick {
    pub m: StateMap,
    pub info: Seq<char>,
    pub ee: i64,
    pub ed: i64,
    pub step: i64,
    pub ps: Seq<char>,
}

/// The names of the operation's bookkeeping variables.
pub open spec fn info_key(o: OperationView) -> Seq<char> {
    o.name + "_information"@
}

pub open spec fn failure_key(o: OperationView) -> Seq<char> {
    o.name + "_failure_retry_counter"@
}

pub open spec fn timeout_key(o: OperationView) -> Seq<char> {
    o.name + "_timeout_retry_counter"@
}

pub open spec fn executing_key(o: OperationView) -> Seq<char> {
    o.name + "_elapsed_executing_ms"@
}

pub open spec fn disabled_key(o: OperationView) -> Seq<char> {
    o.name + "_elapsed_disabled_ms"@
}

/// Whether `m` holds what a tick of the operation reads and writes: the
/// operation's variables, its transitions' variables and its five
/// bookkeeping variables.
pub open spec fn tick_covered(o: OperationView, m: StateMap) -> bool {
    &&& operation_covered(o, m)
    &&& m.contains_key(info_key(o))
    &&& m.contains_key(failure_key(o))
    &&& m.contains_key(timeout_key(o))
    &&& m.contains_key(executing_key(o))
    &&& m.contains_key(disabled_key(o))
}

/// One tick of the operation, before the bookkeeping is written back.
#[verifier::opaque]
pub open spec fn tick_decision(
    sp_id: Seq<char>,
    o: OperationView,
    m: StateMap,
    kind: OperationProcessingType,
    step: i64,
    ps: Seq<char>,
    tick: i64,
) -> Tick {
    let n = o.name;
    let info0 = string_or_unknown(m, info_key(o));
    let fr = int_or_zero(m, failure_key(o));
    let tr = int_or_zero(m, timeout_key(o));
    let ee = int_or_zero(m, executing_key(o));
    let ed = int_or_zero(m, disabled_key(o));
    let cancel = op_can_be_cancelled(sp_id, o, m);
    let cancelled = op_step(o, o.cancel_transitions, m, OperationState::Cancelled);
    let cancelling = say("Cancelling operation '"@, n, "'."@);
    let planned = kind == OperationProcessingType::Planned;
    match op_state(o, m) {
        OperationState::Initial => if cancel {
            Tick { m: cancelled, info: cancelling, ee, ed, step, ps }
        } else if op_can_start(o, m) {
            Tick {
                m: op_step(o, o.preconditions, m, OperationState::Executing),
                info: say("Starting initialized operation '"@, n, "'."@),
                ee,
                ed,
                step,
                ps,
            }
        } else {
            Tick {
                m: with_op_state(o, m, OperationState::Disabled),
                info: say("Disabling operation '"@, n, "'."@),
                ee,
                ed,
                step,
                ps,
            }
        },
        OperationState::Disabled => {
            let ed2 = i64_specs::wrapping_add(ed, tick);
            if cancel {
                Tick { m: cancelled, info: cancelling, ee, ed: ed2, step, ps }
            } else if op_can_be_timedout(o, m) {
                Tick {
                    m: op_step(o, o.timeout_transitions, m, OperationState::Timedout),
                    info: say("Timeout for disabled operation '"@, n, "'."@),
                    ee,
                    ed: ed2,
                    step,
                    ps,
                }
            } else if op_can_start(o, m) {
                Tick {
                    m: op_step(o, o.preconditions, m, OperationState::Executing),
                    info: say("Starting disabled operation '"@, n, "'."@),
                    ee,
                    ed: ed2,
                    step,
                    ps,
                }
            } else {
                Tick {
                    m,
                    info: if reads_as(info0, "Operation '"@, n, "' disabled."@) {
                        info0
                    } else {
                        disabled_message(o)
                    },
                    ee,
                    ed: ed2,
                    step,
                    ps,
                }
            }
        },
        OperationState::Executing => {
            let ee2 = i64_specs::wrapping_add(ee, tick);
            if cancel {
                Tick { m: cancelled, info: cancelling, ee: ee2, ed, step, ps }
            } else if op_can_be_failed(o, m) {
                Tick {
                    m: op_step(o, o.fail_transitions, m, OperationState::Failed),
                    info: say("Failing operation '"@, n, "'."@),
                    ee: ee2,
                    ed,
                    step,
                    ps,
                }
            } else if op_can_be_timedout(o, m) {
                Tick {
                    m: op_step(o, o.timeout_transitions, m, OperationState::Timedout),
                    info: say("Timeout for executing operation '"@, n, "'."@),
                    ee: ee2,
                    ed,
                    step,
                    ps,
                }
            } else if op_can_be_completed(o, m) {
                Tick {
                    m: op_step(o, o.postconditions, m, OperationState::Completed),
                    info: say("Completing operation '"@, n, "'."@),
                    ee: ee2,
                    ed,
                    step,
                    ps,
                }
            } else {
                Tick {
                    m,
                    info: if reads_as(info0, "Waiting for operation '"@, n, "' to be completed."@) {
                        info0
                    } else {
                        say("Waiting for operation '"@, n, "' to be completed."@)
                    },
                    ee: ee2,
                    ed,
                    step,
                    ps,
                }
            }
        },
        OperationState::Completed => Tick {
            m: op_terminated(
                o,
                m.insert(failure_key(o), int_view(0)).insert(timeout_key(o), int_view(0)),
                TerminationReason::Completed,
            ),
            info: say("Operation '"@, n, "' completed."@),
            ee,
            ed,
            step: if planned {
                i64_specs::wrapping_add(step, 1)
            } else {
                step
            },
            ps,
        },
        OperationState::Bypassed => if cancel {
            Tick { m: op_terminated(o, cancelled, TerminationReason::Bypassed), info: cancelling, ee, ed, step, ps }
        } else {
            Tick {
                m: op_terminated(o, m, TerminationReason::Bypassed),
                info: say("Operation '"@, n, "' bypassed. Continuing with the next operation."@),
                ee,
                ed,
                step: if planned {
                    i64_specs::wrapping_add(step, 1)
                } else {
                    step
                },
                ps,
            }
        },
        OperationState::Timedout => if cancel {
            Tick { m: cancelled, info: cancelling, ee, ed, step, ps }
        } else if tr < o.timeout_retries {
            Tick {
                m: with_op_state(o, m, OperationState::Initial).insert(timeout_key(o), int_view((tr + 1) as i64)),
                info: retry_message("timeout"@, n, (tr + 1) as i64, o.timeout_retries),
                ee,
                ed,
                step,
                ps,
            }
        } else if o.can_be_bypassed {
            Tick {
                m: op_step(o, o.bypass_transitions, m, OperationState::Bypassed),
                info: say("Operation '"@, n, "' timedout. Bypassing."@),
                ee,
                ed,
                step,
                ps,
            }
        } else {
            Tick {
                m: with_op_state(o, m, OperationState::Fatal),
                info: say("Operation '"@, n, "' timedout."@),
                ee,
                ed,
                step,
                ps,
            }
        },
        OperationState::Failed => if cancel {
            Tick { m: cancelled, info: cancelling, ee, ed, step, ps }
        } else if fr < o.failure_retries {
            Tick {
                m: with_op_state(o, m, OperationState::Initial).insert(failure_key(o), int_view((fr + 1) as i64)),
                info: retry_message("failure"@, n, (fr + 1) as i64, o.failure_retries),
                ee,
                ed,
                step,
                ps,
            }
        } else if o.can_be_bypassed {
            Tick {
                m: op_step(o, o.bypass_transitions, m, OperationState::Bypassed).insert(
                    failure_key(o),
                    int_view(0),
                ).insert(timeout_key(o), int_view(0)),
                info: say("Operation '"@, n, "' has no more retries left. Bypassing."@),
                ee,
                ed,
                step,
                ps,
            }
        } else {
            Tick {
                m: with_op_state(o, m, OperationState::Fatal).insert(failure_key(o), int_view(0)).insert(
                    timeout_key(o),
                    int_view(0),
                ),
                info: say("Operation '"@, n, "' has no more retries left."@),
                ee,
                ed,
                step,
                ps,
            }
        },
        OperationState::Fatal => Tick {
            m: op_terminated(o, m, TerminationReason::Fatal),
            info: say("Operation '"@, n, "' unrecoverable. Stopping execution."@),
            ee,
            ed,
            step,
            ps: if planned {
                plan_state_text(PlanState::Failed)
            } else {
                ps
            },
        },
        OperationState::Cancelled => Tick {
            m: op_terminated(o, m, TerminationReason::Cancelled),
            info: say("Operation '"@, n, "' cancelled. Stopping execution."@),
            ee,
            ed,
            step,
            ps: if planned {
                plan_state_text(PlanState::Cancelled)
            } else {
                ps
            },
        },
        OperationState::UNKNOWN => Tick {
            m: with_op_state(o, m, OperationState::Initial),
            info: info0,
            ee,
            ed,
            step,
            ps,
        },
        OperationState::Terminated(_) => Tick {
            m,
            info: say("Operation '"@, n, "' terminated."@),
            ee,
            ed,
            step,
            ps,
        },
    }
}

/// The state after the tick: the decision's state with the information
/// message and the two elapsed times written back.
pub open spec fn tick_state(o: OperationView, t: Tick) -> StateMap {
    t.m.insert(info_key(o), string_view(t.info)).insert(executing_key(o), int_view(t.ee)).insert(
        disabled_key(o),
        int_view(t.ed),
    )
}

/// The lifecycle steps keep the names the state holds.
proof fn lemma_step_domain(o: OperationView, ts: Seq<TransitionView>, m: StateMap, s: OperationState)
    requires
        m.contains_key(o.name),
        transitions_covered(ts, m),
    ensures
        op_step(o, ts, m, s).dom() == m.dom(),
{
    lemma_take_first_domain(ts, m);
    assert(op_step(o, ts, m, s).dom() =~= m.dom());
}

/// The disabled message of the operation.
fn build_disabled_message(operation: &Operation) -> (r: String)
    ensures
        r@ == disabled_message(operation@),
{
    let pre = &operation.preconditions;
    let mut or_clause: Vec<Predicate> = Vec::new();
    let mut or_clause_full: Vec<Predicate> = Vec::new();
    let mut i: usize = 0;
    while i < pre.len()
        invariant
            i <= pre.len(),
            or_clause.len() == i,
            or_clause_full.len() == i,
            forall|j: int| 0 <= j < i ==> #[trigger] or_clause[j]@ == pre[j].runner_guard@,
            forall|j: int| 0 <= j < i ==> #[trigger] or_clause_full[j]@ == PredicateView::AND(
                seq![pre[j].guard@, pre[j].runner_guard@],
            ),
        decreases pre.len() - i,
    {
        or_clause.push(pre[i].runner_guard.duplicate());
        let mut both: Vec<Predicate> = Vec::new();
        both.push(pre[i].guard.duplicate());
        both.push(pre[i].runner_guard.duplicate());
        proof {
            lemma_predicate_views_from(both, 0);
            assert(predicate_views_from(both, 0)[0 - 0] == both[0]@);
            assert(predicate_views_from(both, 0)[1 - 0] == both[1]@);
            assert(predicate_views_from(both, 0) =~= seq![pre[i as int].guard@, pre[i as int].runner_guard@]);
        }
        or_clause_full.push(Predicate::AND(both));
        i += 1;
    }
    proof {
        let ov = operation@.preconditions;
        lemma_predicate_views_from(or_clause, 0);
        lemma_predicate_views_from(or_clause_full, 0);
        assert forall|j: int| 0 <= j < pre.len() implies predicate_views_from(or_clause, 0)[j] == ov[j].runner_guard by {
            assert(predicate_views_from(or_clause, 0)[j - 0] == or_clause[j]@);
            assert(ov[j] == pre[j]@);
        }
        assert forall|j: int| 0 <= j < pre.len() implies predicate_views_from(or_clause_full, 0)[j] == PredicateView::AND(seq![ov[j].guard, ov[j].runner_guard]) by {
            assert(predicate_views_from(or_clause_full, 0)[j - 0] == or_clause_full[j]@);
            assert(ov[j] == pre[j]@);
        }
        assert(predicate_views_from(or_clause, 0) =~= Seq::new(ov.len(), |j: int| ov[j].runner_guard));
        assert(predicate_views_from(or_clause_full, 0) =~= Seq::new(ov.len(), |j: int| PredicateView::AND(seq![ov[j].guard, ov[j].runner_guard])));
    }
    let p1 = Predicate::OR(or_clause);
    let p2 = Predicate::OR(or_clause_full);
    let t1 = predicate_to_text(&p1);
    let t2 = predicate_to_text(&p2);
    let mut s = concat3("Operation '", operation.name.as_str(), "' disabled. Please satisfy the runner guard: \n       ");
    s.append(t1.as_str());
    s.append("\n       Debug full guard: \n       ");
    s.append(t2.as_str());
    s
}

/// `a`, the name, `b`.
fn message(a: &str, n: &str, b: &str) -> (r: String)
    ensures
        r@ == say(a@, n@, b@),
{
    concat3(a, n, b)
}

/// The message of a retry.
fn build_retry_message(kind: &str, n: &str, count: i64, total: i64) -> (r: String)
    ensures
        r@ == retry_message(kind@, n@, count, total),
{
    let mut s = concat3("Retrying operation (", kind, ") '");
    s.append(n);
    s.append("'. Retry ");
    let c = i64_to_decimal(count);
    s.append(c.as_str());
    s.append(" out of ");
    let t = i64_to_decimal(total);
    s.append(t.as_str());
    s.append(".");
    s
}

/// Advances the operation by one tick and returns the new state.
///
/// The elapsed times and the plan step wrap around at the ends of `i64`,
/// as the release build's arithmetic does.
///
/// A planned operation that completes or is bypassed moves
/// `plan_current_step` on by one; one that is unrecoverable sets
/// `plan_state` to `"failed"`, one that is cancelled to `"cancelled"`.  For
/// the other kinds of driver both are left as they are.
pub fn process_operation(
    sp_id: &str,
    new_state: State,
    operation: &Operation,
    operation_processing_type: OperationProcessingType,
    plan_current_step: &mut i64,
    plan_state: &mut String,
    tick_elapsed_ms: i64,
    log_target: &str,
) -> (r: State)
    requires
        tick_covered(operation@, new_state@),
    ensures
        ({
            let t = tick_decision(
                sp_id@,
                operation@,
                new_state@,
                operation_processing_type,
                *old(plan_current_step),
                old(plan_state)@,
                tick_elapsed_ms,
            );
            &&& r@ == tick_state(operation@, t)
            &&& *final(plan_current_step) == t.step
            &&& final(plan_state)@ == t.ps
        }),
        r@.dom() == new_state@.dom(),
{
    let ghost m = new_state@;
    let ghost o = operation@;
    proof {
        reveal(tick_decision);
    }
    let name = operation.name.as_str();
    let info_k = concat(name, "_information");
    let failure_k = concat(name, "_failure_retry_counter");
    let timeout_k = concat(name, "_timeout_retry_counter");
    let executing_k = concat(name, "_elapsed_executing_ms");
    let disabled_k = concat(name, "_elapsed_disabled_ms");
    let old_info = new_state.get_string_or_default_to_unknown(info_k.as_str(), log_target);
    let failure_retries_done = new_state.get_int_or_default_to_zero(failure_k.as_str(), log_target);
    let timeout_retries_done = new_state.get_int_or_default_to_zero(timeout_k.as_str(), log_target);
    let mut elapsed_executing_ms = new_state.get_int_or_default_to_zero(executing_k.as_str(), log_target);
    let mut elapsed_disabled_ms = new_state.get_int_or_default_to_zero(disabled_k.as_str(), log_target);
    let planned = operation_processing_type == OperationProcessingType::Planned;
    let cancel = operation.can_be_cancelled(sp_id, &new_state, log_target);
    let mut state = new_state;
    let info: String;
    proof {
        lemma_step_domain(o, o.cancel_transitions, m, OperationState::Cancelled);
    }
    match operation.state_in(&state, log_target) {
        OperationState::Initial => {
            if cancel {
                state = operation.cancel(&state, log_target);
                info = message("Cancelling operation '", name, "'.");
            } else if operation.eval(&state, log_target) {
                proof {
                    lemma_step_domain(o, o.preconditions, m, OperationState::Executing);
                }
                state = operation.start(&state, log_target);
                info = message("Starting initialized operation '", name, "'.");
            } else {
                state = operation.disable(&state, log_target);
                info = message("Disabling operation '", name, "'.");
            }
        },
        OperationState::Disabled => {
            elapsed_disabled_ms = elapsed_disabled_ms.wrapping_add(tick_elapsed_ms);
            if cancel {
                state = operation.cancel(&state, log_target);
                info = message("Cancelling operation '", name, "'.");
            } else if operation.can_be_timedout(&state, log_target) {
                proof {
                    lemma_step_domain(o, o.timeout_transitions, m, OperationState::Timedout);
                }
                state = operation.timeout(&state, log_target);
                info = message("Timeout for disabled operation '", name, "'.");
            } else if operation.eval(&state, log_target) {
                proof {
                    lemma_step_domain(o, o.preconditions, m, OperationState::Executing);
                }
                state = operation.start(&state, log_target);
                info = message("Starting disabled operation '", name, "'.");
            } else if info_already_reads_as(old_info.as_str(), "Operation '", name, "' disabled.") {
                info = old_info;
            } else {
                info = build_disabled_message(operation);
            }
        },
        OperationState::Executing => {
            elapsed_executing_ms = elapsed_executing_ms.wrapping_add(tick_elapsed_ms);
            if cancel {
                state = operation.cancel(&state, log_target);
                info = message("Cancelling operation '", name, "'.");
            } else if operation.can_be_failed(&state, log_target) {
                proof {
                    lemma_step_domain(o, o.fail_transitions, m, OperationState::Failed);
                }
                state = operation.fail(&state, log_target);
                info = message("Failing operation '", name, "'.");
            } else if operation.can_be_timedout(&state, log_target) {
                proof {
                    lemma_step_domain(o, o.timeout_transitions, m, OperationState::Timedout);
                }
                state = operation.timeout(&state, log_target);
                info = message("Timeout for executing operation '", name, "'.");
            } else if operation.can_be_completed(&state, log_target) {
                proof {
                    lemma_step_domain(o, o.postconditions, m, OperationState::Completed);
                }
                state = operation.complete(&state, log_target);
                info = message("Completing operation '", name, "'.");
            } else if info_already_reads_as(
                old_info.as_str(),
                "Waiting for operation '",
                name,
                "' to be completed.",
            ) {
                info = old_info;
            } else {
                info = message("Waiting for operation '", name, "' to be completed.");
            }
        },
        OperationState::Completed => {
            state.update_mut(failure_k.as_str(), 0i64.to_spvalue());
            state.update_mut(timeout_k.as_str(), 0i64.to_spvalue());
            if planned {
                let current_step: i64 = *plan_current_step;
                *plan_current_step = current_step.wrapping_add(1);
            }
            info = message("Operation '", name, "' completed.");
            state = operation.terminate(&state, TerminationReason::Completed, log_target);
        },
        OperationState::Bypassed => {
            if cancel {
                state = operation.cancel(&state, log_target);
                info = message("Cancelling operation '", name, "'.");
            } else {
                info = message("Operation '", name, "' bypassed. Continuing with the next operation.");
                if planned {
                    let current_step: i64 = *plan_current_step;
                    *plan_current_step = current_step.wrapping_add(1);
                }
            }
            state = operation.terminate(&state, TerminationReason::Bypassed, log_target);
        },
        OperationState::Timedout => {
            if cancel {
                state = operation.cancel(&state, log_target);
                info = message("Cancelling operation '", name, "'.");
            } else if timeout_retries_done < operation.timeout_retries {
                let count = timeout_retries_done + 1;
                info = build_retry_message("timeout", name, count, operation.timeout_retries);
                state = operation.retry(&state, log_target);
                state.update_mut(timeout_k.as_str(), count.to_spvalue());
            } else if operation.can_be_bypassed {
                proof {
                    lemma_step_domain(o, o.bypass_transitions, m, OperationState::Bypassed);
                }
                state = operation.bypass(&state, log_target);
                info = message("Operation '", name, "' timedout. Bypassing.");
            } else {
                state = operation.fatal(&state, log_target);
                info = message("Operation '", name, "' timedout.");
            }
        },
        OperationState::Failed => {
            if cancel {
                state = operation.cancel(&state, log_target);
                info = message("Cancelling operation '", name, "'.");
            } else if failure_retries_done < operation.failure_retries {
                let count = failure_retries_done + 1;
                info = build_retry_message("failure", name, count, operation.failure_retries);
                state = operation.retry(&state, log_target);
                state.update_mut(failure_k.as_str(), count.to_spvalue());
            } else {
                if operation.can_be_bypassed {
                    proof {
                        lemma_step_domain(o, o.bypass_transitions, m, OperationState::Bypassed);
                    }
                    state = operation.bypass(&state, log_target);
                    info = message("Operation '", name, "' has no more retries left. Bypassing.");
                } else {
                    state = operation.fatal(&state, log_target);
                    info = message("Operation '", name, "' has no more retries left.");
                }
                state.update_mut(failure_k.as_str(), 0i64.to_spvalue());
                state.update_mut(timeout_k.as_str(), 0i64.to_spvalue());
            }
        },
        OperationState::Fatal => {
            info = message("Operation '", name, "' unrecoverable. Stopping execution.");
            if planned {
                *plan_state = PlanState::Failed.to_string();
            }
            state = operation.terminate(&state, TerminationReason::Fatal, log_target);
        },
        OperationState::Cancelled => {
            info = message("Operation '", name, "' cancelled. Stopping execution.");
            if planned {
                *plan_state = PlanState::Cancelled.to_string();
            }
            state = operation.terminate(&state, TerminationReason::Cancelled, log_target);
        },
        OperationState::UNKNOWN => {
            state = operation.initialize(&state, log_target);
            info = old_info;
        },
        OperationState::Terminated(_) => {
            info = message("Operation '", name, "' terminated.");
        },
    }
    assert(state@.dom() =~= m.dom());
    state.update_mut(info_k.as_str(), info.to_spvalue());
    state.update_mut(executing_k.as_str(), elapsed_executing_ms.to_spvalue());
    state.update_mut(disabled_k.as_str(), elapsed_disabled_ms.to_spvalue());
    state
}


// ----------------------------------------------------------------------------
// Laws of the lifecycle.
/// Whether `a` and `b` agree on every variable but the operation's own and
/// the three a tick writes back (information and the two elapsed times).
pub open spec fn same_but_written_back(o: OperationView, a: StateMap, b: StateMap) -> bool {
    forall|k: Seq<char>|
        k != o.name && k != info_key(o) && k != executing_key(o) && k != disabled_key(o) ==> (
        #[trigger] a.contains_key(k) == b.contains_key(k) && (a.contains_key(k) ==> a[k] == b[k]))
}

/// The operation's own variable and its bookkeeping variables are distinct.
proof fn lemma_bookkeeping_keys_differ(o: OperationView)
    ensures
        o.name != info_key(o),
        o.name != executing_key(o),
        o.name != disabled_key(o),
        o.name != timeout_key(o),
        o.name != failure_key(o),
        timeout_key(o) != info_key(o),
        timeout_key(o) != executing_key(o),
        timeout_key(o) != disabled_key(o),
        failure_key(o) != info_key(o),
        failure_key(o) != executing_key(o),
        failure_key(o) != disabled_key(o),
        info_key(o) != executing_key(o),
        info_key(o) != disabled_key(o),
{
    reveal_strlit("_information");
    reveal_strlit("_elapsed_executing_ms");
    reveal_strlit("_elapsed_disabled_ms");
    reveal_strlit("_timeout_retry_counter");
    reveal_strlit("_failure_retry_counter");
    assert(info_key(o).len() == o.name.len() + 12);
    assert(executing_key(o).len() == o.name.len() + 21);
    assert(disabled_key(o).len() == o.name.len() + 20);
    assert(timeout_key(o).len() == o.name.len() + 22);
    assert(failure_key(o).len() == o.name.len() + 22);
}

/// A timed-out operation that no stop cancels retries while it has timeout
/// retries left: it is initial again and its retry counter goes up by one.
/// With none left it is bypassed through its bypass transitions where it may
/// be bypassed, and unrecoverable otherwise.
pub proof fn lemma_timed_out_operation_retries_bypasses_or_fails(
    sp: Seq<char>,
    o: OperationView,
    m: StateMap,
    kind: OperationProcessingType,
    step: i64,
    ps: Seq<char>,
    tick: i64,
)
    requires
        op_state(o, m) == OperationState::Timedout,
        string_or_unknown(m, crate::operation::dashboard_key(sp)) != "stop"@,
    ensures
        ({
            let r = tick_state(o, tick_decision(sp, o, m, kind, step, ps, tick));
            let tr = int_or_zero(m, timeout_key(o));
            &&& tr < o.timeout_retries ==> string_or_unknown(r, o.name) == operation_state_text(OperationState::Initial)
                && r[timeout_key(o)] == int_view((tr + 1) as i64)
            &&& tr >= o.timeout_retries && o.can_be_bypassed ==> string_or_unknown(r, o.name)
                == operation_state_text(OperationState::Bypassed) && r[info_key(o)] == string_view(
                say("Operation '"@, o.name, "' timedout. Bypassing."@),
            ) && same_but_written_back(o, r, take_first(o.bypass_transitions, m))
            &&& tr >= o.timeout_retries && !o.can_be_bypassed ==> string_or_unknown(r, o.name)
                == operation_state_text(OperationState::Fatal) && r[info_key(o)] == string_view(
                say("Operation '"@, o.name, "' timedout."@),
            ) && same_but_written_back(o, r, m)
        }),
{
    reveal(tick_decision);
    lemma_bookkeeping_keys_differ(o);
    let t = tick_decision(sp, o, m, kind, step, ps, tick);
    let r = tick_state(o, t);
    let tr = int_or_zero(m, timeout_key(o));
    assert(!op_can_be_cancelled(sp, o, m));
    if tr < o.timeout_retries {
        assert(t.m == with_op_state(o, m, OperationState::Initial).insert(timeout_key(o), int_view((tr + 1) as i64)));
        assert(r[o.name] == t.m[o.name]);
    } else if o.can_be_bypassed {
        let b = take_first(o.bypass_transitions, m);
        assert(t.m == with_op_state(o, b, OperationState::Bypassed));
        assert(t.info == say("Operation '"@, o.name, "' timedout. Bypassing."@));
        assert(r[o.name] == t.m[o.name]);
        assert forall|k: Seq<char>|
            k != o.name && k != info_key(o) && k != executing_key(o) && k != disabled_key(o) implies (
            #[trigger] r.contains_key(k) == b.contains_key(k) && (r.contains_key(k) ==> r[k] == b[k])) by {}
    } else {
        assert(t.m == with_op_state(o, m, OperationState::Fatal));
        assert(t.info == say("Operation '"@, o.name, "' timedout."@));
        assert(r[o.name] == t.m[o.name]);
        assert forall|k: Seq<char>|
            k != o.name && k != info_key(o) && k != executing_key(o) && k != disabled_key(o) implies (
            #[trigger] r.contains_key(k) == m.contains_key(k) && (r.contains_key(k) ==> r[k] == m[k])) by {}
    }
}

/// A failed operation that no stop cancels retries while it has failure
/// retries left: it is initial again and its retry counter goes up by one.
/// With none left it is bypassed through its bypass transitions where it may
/// be bypassed, and unrecoverable otherwise; either way both retry counters
/// start again from zero.
pub proof fn lemma_failed_operation_retries_bypasses_or_fails(
    sp: Seq<char>,
    o: OperationView,
    m: StateMap,
    kind: OperationProcessingType,
    step: i64,
    ps: Seq<char>,
    tick: i64,
)
    requires
        op_state(o, m) == OperationState::Failed,
        string_or_unknown(m, crate::operation::dashboard_key(sp)) != "stop"@,
    ensures
        ({
            let r = tick_state(o, tick_decision(sp, o, m, kind, step, ps, tick));
            let fr = int_or_zero(m, failure_key(o));
            &&& fr < o.failure_retries ==> string_or_unknown(r, o.name) == operation_state_text(OperationState::Initial)
                && r[failure_key(o)] == int_view((fr + 1) as i64)
            &&& fr >= o.failure_retries ==> r[failure_key(o)] == int_view(0) && r[timeout_key(o)] == int_view(0)
            &&& fr >= o.failure_retries && o.can_be_bypassed ==> string_or_unknown(r, o.name)
                == operation_state_text(OperationState::Bypassed) && r[info_key(o)] == string_view(
                say("Operation '"@, o.name, "' has no more retries left. Bypassing."@),
            )
            &&& fr >= o.failure_retries && !o.can_be_bypassed ==> string_or_unknown(r, o.name)
                == operation_state_text(OperationState::Fatal) && r[info_key(o)] == string_view(
                say("Operation '"@, o.name, "' has no more retries left."@),
            )
        }),
{
    reveal(tick_decision);
    lemma_bookkeeping_keys_differ(o);
    let t = tick_decision(sp, o, m, kind, step, ps, tick);
    let r = tick_state(o, t);
    let fr = int_or_zero(m, failure_key(o));
    assert(!op_can_be_cancelled(sp, o, m));
    if fr < o.failure_retries {
        assert(t.m == with_op_state(o, m, OperationState::Initial).insert(failure_key(o), int_view((fr + 1) as i64)));
        assert(r[o.name] == t.m[o.name]);
    } else if o.can_be_bypassed {
        let b = take_first(o.bypass_transitions, m);
        assert(t.m == with_op_state(o, b, OperationState::Bypassed).insert(failure_key(o), int_view(0)).insert(
            timeout_key(o),
            int_view(0),
        ));
        assert(r[o.name] == t.m[o.name]);
    } else {
        assert(t.m == with_op_state(o, m, OperationState::Fatal).insert(failure_key(o), int_view(0)).insert(
            timeout_key(o),
            int_view(0),
        ));
        assert(r[o.name] == t.m[o.name]);
    }
}

} // verus!
