//! Operations and their lifecycle.
//!
//! An operation is a named unit of work.  Its lifecycle state is kept in the
//! state variable that carries the operation's name, as one of the strings
//! of [`OperationState`].  Each lifecycle step takes the first of the
//! matching transitions whose guards hold and then records the new state.
use crate::predicate::{contains_name, push_name};
use crate::text::{concat, str_eq};
use crate::transition::{transition_mentions, 
    duplicate_transitions, find_holding, first_holding, lemma_covered_same_domain,
    lemma_take_first_domain, take_first, take_first_holding, transition_views, transitions_covered,
    StateMap, Transition, TransitionView,
};
use crate::state::{int_or_zero, string_or_unknown, State};
use crate::value::{string_view, SPValue, ToSPValue};
use vstd::prelude::*;

verus! {

/// Why an operation was terminated.
#[derive(Debug, Clone, Copy, PartialEq, Eq, Structural)]
pub enum TerminationReason {
    Completed,
    Bypassed,
    Fatal,
    Cancelled,
}

/// The lifecycle state of an operation.
#[derive(Debug, Clone, Copy, PartialEq, Eq, Structural)]
pub enum OperationState {
    Initial,
    Disabled,
    Executing,
    Timedout,
    Failed,
    Completed,
    Bypassed,
    Fatal,
    Cancelled,
    Terminated(TerminationReason),
    UNKNOWN,
}

/// The string an operation state is stored as.
pub open spec fn operation_state_text(s: OperationState) -> Seq<char> {
    match s {
        OperationState::Initial => "initial"@,
        OperationState::Disabled => "disabled"@,
        OperationState::Executing => "executing"@,
        OperationState::Timedout => "timedout"@,
        OperationState::Failed => "failed"@,
        OperationState::Completed => "completed"@,
        OperationState::Bypassed => "bypassed"@,
        OperationState::Fatal => "fatal"@,
        OperationState::Cancelled => "cancelled"@,
        OperationState::Terminated(TerminationReason::Completed) => "terminated_completed"@,
        OperationState::Terminated(TerminationReason::Bypassed) => "terminated_bypassed"@,
        OperationState::Terminated(TerminationReason::Fatal) => "terminated_fatal"@,
        OperationState::Terminated(TerminationReason::Cancelled) => "terminated_cancelled"@,
        OperationState::UNKNOWN => "UNKNOWN"@,
    }
}

/// The operation state a string names; `UNKNOWN` for any other string.
pub open spec fn operation_state_of(x: Seq<char>) -> OperationState {
    if x == "initial"@ {
        OperationState::Initial
    } else if x == "disabled"@ {
        OperationState::Disabled
    } else if x == "executing"@ {
        OperationState::Executing
    } else if x == "timedout"@ {
        OperationState::Timedout
    } else if x == "failed"@ {
        OperationState::Failed
    } else if x == "completed"@ {
        OperationState::Completed
    } else if x == "bypassed"@ {
        OperationState::Bypassed
    } else if x == "fatal"@ {
        OperationState::Fatal
    } else if x == "cancelled"@ {
        OperationState::Cancelled
    } else if x == "terminated_completed"@ {
        OperationState::Terminated(TerminationReason::Completed)
    } else if x == "terminated_bypassed"@ {
        OperationState::Terminated(TerminationReason::Bypassed)
    } else if x == "terminated_fatal"@ {
        OperationState::Terminated(TerminationReason::Fatal)
    } else if x == "terminated_cancelled"@ {
        OperationState::Terminated(TerminationReason::Cancelled)
    } else {
        OperationState::UNKNOWN
    }
}

impl OperationState {
    /// Parses a stored operation state; anything unrecognised is `UNKNOWN`.
    pub fn from_str(x: &str) -> (r: OperationState)
        ensures
            r == operation_state_of(x@),
    {
        if str_eq(x, "initial") {
            OperationState::Initial
        } else if str_eq(x, "disabled") {
            OperationState::Disabled
        } else if str_eq(x, "executing") {
            OperationState::Executing
        } else if str_eq(x, "timedout") {
            OperationState::Timedout
        } else if str_eq(x, "failed") {
            OperationState::Failed
        } else if str_eq(x, "completed") {
            OperationState::Completed
        } else if str_eq(x, "bypassed") {
            OperationState::Bypassed
        } else if str_eq(x, "fatal") {
            OperationState::Fatal
        } else if str_eq(x, "cancelled") {
            OperationState::Cancelled
        } else if str_eq(x, "terminated_completed") {
            OperationState::Terminated(TerminationReason::Completed)
        } else if str_eq(x, "terminated_bypassed") {
            OperationState::Terminated(TerminationReason::Bypassed)
        } else if str_eq(x, "terminated_fatal") {
            OperationState::Terminated(TerminationReason::Fatal)
        } else if str_eq(x, "terminated_cancelled") {
            OperationState::Terminated(TerminationReason::Cancelled)
        } else {
            OperationState::UNKNOWN
        }
    }

    /// The string the state is stored as.
    pub fn as_text(&self) -> (r: &'static str)
        ensures
            r@ == operation_state_text(*self),
    {
        match self {
            OperationState::Initial => "initial",
            OperationState::Disabled => "disabled",
            OperationState::Executing => "executing",
            OperationState::Timedout => "timedout",
            OperationState::Failed => "failed",
            OperationState::Completed => "completed",
            OperationState::Bypassed => "bypassed",
            OperationState::Fatal => "fatal",
            OperationState::Cancelled => "cancelled",
            OperationState::Terminated(TerminationReason::Completed) => "terminated_completed",
            OperationState::Terminated(TerminationReason::Bypassed) => "terminated_bypassed",
            OperationState::Terminated(TerminationReason::Fatal) => "terminated_fatal",
            OperationState::Terminated(TerminationReason::Cancelled) => "terminated_cancelled",
            OperationState::UNKNOWN => "UNKNOWN",
        }
    }

    /// The state as a stored value.
    pub fn to_spvalue(&self) -> (v: SPValue)
        ensures
            v@ == string_view(operation_state_text(*self)),
    {
        self.as_text().to_spvalue()
    }
}

/// A unit of work and the transitions of its lifecycle.
#[derive(Debug, PartialEq)]
pub struct Operation {
    pub name: String,
    pub timeout_executing_ms: Option<i64>,
    pub timeout_disabled_ms: Option<i64>,
    pub failure_retries: i64,
    pub timeout_retries: i64,
    pub can_be_bypassed: bool,
    pub preconditions: Vec<Transition>,
    pub postconditions: Vec<Transition>,
    pub fail_transitions: Vec<Transition>,
    pub timeout_transitions: Vec<Transition>,
    pub bypass_transitions: Vec<Transition>,
    pub cancel_transitions: Vec<Transition>,
}

/// The content of an operation.
pub struct OperationView {
    pub name: Seq<char>,
    pub timeout_executing_ms: Option<i64>,
    pub timeout_disabled_ms: Option<i64>,
    pub failure_retries: i64,
    pub timeout_retries: i64,
    pub can_be_bypassed: bool,
    pub preconditions: Seq<TransitionView>,
    pub postconditions: Seq<TransitionView>,
    pub fail_transitions: Seq<TransitionView>,
    pub timeout_transitions: Seq<TransitionView>,
    pub bypass_transitions: Seq<TransitionView>,
    pub cancel_transitions: Seq<TransitionView>,
}

impl View for Operation {
    type V = OperationView;

    open spec fn view(&self) -> OperationView {
        OperationView {
            name: self.name@,
            timeout_executing_ms: self.timeout_executing_ms,
            timeout_disabled_ms: self.timeout_disabled_ms,
            failure_retries: self.failure_retries,
            timeout_retries: self.timeout_retries,
            can_be_bypassed: self.can_be_bypassed,
            preconditions: transition_views(self.preconditions@),
            postconditions: transition_views(self.postconditions@),
            fail_transitions: transition_views(self.fail_transitions@),
            timeout_transitions: transition_views(self.timeout_transitions@),
            bypass_transitions: transition_views(self.bypass_transitions@),
            cancel_transitions: transition_views(self.cancel_transitions@),
        }
    }
}

/// The views of a list of operations.
pub open spec fn operation_views(v: Seq<Operation>) -> Seq<OperationView> {
    Seq::new(v.len(), |i: int| v[i]@)
}

// ----------------------------------------------------------------------------
// The lifecycle in the specifications.
/// The stored lifecycle string of the operation.
pub open spec fn op_state_text(o: OperationView, m: StateMap) -> Seq<char> {
    string_or_unknown(m, o.name)
}

/// The lifecycle state of the operation in `m`.
pub open spec fn op_state(o: OperationView, m: StateMap) -> OperationState {
    operation_state_of(op_state_text(o, m))
}

/// Whether `m` holds the operation's own variable and every variable of its
/// transitions.
pub open spec fn operation_covered(o: OperationView, m: StateMap) -> bool {
    &&& m.contains_key(o.name)
    &&& transitions_covered(o.preconditions, m)
    &&& transitions_covered(o.postconditions, m)
    &&& transitions_covered(o.fail_transitions, m)
    &&& transitions_covered(o.timeout_transitions, m)
    &&& transitions_covered(o.bypass_transitions, m)
    &&& transitions_covered(o.cancel_transitions, m)
}

/// `m` with the operation's lifecycle variable set to `s`.
pub open spec fn with_op_state(o: OperationView, m: StateMap, s: OperationState) -> StateMap {
    m.insert(o.name, string_view(operation_state_text(s)))
}

/// Whether the operation may start: it is initial or disabled and one of its
/// preconditions holds.
pub open spec fn op_can_start(o: OperationView, m: StateMap) -> bool {
    (op_state(o, m) == OperationState::Initial || op_state(o, m) == OperationState::Disabled)
        && first_holding(o.preconditions, m) is Some
}

/// The name of the dashboard command variable of the controller `sp_id`.
pub open spec fn dashboard_key(sp_id: Seq<char>) -> Seq<char> {
    sp_id + "_dashboard_command"@
}

/// Whether a stop was asked for and the operation is in a state a stop cancels.
pub open spec fn op_can_be_cancelled(sp_id: Seq<char>, o: OperationView, m: StateMap) -> bool {
    string_or_unknown(m, dashboard_key(sp_id)) == "stop"@ && match op_state(o, m) {
        OperationState::Initial | OperationState::Executing | OperationState::Disabled
        | OperationState::Failed | OperationState::Timedout => true,
        _ => false,
    }
}

/// The name of one of the operation's bookkeeping variables.
pub open spec fn meta_key(o: OperationView, suffix: Seq<char>) -> Seq<char> {
    o.name + suffix
}

/// Whether the operation has been executing, or disabled, for longer than
/// its deadline for that state allows.
pub open spec fn op_can_be_timedout(o: OperationView, m: StateMap) -> bool {
    match op_state(o, m) {
        OperationState::Executing => match o.timeout_executing_ms {
            Some(t) => int_or_zero(m, meta_key(o, "_elapsed_executing_ms"@)) > t,
            None => false,
        },
        OperationState::Disabled => match o.timeout_disabled_ms {
            Some(t) => int_or_zero(m, meta_key(o, "_elapsed_disabled_ms"@)) > t,
            None => false,
        },
        _ => false,
    }
}

/// Whether the operation is executing and one of its postconditions holds.
pub open spec fn op_can_be_completed(o: OperationView, m: StateMap) -> bool {
    op_state(o, m) == OperationState::Executing && first_holding(o.postconditions, m) is Some
}

/// Whether the operation is executing and one of its failure transitions holds.
pub open spec fn op_can_be_failed(o: OperationView, m: StateMap) -> bool {
    op_state(o, m) == OperationState::Executing && first_holding(o.fail_transitions, m) is Some
}

/// The state after the step that takes the first holding one of `ts` and
/// moves the operation to `s`.
pub open spec fn op_step(
    o: OperationView,
    ts: Seq<TransitionView>,
    m: StateMap,
    s: OperationState,
) -> StateMap {
    with_op_state(o, take_first(ts, m), s)
}

/// The state after terminating the operation for `reason`: the operation
/// is marked terminated for that reason.
pub open spec fn op_terminated(o: OperationView, m: StateMap, reason: TerminationReason) -> StateMap {
    with_op_state(o, m, OperationState::Terminated(reason))
}

// ----------------------------------------------------------------------------
// Executable lifecycle.
impl Operation {
    /// An operation; an absent retry count means no retries.
    pub fn new(
        name: &str,
        timeout_executing_ms: Option<i64>,
        timeout_disabled_ms: Option<i64>,
        failure_retries: Option<i64>,
        timeout_retries: Option<i64>,
        can_be_bypassed: bool,
        preconditions: Vec<Transition>,
        postconditions: Vec<Transition>,
        fail_transitions: Vec<Transition>,
        timeout_transitions: Vec<Transition>,
        bypass_transitions: Vec<Transition>,
        cancel_transitions: Vec<Transition>,
    ) -> (o: Operation)
        ensures
            o.name@ == name@,
            o.timeout_executing_ms == timeout_executing_ms,
            o.timeout_disabled_ms == timeout_disabled_ms,
            o.failure_retries == (match failure_retries {
                Some(n) => n,
                None => 0,
            }),
            o.timeout_retries == (match timeout_retries {
                Some(n) => n,
                None => 0,
            }),
            o.can_be_bypassed == can_be_bypassed,
            o.preconditions == preconditions,
            o.postconditions == postconditions,
            o.fail_transitions == fail_transitions,
            o.timeout_transitions == timeout_transitions,
            o.bypass_transitions == bypass_transitions,
            o.cancel_transitions == cancel_transitions,
    {
        Operation {
            name: String::from_str(name),
            timeout_executing_ms,
            timeout_disabled_ms,
            failure_retries: match failure_retries {
                Some(n) => n,
                None => 0,
            },
            timeout_retries: match timeout_retries {
                Some(n) => n,
                None => 0,
            },
            can_be_bypassed,
            preconditions,
            postconditions,
            fail_transitions,
            timeout_transitions,
            bypass_transitions,
            cancel_transitions,
        }
    }

    /// A copy of the operation.
    pub fn duplicate(&self) -> (r: Operation)
        ensures
            r@ == self@,
    {
        Operation {
            name: self.name.clone(),
            timeout_executing_ms: self.timeout_executing_ms,
            timeout_disabled_ms: self.timeout_disabled_ms,
            failure_retries: self.failure_retries,
            timeout_retries: self.timeout_retries,
            can_be_bypassed: self.can_be_bypassed,
            preconditions: duplicate_transitions(&self.preconditions),
            postconditions: duplicate_transitions(&self.postconditions),
            fail_transitions: duplicate_transitions(&self.fail_transitions),
            timeout_transitions: duplicate_transitions(&self.timeout_transitions),
            bypass_transitions: duplicate_transitions(&self.bypass_transitions),
            cancel_transitions: duplicate_transitions(&self.cancel_transitions),
        }
    }

    /// A copy of the operation under another name.
    pub fn renamed(&self, name: String) -> (r: Operation)
        ensures
            r@ == (OperationView { name: name@, ..self@ }),
    {
        let mut r = self.duplicate();
        r.name = name;
        r
    }

    /// The lifecycle state the operation is in.
    pub fn state_in(&self, state: &State, log_target: &str) -> (r: OperationState)
        ensures
            r == op_state(self@, state@),
    {
        let s = state.get_string_or_default_to_unknown(self.name.as_str(), log_target);
        OperationState::from_str(s.as_str())
    }

    /// Sets the lifecycle variable.
    fn set_state(&self, state: &State, s: OperationState) -> (r: State)
        requires
            state@.contains_key(self@.name),
        ensures
            r@ == with_op_state(self@, state@, s),
    {
        state.update(self.name.as_str(), s.to_spvalue())
    }

    /// Takes the first holding one of `ts`, then sets the lifecycle variable.
    fn step(&self, ts: &Vec<Transition>, state: &State, s: OperationState, log_target: &str) -> (r: State)
        requires
            state@.contains_key(self@.name),
            transitions_covered(transition_views(ts@), state@),
        ensures
            r@ == op_step(self@, transition_views(ts@), state@, s),
    {
        let next = take_first_holding(ts, state, log_target);
        proof {
            lemma_take_first_domain(transition_views(ts@), state@);
            assert(next@.dom().contains(self@.name));
        }
        self.set_state(&next, s)
    }

    /// Whether the operation may start.
    pub fn eval(&self, state: &State, log_target: &str) -> (r: bool)
        requires
            transitions_covered(self@.preconditions, state@),
        ensures
            r == op_can_start(self@, state@),
    {
        let s = self.state_in(state, log_target);
        if s == OperationState::Initial || s == OperationState::Disabled {
            find_holding(&self.preconditions, state, log_target).is_some()
        } else {
            false
        }
    }

    /// Takes the first holding precondition and marks the operation executing.
    pub fn start(&self, state: &State, log_target: &str) -> (r: State)
        requires
            operation_covered(self@, state@),
        ensures
            r@ == op_step(self@, self@.preconditions, state@, OperationState::Executing),
    {
        self.step(&self.preconditions, state, OperationState::Executing, log_target)
    }

    /// Takes the first holding postcondition and marks the operation completed.
    pub fn complete(&self, state: &State, log_target: &str) -> (r: State)
        requires
            operation_covered(self@, state@),
        ensures
            r@ == op_step(self@, self@.postconditions, state@, OperationState::Completed),
    {
        self.step(&self.postconditions, state, OperationState::Completed, log_target)
    }

    /// Takes the first holding failure transition and marks the operation failed.
    pub fn fail(&self, state: &State, log_target: &str) -> (r: State)
        requires
            operation_covered(self@, state@),
        ensures
            r@ == op_step(self@, self@.fail_transitions, state@, OperationState::Failed),
    {
        self.step(&self.fail_transitions, state, OperationState::Failed, log_target)
    }

    /// Takes the first holding timeout transition and marks the operation timed out.
    pub fn timeout(&self, state: &State, log_target: &str) -> (r: State)
        requires
            operation_covered(self@, state@),
        ensures
            r@ == op_step(self@, self@.timeout_transitions, state@, OperationState::Timedout),
    {
        self.step(&self.timeout_transitions, state, OperationState::Timedout, log_target)
    }

    /// Takes the first holding bypass transition and marks the operation bypassed.
    pub fn bypass(&self, state: &State, log_target: &str) -> (r: State)
        requires
            operation_covered(self@, state@),
        ensures
            r@ == op_step(self@, self@.bypass_transitions, state@, OperationState::Bypassed),
    {
        self.step(&self.bypass_transitions, state, OperationState::Bypassed, log_target)
    }

    /// Takes the first holding cancel transition and marks the operation cancelled.
    pub fn cancel(&self, state: &State, log_target: &str) -> (r: State)
        requires
            operation_covered(self@, state@),
        ensures
            r@ == op_step(self@, self@.cancel_transitions, state@, OperationState::Cancelled),
    {
        self.step(&self.cancel_transitions, state, OperationState::Cancelled, log_target)
    }

    /// Marks the operation disabled.
    pub fn disable(&self, state: &State, log_target: &str) -> (r: State)
        requires
            state@.contains_key(self@.name),
        ensures
            r@ == with_op_state(self@, state@, OperationState::Disabled),
    {
        self.set_state(state, OperationState::Disabled)
    }

    /// Puts the operation back to initial for another attempt.
    pub fn retry(&self, state: &State, log_target: &str) -> (r: State)
        requires
            state@.contains_key(self@.name),
        ensures
            r@ == with_op_state(self@, state@, OperationState::Initial),
    {
        self.set_state(state, OperationState::Initial)
    }

    /// Puts the operation in its initial state.
    pub fn initialize(&self, state: &State, log_target: &str) -> (r: State)
        requires
            state@.contains_key(self@.name),
        ensures
            r@ == with_op_state(self@, state@, OperationState::Initial),
    {
        self.set_state(state, OperationState::Initial)
    }

    /// Marks the operation unrecoverable.
    pub fn fatal(&self, state: &State, log_target: &str) -> (r: State)
        requires
            state@.contains_key(self@.name),
        ensures
            r@ == with_op_state(self@, state@, OperationState::Fatal),
    {
        self.set_state(state, OperationState::Fatal)
    }

    /// Marks the operation terminated for `reason`.
    pub fn terminate(&self, state: &State, reason: TerminationReason, log_target: &str) -> (r: State)
        requires
            state@.contains_key(self@.name),
        ensures
            r@ == op_terminated(self@, state@, reason),
    {
        self.set_state(state, OperationState::Terminated(reason))
    }

    /// Whether a stop was asked for and the operation is in a state a stop cancels.
    pub fn can_be_cancelled(&self, sp_id: &str, state: &State, log_target: &str) -> (r: bool)
        ensures
            r == op_can_be_cancelled(sp_id@, self@, state@),
    {
        let key = concat(sp_id, "_dashboard_command");
        let command = state.get_string_or_default_to_unknown(key.as_str(), log_target);
        if !str_eq(command.as_str(), "stop") {
            return false;
        }
        match self.state_in(state, log_target) {
            OperationState::Initial | OperationState::Executing | OperationState::Disabled
            | OperationState::Failed | OperationState::Timedout => true,
            _ => false,
        }
    }

    /// Whether the operation has outlived its deadline for the state it is in.
    pub fn can_be_timedout(&self, state: &State, log_target: &str) -> (r: bool)
        ensures
            r == op_can_be_timedout(self@, state@),
    {
        match self.state_in(state, log_target) {
            OperationState::Executing => match self.timeout_executing_ms {
                Some(t) => {
                    let key = concat(self.name.as_str(), "_elapsed_executing_ms");
                    state.get_int_or_default_to_zero(key.as_str(), log_target) > t
                },
                None => false,
            },
            OperationState::Disabled => match self.timeout_disabled_ms {
                Some(t) => {
                    let key = concat(self.name.as_str(), "_elapsed_disabled_ms");
                    state.get_int_or_default_to_zero(key.as_str(), log_target) > t
                },
                None => false,
            },
            _ => false,
        }
    }

    /// Whether the operation is executing and one of its postconditions holds.
    pub fn can_be_completed(&self, state: &State, log_target: &str) -> (r: bool)
        requires
            transitions_covered(self@.postconditions, state@),
        ensures
            r == op_can_be_completed(self@, state@),
    {
        self.state_in(state, log_target) == OperationState::Executing && find_holding(
            &self.postconditions,
            state,
            log_target,
        ).is_some()
    }

    /// Whether the operation is executing and one of its failure transitions holds.
    pub fn can_be_failed(&self, state: &State, log_target: &str) -> (r: bool)
        requires
            transitions_covered(self@.fail_transitions, state@),
        ensures
            r == op_can_be_failed(self@, state@),
    {
        self.state_in(state, log_target) == OperationState::Executing && find_holding(
            &self.fail_transitions,
            state,
            log_target,
        ).is_some()
    }
}

/// Copies of the operations.
pub fn duplicate_operations(v: &Vec<Operation>) -> (r: Vec<Operation>)
    ensures
        operation_views(r@) == operation_views(v@),
{
    let mut out: Vec<Operation> = Vec::new();
    let mut i: usize = 0;
    while i < v.len()
        invariant
            i <= v.len(),
            out.len() == i,
            forall|j: int| 0 <= j < i ==> #[trigger] out[j]@ == v[j]@,
        decreases v.len() - i,
    {
        out.push(v[i].duplicate());
        i += 1;
    }
    assert(operation_views(out@) =~= operation_views(v@));
    out
}

/// A covered operation stays covered in a state with the same names.
pub proof fn lemma_operation_covered_same_domain(o: OperationView, m1: StateMap, m2: StateMap)
    requires
        m1.dom() == m2.dom(),
        operation_covered(o, m1),
    ensures
        operation_covered(o, m2),
{
    lemma_covered_same_domain(m1, m2);
    assert(m1.dom().contains(o.name));
}

/// Whether one of the transitions mentions the variable `n`.
pub open spec fn transitions_mention(s: Seq<TransitionView>, n: Seq<char>) -> bool {
    exists|i: int| 0 <= i < s.len() && transition_mentions(#[trigger] s[i], n)
}

/// Whether one of the operation's transitions mentions the variable `n`.
pub open spec fn op_mentions(o: OperationView, n: Seq<char>) -> bool {
    transitions_mention(o.preconditions, n) || transitions_mention(o.postconditions, n)
        || transitions_mention(o.fail_transitions, n) || transitions_mention(o.timeout_transitions, n)
        || transitions_mention(o.bypass_transitions, n) || transitions_mention(o.cancel_transitions, n)
}

/// Appends the names every one of the transitions mentions.
fn collect_transition_keys(v: &Vec<Transition>, out: &mut Vec<String>)
    ensures
        forall|n: Seq<char>| #[trigger] contains_name(final(out)@, n) == (contains_name(old(out)@, n)
            || transitions_mention(transition_views(v@), n)),
{
    let ghost start = out@;
    let ghost s = transition_views(v@);
    let mut i: usize = 0;
    while i < v.len()
        invariant
            i <= v.len(),
            s == transition_views(v@),
            forall|n: Seq<char>| #[trigger] contains_name(out@, n) == (contains_name(start, n) || exists|j: int|
                0 <= j < i && transition_mentions(#[trigger] s[j], n)),
        decreases v.len() - i,
    {
        let keys = v[i].get_all_var_keys();
        let ghost before = out@;
        let mut k: usize = 0;
        while k < keys.len()
            invariant
                k <= keys.len(),
                forall|n: Seq<char>| #[trigger] contains_name(out@, n) == (contains_name(before, n)
                    || exists|j: int| 0 <= j < k && #[trigger] keys[j]@ == n),
            decreases keys.len() - k,
        {
            push_name(out, keys[k].clone());
            proof {
                assert forall|n: Seq<char>| #[trigger] contains_name(out@, n) == (contains_name(before, n)
                    || exists|j: int| 0 <= j < k + 1 && #[trigger] keys[j]@ == n) by {
                    if exists|j: int| 0 <= j < k + 1 && #[trigger] keys[j]@ == n {
                        let j = choose|j: int| 0 <= j < k + 1 && #[trigger] keys[j]@ == n;
                        if j < k {
                            assert(exists|j: int| 0 <= j < k && #[trigger] keys[j]@ == n);
                        }
                    }
                    if n == keys[k as int]@ {
                        assert(exists|j: int| 0 <= j < k + 1 && #[trigger] keys[j]@ == n);
                    }
                }
            }
            k += 1;
        }
        proof {
            assert(s[i as int] == v[i as int]@);
            assert forall|n: Seq<char>| #[trigger] contains_name(out@, n) == (contains_name(start, n)
                || exists|j: int| 0 <= j < i + 1 && transition_mentions(#[trigger] s[j], n)) by {
                if exists|j: int| 0 <= j < keys.len() && #[trigger] keys[j]@ == n {
                    assert(contains_name(keys@, n));
                }
                if contains_name(keys@, n) {
                    let j = choose|j: int| 0 <= j < keys@.len() && #[trigger] keys@[j]@ == n;
                    assert(keys[j]@ == n);
                }
                if transition_mentions(s[i as int], n) {
                    assert(exists|j: int| 0 <= j < i + 1 && transition_mentions(#[trigger] s[j], n));
                }
                if exists|j: int| 0 <= j < i + 1 && transition_mentions(#[trigger] s[j], n) {
                    let j = choose|j: int| 0 <= j < i + 1 && transition_mentions(#[trigger] s[j], n);
                    if j < i {
                        assert(exists|j: int| 0 <= j < i && transition_mentions(#[trigger] s[j], n));
                    }
                }
            }
        }
        i += 1;
    }
}

impl Operation {
    /// The names of every variable the operation's transitions mention, in
    /// all six of its transition lists.
    pub fn get_all_var_keys(&self) -> (r: Vec<String>)
        ensures
            forall|n: Seq<char>| #[trigger] contains_name(r@, n) == op_mentions(self@, n),
    {
        let mut out: Vec<String> = Vec::new();
        collect_transition_keys(&self.preconditions, &mut out);
        collect_transition_keys(&self.postconditions, &mut out);
        collect_transition_keys(&self.fail_transitions, &mut out);
        collect_transition_keys(&self.timeout_transitions, &mut out);
        collect_transition_keys(&self.bypass_transitions, &mut out);
        collect_transition_keys(&self.cancel_transitions, &mut out);
        proof {
            assert forall|n: Seq<char>| #[trigger] contains_name(out@, n) == op_mentions(self@, n) by {
                assert(!contains_name(Seq::<String>::empty(), n));
            }
        }
        out
    }
}

impl Clone for Operation {
    fn clone(&self) -> (r: Operation)
        ensures
            r@ == self@,
    {
        self.duplicate()
    }
}

} // verus!
