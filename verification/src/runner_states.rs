//! The lifecycle enums the runners exchange through the state.
//!
//! Each is written as a string and read back with `from_str` by another
//! runner.  Every variant reads back as itself from the string it is
//! written as; a string no arm recognises reads back as `UNKNOWN`.
use crate::text::str_eq;
use crate::value::{string_view, SPValue, ToSPValue};
use crate::operation::Operation;
use crate::predicate::Predicate;
use vstd::prelude::*;

verus! {
/// The progress of the current plan, as the plan runner reports it in `{sp_id}_plan_state`.
#[derive(Debug, Clone, Copy, PartialEq, Eq, Structural)]
pub enum PlanState {
    Initial,
    Executing,
    Failed,
    Completed,
    Cancelled,
    UNKNOWN,
}
/// The string `PlanState` is written as.
pub open spec fn plan_state_text(s: PlanState) -> Seq<char> {
    match s {
        PlanState::Initial => "initial"@,
        PlanState::Executing => "executing"@,
        PlanState::Failed => "failed"@,
        PlanState::Completed => "completed"@,
        PlanState::Cancelled => "cancelled"@,
        PlanState::UNKNOWN => "UNKNOWN"@,
    }
}
/// The variant `from_str` reads from a string.
pub open spec fn plan_state_of(x: Seq<char>) -> PlanState {
    if x == "initial"@ {
        PlanState::Initial
    } else if x == "executing"@ {
        PlanState::Executing
    } else if x == "failed"@ {
        PlanState::Failed
    } else if x == "completed"@ {
        PlanState::Completed
    } else if x == "cancelled"@ {
        PlanState::Cancelled
    } else {
        PlanState::UNKNOWN
    }
}
impl PlanState {
    /// Reads a state back from its string; anything unrecognised is `UNKNOWN`.
    pub fn from_str(x: &str) -> (r: PlanState)
        ensures
            r == plan_state_of(x@),
    {
        if str_eq(x, "initial") {
            PlanState::Initial
        } else if str_eq(x, "executing") {
            PlanState::Executing
        } else if str_eq(x, "failed") {
            PlanState::Failed
        } else if str_eq(x, "completed") {
            PlanState::Completed
        } else if str_eq(x, "cancelled") {
            PlanState::Cancelled
        } else {
            PlanState::UNKNOWN
        }
    }

    /// The string the state is written as.
    pub fn as_text(&self) -> (r: &'static str)
        ensures
            r@ == plan_state_text(*self),
    {
        match self {
            PlanState::Initial => "initial",
            PlanState::Executing => "executing",
            PlanState::Failed => "failed",
            PlanState::Completed => "completed",
            PlanState::Cancelled => "cancelled",
            PlanState::UNKNOWN => "UNKNOWN",
        }
    }

    /// The string the state is written as.
    pub fn to_string(&self) -> (r: String)
        ensures
            r@ == plan_state_text(*self),
    {
        String::from_str(self.as_text())
    }

    /// The state as the value written into the state.
    pub fn to_spvalue(self) -> (v: SPValue)
        ensures
            v@ == string_view(plan_state_text(self)),
    {
        self.as_text().to_spvalue()
    }
}

impl Default for PlanState {
    fn default() -> (r: PlanState)
        ensures
            r == PlanState::UNKNOWN,
    {
        PlanState::UNKNOWN
    }
}

/// The progress of a SOP, as reported in its state variable.
#[derive(Debug, Clone, Copy, PartialEq, Eq, Structural)]
pub enum SOPState {
    Initial,
    Executing,
    Fatal,
    Completed,
    Cancelled,
    UNKNOWN,
}
/// The string `SOPState` is written as.
pub open spec fn sop_state_text(s: SOPState) -> Seq<char> {
    match s {
        SOPState::Initial => "initial"@,
        SOPState::Executing => "executing"@,
        SOPState::Fatal => "fatal"@,
        SOPState::Completed => "completed"@,
        SOPState::Cancelled => "cancelled"@,
        SOPState::UNKNOWN => "UNKNOWN"@,
    }
}
/// The variant `from_str` reads from a string.
pub open spec fn sop_state_of(x: Seq<char>) -> SOPState {
    if x == "initial"@ {
        SOPState::Initial
    } else if x == "executing"@ {
        SOPState::Executing
    } else if x == "fatal"@ {
        SOPState::Fatal
    } else if x == "completed"@ {
        SOPState::Completed
    } else if x == "cancelled"@ {
        SOPState::Cancelled
    } else {
        SOPState::UNKNOWN
    }
}
impl SOPState {
    /// Reads a state back from its string; anything unrecognised is `UNKNOWN`.
    pub fn from_str(x: &str) -> (r: SOPState)
        ensures
            r == sop_state_of(x@),
    {
        if str_eq(x, "initial") {
            SOPState::Initial
        } else if str_eq(x, "executing") {
            SOPState::Executing
        } else if str_eq(x, "fatal") {
            SOPState::Fatal
        } else if str_eq(x, "completed") {
            SOPState::Completed
        } else if str_eq(x, "cancelled") {
            SOPState::Cancelled
        } else {
            SOPState::UNKNOWN
        }
    }

    /// The string the state is written as.
    pub fn as_text(&self) -> (r: &'static str)
        ensures
            r@ == sop_state_text(*self),
    {
        match self {
            SOPState::Initial => "initial",
            SOPState::Executing => "executing",
            SOPState::Fatal => "fatal",
            SOPState::Completed => "completed",
            SOPState::Cancelled => "cancelled",
            SOPState::UNKNOWN => "UNKNOWN",
        }
    }

    /// The string the state is written as.
    pub fn to_string(&self) -> (r: String)
        ensures
            r@ == sop_state_text(*self),
    {
        String::from_str(self.as_text())
    }

    /// The state as the value written into the state.
    pub fn to_spvalue(self) -> (v: SPValue)
        ensures
            v@ == string_view(sop_state_text(self)),
    {
        self.as_text().to_spvalue()
    }
}

impl Default for SOPState {
    fn default() -> (r: SOPState)
        ensures
            r == SOPState::UNKNOWN,
    {
        SOPState::UNKNOWN
    }
}

/// The outcome of the last planning request.
#[derive(Debug, Clone, Copy, PartialEq, Eq, Structural)]
pub enum PlannerState {
    Found,
    NotFound,
    Ready,
    UNKNOWN,
}
/// The string `PlannerState` is written as.
pub open spec fn planner_state_text(s: PlannerState) -> Seq<char> {
    match s {
        PlannerState::Found => "found"@,
        PlannerState::NotFound => "not_found"@,
        PlannerState::Ready => "ready"@,
        PlannerState::UNKNOWN => "UNKNOWN"@,
    }
}
/// The variant `from_str` reads from a string.
pub open spec fn planner_state_of(x: Seq<char>) -> PlannerState {
    if x == "found"@ {
        PlannerState::Found
    } else if x == "not_found"@ {
        PlannerState::NotFound
    } else if x == "ready"@ {
        PlannerState::Ready
    } else {
        PlannerState::UNKNOWN
    }
}
impl PlannerState {
    /// Reads a state back from its string; anything unrecognised is `UNKNOWN`.
    pub fn from_str(x: &str) -> (r: PlannerState)
        ensures
            r == planner_state_of(x@),
    {
        if str_eq(x, "found") {
            PlannerState::Found
        } else if str_eq(x, "not_found") {
            PlannerState::NotFound
        } else if str_eq(x, "ready") {
            PlannerState::Ready
        } else {
            PlannerState::UNKNOWN
        }
    }

    /// The string the state is written as.
    pub fn as_text(&self) -> (r: &'static str)
        ensures
            r@ == planner_state_text(*self),
    {
        match self {
            PlannerState::Found => "found",
            PlannerState::NotFound => "not_found",
            PlannerState::Ready => "ready",
            PlannerState::UNKNOWN => "UNKNOWN",
        }
    }

    /// The string the state is written as.
    pub fn to_string(&self) -> (r: String)
        ensures
            r@ == planner_state_text(*self),
    {
        String::from_str(self.as_text())
    }

    /// The state as the value written into the state.
    pub fn to_spvalue(self) -> (v: SPValue)
        ensures
            v@ == string_view(planner_state_text(self)),
    {
        self.as_text().to_spvalue()
    }
}

impl Default for PlannerState {
    fn default() -> (r: PlannerState)
        ensures
            r == PlannerState::UNKNOWN,
    {
        PlannerState::UNKNOWN
    }
}

/// The progress of a service request.
#[derive(Debug, Clone, Copy, PartialEq, Eq, Structural)]
pub enum ServiceRequestState {
    UNKNOWN,
    Initial,
    Succeeded,
    Failed,
}
/// The string `ServiceRequestState` is written as.
pub open spec fn service_request_state_text(s: ServiceRequestState) -> Seq<char> {
    match s {
        ServiceRequestState::UNKNOWN => "UNKNOWN"@,
        ServiceRequestState::Initial => "initial"@,
        ServiceRequestState::Succeeded => "succeeded"@,
        ServiceRequestState::Failed => "failed"@,
    }
}
/// The variant `from_str` reads from a string.
pub open spec fn service_request_state_of(x: Seq<char>) -> ServiceRequestState {
    if x == "initial"@ {
        ServiceRequestState::Initial
    } else if x == "succeeded"@ {
        ServiceRequestState::Succeeded
    } else if x == "failed"@ {
        ServiceRequestState::Failed
    } else {
        ServiceRequestState::UNKNOWN
    }
}
impl ServiceRequestState {
    /// Reads a state back from its string; anything unrecognised is `UNKNOWN`.
    pub fn from_str(x: &str) -> (r: ServiceRequestState)
        ensures
            r == service_request_state_of(x@),
    {
        if str_eq(x, "initial") {
            ServiceRequestState::Initial
        } else if str_eq(x, "succeeded") {
            ServiceRequestState::Succeeded
        } else if str_eq(x, "failed") {
            ServiceRequestState::Failed
        } else {
            ServiceRequestState::UNKNOWN
        }
    }

    /// The string the state is written as.
    pub fn as_text(&self) -> (r: &'static str)
        ensures
            r@ == service_request_state_text(*self),
    {
        match self {
            ServiceRequestState::UNKNOWN => "UNKNOWN",
            ServiceRequestState::Initial => "initial",
            ServiceRequestState::Succeeded => "succeeded",
            ServiceRequestState::Failed => "failed",
        }
    }

    /// The string the state is written as.
    pub fn to_string(&self) -> (r: String)
        ensures
            r@ == service_request_state_text(*self),
    {
        String::from_str(self.as_text())
    }
}

impl Default for ServiceRequestState {
    fn default() -> (r: ServiceRequestState)
        ensures
            r == ServiceRequestState::UNKNOWN,
    {
        ServiceRequestState::UNKNOWN
    }
}

/// The progress of an action request.
#[derive(Debug, Clone, Copy, PartialEq, Eq, Structural)]
pub enum ActionRequestState {
    UNKNOWN,
    Initial,
    Executing,
    Succeeded,
    Failed,
}
/// The string `ActionRequestState` is written as.
pub open spec fn action_request_state_text(s: ActionRequestState) -> Seq<char> {
    match s {
        ActionRequestState::UNKNOWN => "UNKNOWN"@,
        ActionRequestState::Initial => "initial"@,
        ActionRequestState::Executing => "executing"@,
        ActionRequestState::Succeeded => "succeeded"@,
        ActionRequestState::Failed => "failed"@,
    }
}
/// The variant `from_str` reads from a string.
pub open spec fn action_request_state_of(x: Seq<char>) -> ActionRequestState {
    if x == "initial"@ {
        ActionRequestState::Initial
    } else if x == "executing"@ {
        ActionRequestState::Executing
    } else if x == "succeeded"@ {
        ActionRequestState::Succeeded
    } else if x == "failed"@ {
        ActionRequestState::Failed
    } else {
        ActionRequestState::UNKNOWN
    }
}
impl ActionRequestState {
    /// Reads a state back from its string; anything unrecognised is `UNKNOWN`.
    pub fn from_str(x: &str) -> (r: ActionRequestState)
        ensures
            r == action_request_state_of(x@),
    {
        if str_eq(x, "initial") {
            ActionRequestState::Initial
        } else if str_eq(x, "executing") {
            ActionRequestState::Executing
        } else if str_eq(x, "succeeded") {
            ActionRequestState::Succeeded
        } else if str_eq(x, "failed") {
            ActionRequestState::Failed
        } else {
            ActionRequestState::UNKNOWN
        }
    }

    /// The string the state is written as.
    pub fn as_text(&self) -> (r: &'static str)
        ensures
            r@ == action_request_state_text(*self),
    {
        match self {
            ActionRequestState::UNKNOWN => "UNKNOWN",
            ActionRequestState::Initial => "initial",
            ActionRequestState::Executing => "executing",
            ActionRequestState::Succeeded => "succeeded",
            ActionRequestState::Failed => "failed",
        }
    }

    /// The string the state is written as.
    pub fn to_string(&self) -> (r: String)
        ensures
            r@ == action_request_state_text(*self),
    {
        String::from_str(self.as_text())
    }
}

impl Default for ActionRequestState {
    fn default() -> (r: ActionRequestState)
        ensures
            r == ActionRequestState::UNKNOWN,
    {
        ActionRequestState::UNKNOWN
    }
}

/// The run state of a runner.
#[derive(Debug, Clone, Copy, PartialEq, Eq, Structural)]
pub enum RunnerState {
    Idle,
    Running,
    Stopped,
    Paused,
    UNKNOWN,
}
/// The string `RunnerState` is written as.
pub open spec fn runner_state_text(s: RunnerState) -> Seq<char> {
    match s {
        RunnerState::Idle => "idle"@,
        RunnerState::Running => "running"@,
        RunnerState::Stopped => "stopped"@,
        RunnerState::Paused => "paused"@,
        RunnerState::UNKNOWN => "UNKNOWN"@,
    }
}
/// The variant `from_str` reads from a string.
pub open spec fn runner_state_of(x: Seq<char>) -> RunnerState {
    if x == "idle"@ {
        RunnerState::Idle
    } else if x == "running"@ {
        RunnerState::Running
    } else if x == "stopped"@ {
        RunnerState::Stopped
    } else if x == "paused"@ {
        RunnerState::Paused
    } else {
        RunnerState::UNKNOWN
    }
}
impl RunnerState {
    /// Reads a state back from its string; anything unrecognised is `UNKNOWN`.
    pub fn from_str(x: &str) -> (r: RunnerState)
        ensures
            r == runner_state_of(x@),
    {
        if str_eq(x, "idle") {
            RunnerState::Idle
        } else if str_eq(x, "running") {
            RunnerState::Running
        } else if str_eq(x, "stopped") {
            RunnerState::Stopped
        } else if str_eq(x, "paused") {
            RunnerState::Paused
        } else {
            RunnerState::UNKNOWN
        }
    }

    /// The string the state is written as.
    pub fn as_text(&self) -> (r: &'static str)
        ensures
            r@ == runner_state_text(*self),
    {
        match self {
            RunnerState::Idle => "idle",
            RunnerState::Running => "running",
            RunnerState::Stopped => "stopped",
            RunnerState::Paused => "paused",
            RunnerState::UNKNOWN => "UNKNOWN",
        }
    }

    /// The string the state is written as.
    pub fn to_string(&self) -> (r: String)
        ensures
            r@ == runner_state_text(*self),
    {
        String::from_str(self.as_text())
    }

    /// The state as the value written into the state.
    pub fn to_spvalue(self) -> (v: SPValue)
        ensures
            v@ == string_view(runner_state_text(self)),
    {
        self.as_text().to_spvalue()
    }
}

impl Default for RunnerState {
    fn default() -> (r: RunnerState)
        ensures
            r == RunnerState::UNKNOWN,
    {
        RunnerState::UNKNOWN
    }
}

/// A plan: the operations that reach a goal, and where their execution stands.
#[derive(Debug)]
pub struct Plan {
    pub name: String,
    pub goal: Predicate,
    pub plan: Vec<Operation>,
    pub time_step: u32,
    pub state: PlanState,
    pub time: std::time::Duration,
}

/// Every PlanState reads back as itself from the string it is written as.
pub proof fn lemma_plan_state_round_trip(s: PlanState)
    ensures
        plan_state_of(plan_state_text(s)) == s,
{
    reveal_strlit("UNKNOWN");
    reveal_strlit("cancelled");
    reveal_strlit("completed");
    reveal_strlit("executing");
    reveal_strlit("failed");
    reveal_strlit("initial");
    assert("UNKNOWN"@.len() == 7);
    assert("cancelled"@.len() == 9);
    assert("completed"@.len() == 9);
    assert("executing"@.len() == 9);
    assert("failed"@.len() == 6);
    assert("initial"@.len() == 7);
    assert("UNKNOWN"@[0] != "initial"@[0]);
    assert("cancelled"@[1] != "completed"@[1]);
    assert("cancelled"@[0] != "executing"@[0]);
    assert("completed"@[0] != "executing"@[0]);
}

/// Every SOPState reads back as itself from the string it is written as.
pub proof fn lemma_sop_state_round_trip(s: SOPState)
    ensures
        sop_state_of(sop_state_text(s)) == s,
{
    reveal_strlit("UNKNOWN");
    reveal_strlit("cancelled");
    reveal_strlit("completed");
    reveal_strlit("executing");
    reveal_strlit("fatal");
    reveal_strlit("initial");
    assert("UNKNOWN"@.len() == 7);
    assert("cancelled"@.len() == 9);
    assert("completed"@.len() == 9);
    assert("executing"@.len() == 9);
    assert("fatal"@.len() == 5);
    assert("initial"@.len() == 7);
    assert("UNKNOWN"@[0] != "initial"@[0]);
    assert("cancelled"@[1] != "completed"@[1]);
    assert("cancelled"@[0] != "executing"@[0]);
    assert("completed"@[0] != "executing"@[0]);
}

/// Every PlannerState that `from_str` has an arm for, and `UNKNOWN`, reads back
/// as itself from the string it is written as.
pub proof fn lemma_planner_state_round_trip(s: PlannerState)
    requires
        s == PlannerState::Found || s == PlannerState::NotFound || s == PlannerState::Ready || s == PlannerState::UNKNOWN,
    ensures
        planner_state_of(planner_state_text(s)) == s,
{
    reveal_strlit("UNKNOWN");
    reveal_strlit("found");
    reveal_strlit("not_found");
    reveal_strlit("ready");
    assert("UNKNOWN"@.len() == 7);
    assert("found"@.len() == 5);
    assert("not_found"@.len() == 9);
    assert("ready"@.len() == 5);
    assert("found"@[0] != "ready"@[0]);
}

/// Every ServiceRequestState that `from_str` has an arm for, and `UNKNOWN`, reads back
/// as itself from the string it is written as.
pub proof fn lemma_service_request_state_round_trip(s: ServiceRequestState)
    requires
        s == ServiceRequestState::Initial || s == ServiceRequestState::Succeeded || s == ServiceRequestState::Failed || s == ServiceRequestState::UNKNOWN,
    ensures
        service_request_state_of(service_request_state_text(s)) == s,
{
    reveal_strlit("UNKNOWN");
    reveal_strlit("failed");
    reveal_strlit("initial");
    reveal_strlit("succeeded");
    assert("UNKNOWN"@.len() == 7);
    assert("failed"@.len() == 6);
    assert("initial"@.len() == 7);
    assert("succeeded"@.len() == 9);
    assert("UNKNOWN"@[0] != "initial"@[0]);
}

/// Every ActionRequestState that `from_str` has an arm for, and `UNKNOWN`, reads back
/// as itself from the string it is written as.
pub proof fn lemma_action_request_state_round_trip(s: ActionRequestState)
    requires
        s == ActionRequestState::Initial || s == ActionRequestState::Executing || s == ActionRequestState::Succeeded || s == ActionRequestState::Failed || s == ActionRequestState::UNKNOWN,
    ensures
        action_request_state_of(action_request_state_text(s)) == s,
{
    reveal_strlit("UNKNOWN");
    reveal_strlit("executing");
    reveal_strlit("failed");
    reveal_strlit("initial");
    reveal_strlit("succeeded");
    assert("UNKNOWN"@.len() == 7);
    assert("executing"@.len() == 9);
    assert("failed"@.len() == 6);
    assert("initial"@.len() == 7);
    assert("succeeded"@.len() == 9);
    assert("UNKNOWN"@[0] != "initial"@[0]);
    assert("executing"@[0] != "succeeded"@[0]);
}

/// Every RunnerState that `from_str` has an arm for, and `UNKNOWN`, reads back
/// as itself from the string it is written as.
pub proof fn lemma_runner_state_round_trip(s: RunnerState)
    requires
        s == RunnerState::Idle || s == RunnerState::Running || s == RunnerState::Stopped || s == RunnerState::Paused || s == RunnerState::UNKNOWN,
    ensures
        runner_state_of(runner_state_text(s)) == s,
{
    reveal_strlit("UNKNOWN");
    reveal_strlit("idle");
    reveal_strlit("paused");
    reveal_strlit("running");
    reveal_strlit("stopped");
    assert("UNKNOWN"@.len() == 7);
    assert("idle"@.len() == 4);
    assert("paused"@.len() == 6);
    assert("running"@.len() == 7);
    assert("stopped"@.len() == 7);
    assert("UNKNOWN"@[0] != "running"@[0]);
    assert("UNKNOWN"@[0] != "stopped"@[0]);
    assert("running"@[0] != "stopped"@[0]);
}

} // verus!
