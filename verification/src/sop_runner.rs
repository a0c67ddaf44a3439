//! Walking a SOP tree: its state, whether it can start, and one tick of it.
//!
//! A leaf is as far as its operation: initial, completed once the operation
//! has terminated after completing, fatal or cancelled with the operation,
//! and executing otherwise.  An inner node is fatal if a child is, else
//! cancelled if a child is, else completed (a sequence or parallel node when
//! every child is, an alternative when one is), else initial when every
//! child is, and executing otherwise.
use crate::ids::{is_id, new_id};
use crate::operation::{op_can_start, op_state, Operation, OperationState, OperationView, TerminationReason};
use crate::process::{process_operation, tick_covered, tick_decision, tick_state, OperationProcessingType};
use crate::runner_states::SOPState;
use crate::sop::{lemma_sop_views_from, sop_operations, sop_views_from, sops_operations, SOPView, SOP};
use crate::state::State;
use crate::text::{concat, concat3};
use crate::transition::{transitions_covered, StateMap};
use vstd::prelude::*;

verus! {

/// The state of a leaf: how far its operation is.
pub open spec fn leaf_state(o: OperationView, m: StateMap) -> SOPState {
    match op_state(o, m) {
        OperationState::Initial => SOPState::Initial,
        OperationState::Terminated(TerminationReason::Completed) => SOPState::Completed,
        OperationState::Fatal | OperationState::Terminated(TerminationReason::Fatal) => SOPState::Fatal,
        OperationState::Cancelled | OperationState::Terminated(TerminationReason::Cancelled) => SOPState::Cancelled,
        _ => SOPState::Executing,
    }
}

/// What the children `s[k..]` are: (all completed, one completed, one
/// fatal, one cancelled, all initial).
pub open spec fn children_summary(s: Seq<SOPView>, m: StateMap, k: int) -> (bool, bool, bool, bool, bool)
    decreases s, s.len() - k,
{
    if k < 0 || k >= s.len() {
        (true, false, false, false, true)
    } else {
        let c = sop_state(s[k], m);
        let r = children_summary(s, m, k + 1);
        (
            c == SOPState::Completed && r.0,
            c == SOPState::Completed || r.1,
            c == SOPState::Fatal || r.2,
            c == SOPState::Cancelled || r.3,
            c == SOPState::Initial && r.4,
        )
    }
}

/// The state of a SOP tree in `m`.
pub open spec fn sop_state(s: SOPView, m: StateMap) -> SOPState
    decreases s, 0int,
{
    match s {
        SOPView::Operation(o) => leaf_state(o, m),
        SOPView::Sequence(v) | SOPView::Parallel(v) => {
            let (all_completed, _, any_fatal, any_cancelled, all_initial) = children_summary(v, m, 0);
            if any_fatal {
                SOPState::Fatal
            } else if any_cancelled {
                SOPState::Cancelled
            } else if all_completed {
                SOPState::Completed
            } else if all_initial {
                SOPState::Initial
            } else {
                SOPState::Executing
            }
        },
        SOPView::Alternative(v) => {
            let (_, any_completed, any_fatal, any_cancelled, all_initial) = children_summary(v, m, 0);
            if any_fatal {
                SOPState::Fatal
            } else if any_cancelled {
                SOPState::Cancelled
            } else if any_completed {
                SOPState::Completed
            } else if all_initial {
                SOPState::Initial
            } else {
                SOPState::Executing
            }
        },
    }
}

/// The summary of the children `v[k..]`.
fn summarize_children(v: &Vec<SOP>, state: &State, k: usize, log_target: &str) -> (r: (bool, bool, bool, bool, bool))
    requires
        k <= v.len(),
    ensures
        r == children_summary(sop_views_from(*v, 0), state@, k as int),
    decreases *v, v.len() - k,
{
    proof {
        lemma_sop_views_from(*v, 0);
    }
    if k >= v.len() {
        (true, false, false, false, true)
    } else {
        proof {
            broadcast use vstd::std_specs::vec::axiom_vec_index_decreases;

            assert(decreases_to!(*v => v[k as int]));
            assert(sop_views_from(*v, 0)[k as int - 0] == v[k as int]@);
        }
        let c = v[k].get_state(state, log_target);
        let r = summarize_children(v, state, k + 1, log_target);
        (
            c == SOPState::Completed && r.0,
            c == SOPState::Completed || r.1,
            c == SOPState::Fatal || r.2,
            c == SOPState::Cancelled || r.3,
            c == SOPState::Initial && r.4,
        )
    }
}

impl SOP {
    /// The state of the tree in `state`.
    pub fn get_state(&self, state: &State, log_target: &str) -> (r: SOPState)
        ensures
            r == sop_state(self@, state@),
        decreases *self, 1int,
    {
        match self {
            SOP::Operation(op) => match op.state_in(state, log_target) {
                OperationState::Initial => SOPState::Initial,
                OperationState::Terminated(TerminationReason::Completed) => SOPState::Completed,
                OperationState::Fatal | OperationState::Terminated(TerminationReason::Fatal) => SOPState::Fatal,
                OperationState::Cancelled | OperationState::Terminated(TerminationReason::Cancelled) => SOPState::Cancelled,
                _ => SOPState::Executing,
            },
            SOP::Sequence(v) | SOP::Parallel(v) => {
                proof {
                    if let SOP::Sequence(_) = self {
                        assert(decreases_to!(*self => self->Sequence_0));
                    } else {
                        assert(decreases_to!(*self => self->Parallel_0));
                    }
                }
                let (all_completed, _, any_fatal, any_cancelled, all_initial) = summarize_children(v, state, 0, log_target);
                if any_fatal {
                    SOPState::Fatal
                } else if any_cancelled {
                    SOPState::Cancelled
                } else if all_completed {
                    SOPState::Completed
                } else if all_initial {
                    SOPState::Initial
                } else {
                    SOPState::Executing
                }
            },
            SOP::Alternative(v) => {
                proof {
                    assert(decreases_to!(*self => self->Alternative_0));
                }
                let (_, any_completed, any_fatal, any_cancelled, all_initial) = summarize_children(v, state, 0, log_target);
                if any_fatal {
                    SOPState::Fatal
                } else if any_cancelled {
                    SOPState::Cancelled
                } else if any_completed {
                    SOPState::Completed
                } else if all_initial {
                    SOPState::Initial
                } else {
                    SOPState::Executing
                }
            },
        }
    }
}

// ----------------------------------------------------------------------------
// Whether a tree can start.
/// Whether `m` holds what the preconditions of every operation of the tree read.
pub open spec fn sop_preconditions_covered(s: SOPView, m: StateMap) -> bool {
    forall|i: int| 0 <= i < sop_operations(s).len() ==> transitions_covered(#[trigger] sop_operations(s)[i].preconditions, m)
}

/// Whether each of the children `s[k..]` can start.
pub open spec fn all_can_start(s: Seq<SOPView>, m: StateMap, k: int) -> bool
    decreases s, s.len() - k,
{
    if k < 0 || k >= s.len() {
        true
    } else {
        sop_can_start(s[k], m) && all_can_start(s, m, k + 1)
    }
}

/// Whether one of the children `s[k..]` can start.
pub open spec fn any_can_start(s: Seq<SOPView>, m: StateMap, k: int) -> bool
    decreases s, s.len() - k,
{
    if k < 0 || k >= s.len() {
        false
    } else {
        sop_can_start(s[k], m) || any_can_start(s, m, k + 1)
    }
}

/// Whether the tree can start: a leaf whose operation is initial and may
/// start; a sequence whose first child can; a parallel node all of whose
/// children can; an alternative one of whose children can.
pub open spec fn sop_can_start(s: SOPView, m: StateMap) -> bool
    decreases s, 0int,
{
    match s {
        SOPView::Operation(o) => leaf_state(o, m) == SOPState::Initial && op_can_start(o, m),
        SOPView::Sequence(v) => v.len() > 0 && sop_can_start(v[0], m),
        SOPView::Parallel(v) => all_can_start(v, m, 0),
        SOPView::Alternative(v) => any_can_start(v, m, 0),
    }
}

/// The operations of the children `v[j..]` end the operations of `v[k..]`.
proof fn lemma_operations_suffix(v: Seq<SOPView>, k: int, j: int)
    requires
        0 <= k <= j <= v.len(),
    ensures
        sops_operations(v, j).len() <= sops_operations(v, k).len(),
        forall|x: int| 0 <= x < sops_operations(v, j).len() ==> #[trigger] sops_operations(v, j)[x]
            == sops_operations(v, k)[sops_operations(v, k).len() - sops_operations(v, j).len() + x],
    decreases j - k,
{
    if k < j {
        lemma_operations_suffix(v, k + 1, j);
        let a = sop_operations(v[k]);
        assert(sops_operations(v, k) == a + sops_operations(v, k + 1));
    }
}

/// What covers a tree covers each of its children.
proof fn lemma_child_covered(s: SOPView, v: Seq<SOPView>, j: int, m: StateMap)
    requires
        s == SOPView::Sequence(v) || s == SOPView::Parallel(v) || s == SOPView::Alternative(v),
        0 <= j < v.len(),
    ensures
        sop_preconditions_covered(s, m) ==> sop_preconditions_covered(v[j], m),
        sop_ticks_covered(s, m) ==> sop_ticks_covered(v[j], m),
{
    lemma_operations_suffix(v, 0, j);
    assert(sop_operations(s) == sops_operations(v, 0));
    let whole = sops_operations(v, 0);
    let tail = sops_operations(v, j);
    let d = whole.len() - tail.len();
    assert(tail == sop_operations(v[j]) + sops_operations(v, j + 1));
    if sop_preconditions_covered(s, m) {
        assert forall|i: int| 0 <= i < sop_operations(v[j]).len() implies transitions_covered(#[trigger] sop_operations(v[j])[i].preconditions, m) by {
            assert(tail[i] == sop_operations(v[j])[i]);
            assert(whole[d + i] == tail[i]);
            assert(transitions_covered(sop_operations(s)[d + i].preconditions, m));
        }
    }
    if sop_ticks_covered(s, m) {
        assert forall|i: int| 0 <= i < sop_operations(v[j]).len() implies tick_covered(#[trigger] sop_operations(v[j])[i], m) by {
            assert(tail[i] == sop_operations(v[j])[i]);
            assert(whole[d + i] == tail[i]);
            assert(tick_covered(sop_operations(s)[d + i], m));
        }
    }
}

/// Whether each of the children `v[k..]` can start.
fn all_children_can_start(sp_id: &str, v: &Vec<SOP>, k: usize, state: &State, log_target: &str) -> (r: bool)
    requires
        k <= v.len(),
        forall|j: int| 0 <= j < v.len() ==> sop_preconditions_covered(#[trigger] v[j]@, state@),
    ensures
        r == all_can_start(sop_views_from(*v, 0), state@, k as int),
    decreases *v, v.len() - k,
{
    proof {
        lemma_sop_views_from(*v, 0);
    }
    if k >= v.len() {
        true
    } else {
        proof {
            broadcast use vstd::std_specs::vec::axiom_vec_index_decreases;

            assert(decreases_to!(*v => v[k as int]));
            assert(sop_views_from(*v, 0)[k as int - 0] == v[k as int]@);
        }
        can_sop_start(sp_id, &v[k], state, log_target) && all_children_can_start(sp_id, v, k + 1, state, log_target)
    }
}

/// Whether one of the children `v[k..]` can start.
fn any_child_can_start(sp_id: &str, v: &Vec<SOP>, k: usize, state: &State, log_target: &str) -> (r: bool)
    requires
        k <= v.len(),
        forall|j: int| 0 <= j < v.len() ==> sop_preconditions_covered(#[trigger] v[j]@, state@),
    ensures
        r == any_can_start(sop_views_from(*v, 0), state@, k as int),
    decreases *v, v.len() - k,
{
    proof {
        lemma_sop_views_from(*v, 0);
    }
    if k >= v.len() {
        false
    } else {
        proof {
            broadcast use vstd::std_specs::vec::axiom_vec_index_decreases;

            assert(decreases_to!(*v => v[k as int]));
            assert(sop_views_from(*v, 0)[k as int - 0] == v[k as int]@);
        }
        can_sop_start(sp_id, &v[k], state, log_target) || any_child_can_start(sp_id, v, k + 1, state, log_target)
    }
}

/// Every child of a covered node is covered.
proof fn lemma_children_covered(s: SOPView, v: Vec<SOP>, m: StateMap)
    requires
        s == SOPView::Sequence(sop_views_from(v, 0)) || s == SOPView::Parallel(sop_views_from(v, 0))
            || s == SOPView::Alternative(sop_views_from(v, 0)),
    ensures
        sop_preconditions_covered(s, m) ==> forall|j: int| 0 <= j < v.len() ==> sop_preconditions_covered(#[trigger] v[j]@, m),
        sop_ticks_covered(s, m) ==> forall|j: int| 0 <= j < v.len() ==> sop_ticks_covered(#[trigger] v[j]@, m),
{
    lemma_sop_views_from(v, 0);
    assert forall|j: int| 0 <= j < v.len() implies (sop_preconditions_covered(s, m) ==> sop_preconditions_covered(#[trigger] v[j]@, m))
        && (sop_ticks_covered(s, m) ==> sop_ticks_covered(v[j]@, m)) by {
        assert(sop_views_from(v, 0)[j - 0] == v[j]@);
        lemma_child_covered(s, sop_views_from(v, 0), j, m);
    }
}

/// Whether the tree can start in `state`.
pub fn can_sop_start(sp_id: &str, sop: &SOP, state: &State, log_target: &str) -> (r: bool)
    requires
        sop_preconditions_covered(sop@, state@),
    ensures
        r == sop_can_start(sop@, state@),
    decreases *sop, 2int,
{
    match sop {
        SOP::Operation(operation) => {
            proof {
                assert(sop_operations(sop@)[0] == operation@);
            }
            let current_state = sop.get_state(state, log_target);
            current_state == SOPState::Initial && operation.eval(state, log_target)
        },
        SOP::Sequence(v) => {
            proof {
                assert(decreases_to!(*sop => sop->Sequence_0));
                lemma_children_covered(sop@, *v, state@);
                lemma_sop_views_from(*v, 0);
            }
            if v.len() == 0 {
                false
            } else {
                proof {
                    broadcast use vstd::std_specs::vec::axiom_vec_index_decreases;

                    assert(decreases_to!(*v => v[0]));
                    assert(sop_views_from(*v, 0)[0 - 0] == v[0]@);
                }
                can_sop_start(sp_id, &v[0], state, log_target)
            }
        },
        SOP::Parallel(v) => {
            proof {
                assert(decreases_to!(*sop => sop->Parallel_0));
                lemma_children_covered(sop@, *v, state@);
            }
            all_children_can_start(sp_id, v, 0, state, log_target)
        },
        SOP::Alternative(v) => {
            proof {
                assert(decreases_to!(*sop => sop->Alternative_0));
                lemma_children_covered(sop@, *v, state@);
            }
            any_child_can_start(sp_id, v, 0, state, log_target)
        },
    }
}

// ----------------------------------------------------------------------------
// One tick of a tree.
/// Whether `m` holds what a tick of every operation of the tree reads and writes.
pub open spec fn sop_ticks_covered(s: SOPView, m: StateMap) -> bool {
    forall|i: int| 0 <= i < sop_operations(s).len() ==> tick_covered(#[trigger] sop_operations(s)[i], m)
}

/// The first of the children `s[k..]` that has not completed, if any.
pub open spec fn first_unfinished(s: Seq<SOPView>, m: StateMap, k: int) -> Option<int>
    decreases s.len() - k,
{
    if k < 0 || k >= s.len() {
        None
    } else if sop_state(s[k], m) != SOPState::Completed {
        Some(k)
    } else {
        first_unfinished(s, m, k + 1)
    }
}

/// The first of the children `s[k..]` that is under way: neither initial nor completed.
pub open spec fn first_active(s: Seq<SOPView>, m: StateMap, k: int) -> Option<int>
    decreases s.len() - k,
{
    if k < 0 || k >= s.len() {
        None
    } else if sop_state(s[k], m) != SOPState::Initial && sop_state(s[k], m) != SOPState::Completed {
        Some(k)
    } else {
        first_active(s, m, k + 1)
    }
}

/// The first of the children `s[k..]` that can start, if any.
pub open spec fn first_startable(s: Seq<SOPView>, m: StateMap, k: int) -> Option<int>
    decreases s.len() - k,
{
    if k < 0 || k >= s.len() {
        None
    } else if sop_can_start(s[k], m) {
        Some(k)
    } else {
        first_startable(s, m, k + 1)
    }
}

/// The state after ticking the children `s[k..]` one after the other.
pub open spec fn ticks_in_turn(sp: Seq<char>, s: Seq<SOPView>, m: StateMap, tick: i64, k: int) -> StateMap
    decreases s, s.len() - k,
{
    if k < 0 || k >= s.len() {
        m
    } else {
        ticks_in_turn(sp, s, sop_tick(sp, s[k], m, tick), tick, k + 1)
    }
}

/// The state after ticking child `i` of `s`, if there is one.
pub open spec fn tick_child(sp: Seq<char>, s: Seq<SOPView>, i: Option<int>, m: StateMap, tick: i64) -> StateMap
    decreases s, 0int,
{
    match i {
        Some(j) => if 0 <= j < s.len() {
            sop_tick(sp, s[j], m, tick)
        } else {
            m
        },
        None => m,
    }
}

/// One tick of a tree: a leaf's operation advances; a sequence ticks its
/// first unfinished child; a parallel node ticks each child in turn; an
/// alternative ticks the path under way, or else the first that can start.
pub open spec fn sop_tick(sp: Seq<char>, s: SOPView, m: StateMap, tick: i64) -> StateMap
    decreases s, 1int,
{
    match s {
        SOPView::Operation(o) => tick_state(
            o,
            tick_decision(sp, o, m, OperationProcessingType::SOP, 0, Seq::empty(), tick),
        ),
        SOPView::Sequence(v) => tick_child(sp, v, first_unfinished(v, m, 0), m, tick),
        SOPView::Parallel(v) => ticks_in_turn(sp, v, m, tick, 0),
        SOPView::Alternative(v) => match first_active(v, m, 0) {
            Some(j) => tick_child(sp, v, Some(j), m, tick),
            None => tick_child(sp, v, first_startable(v, m, 0), m, tick),
        },
    }
}

proof fn lemma_first_unfinished(s: Seq<SOPView>, m: StateMap, k: int)
    requires
        0 <= k <= s.len(),
    ensures
        match first_unfinished(s, m, k) {
            Some(i) => k <= i < s.len(),
            None => true,
        },
    decreases s.len() - k,
{
    if k < s.len() {
        lemma_first_unfinished(s, m, k + 1);
    }
}

proof fn lemma_first_active(s: Seq<SOPView>, m: StateMap, k: int)
    requires
        0 <= k <= s.len(),
    ensures
        match first_active(s, m, k) {
            Some(i) => k <= i < s.len(),
            None => true,
        },
    decreases s.len() - k,
{
    if k < s.len() {
        lemma_first_active(s, m, k + 1);
    }
}

proof fn lemma_first_startable(s: Seq<SOPView>, m: StateMap, k: int)
    requires
        0 <= k <= s.len(),
    ensures
        match first_startable(s, m, k) {
            Some(i) => k <= i < s.len(),
            None => true,
        },
    decreases s.len() - k,
{
    if k < s.len() {
        lemma_first_startable(s, m, k + 1);
    }
}

/// Coverage by names holds in any state with the same names.
proof fn lemma_ticks_covered_same_domain(s: SOPView, m1: StateMap, m2: StateMap)
    requires
        m1.dom() == m2.dom(),
        sop_ticks_covered(s, m1),
    ensures
        sop_ticks_covered(s, m2),
        sop_preconditions_covered(s, m2),
{
    crate::transition::lemma_covered_same_domain(m1, m2);
    assert forall|i: int| 0 <= i < sop_operations(s).len() implies tick_covered(#[trigger] sop_operations(s)[i], m2) by {
        let o = sop_operations(s)[i];
        assert(tick_covered(o, m1));
        assert(m1.dom().contains(o.name));
    }
}

/// The index of the first of the children `v[k..]` that has not completed.
fn find_unfinished(v: &Vec<SOP>, state: &State, log_target: &str) -> (r: Option<usize>)
    ensures
        match r {
            Some(i) => i < v.len() && first_unfinished(sop_views_from(*v, 0), state@, 0) == Some(i as int),
            None => first_unfinished(sop_views_from(*v, 0), state@, 0) is None,
        },
{
    proof {
        lemma_sop_views_from(*v, 0);
    }
    let ghost s = sop_views_from(*v, 0);
    assert forall|j: int| 0 <= j < v.len() implies #[trigger] s[j] == v[j]@ by {
        assert(s[j - 0] == v[j]@);
    }
    let mut i: usize = 0;
    while i < v.len()
        invariant
            i <= v.len(),
            s == sop_views_from(*v, 0),
            s.len() == v.len(),
            forall|j: int| 0 <= j < v.len() ==> #[trigger] s[j] == v[j]@,
            first_unfinished(s, state@, 0) == first_unfinished(s, state@, i as int),
        decreases v.len() - i,
    {
        assert(s[i as int] == v[i as int]@);
        if v[i].get_state(state, log_target) != SOPState::Completed {
            return Some(i);
        }
        i += 1;
    }
    None
}

/// The index of the first child under way.
fn find_active(v: &Vec<SOP>, state: &State, log_target: &str) -> (r: Option<usize>)
    ensures
        match r {
            Some(i) => i < v.len() && first_active(sop_views_from(*v, 0), state@, 0) == Some(i as int),
            None => first_active(sop_views_from(*v, 0), state@, 0) is None,
        },
{
    proof {
        lemma_sop_views_from(*v, 0);
    }
    let ghost s = sop_views_from(*v, 0);
    assert forall|j: int| 0 <= j < v.len() implies #[trigger] s[j] == v[j]@ by {
        assert(s[j - 0] == v[j]@);
    }
    let mut i: usize = 0;
    while i < v.len()
        invariant
            i <= v.len(),
            s == sop_views_from(*v, 0),
            s.len() == v.len(),
            forall|j: int| 0 <= j < v.len() ==> #[trigger] s[j] == v[j]@,
            first_active(s, state@, 0) == first_active(s, state@, i as int),
        decreases v.len() - i,
    {
        assert(s[i as int] == v[i as int]@);
        let c = v[i].get_state(state, log_target);
        if c != SOPState::Initial && c != SOPState::Completed {
            return Some(i);
        }
        i += 1;
    }
    None
}

/// The index of the first child that can start.
fn find_startable(sp_id: &str, v: &Vec<SOP>, state: &State, log_target: &str) -> (r: Option<usize>)
    requires
        forall|j: int| 0 <= j < v.len() ==> sop_preconditions_covered(#[trigger] v[j]@, state@),
    ensures
        match r {
            Some(i) => i < v.len() && first_startable(sop_views_from(*v, 0), state@, 0) == Some(i as int),
            None => first_startable(sop_views_from(*v, 0), state@, 0) is None,
        },
{
    proof {
        lemma_sop_views_from(*v, 0);
    }
    let ghost s = sop_views_from(*v, 0);
    assert forall|j: int| 0 <= j < v.len() implies #[trigger] s[j] == v[j]@ by {
        assert(s[j - 0] == v[j]@);
    }
    let mut i: usize = 0;
    while i < v.len()
        invariant
            i <= v.len(),
            s == sop_views_from(*v, 0),
            s.len() == v.len(),
            forall|j: int| 0 <= j < v.len() ==> #[trigger] s[j] == v[j]@,
            forall|j: int| 0 <= j < v.len() ==> sop_preconditions_covered(#[trigger] v[j]@, state@),
            first_startable(s, state@, 0) == first_startable(s, state@, i as int),
        decreases v.len() - i,
    {
        assert(s[i as int] == v[i as int]@);
        if can_sop_start(sp_id, &v[i], state, log_target) {
            return Some(i);
        }
        i += 1;
    }
    None
}

/// Ticks the children `v[k..]` one after the other.
fn tick_children_in_turn(sp_id: &str, state: State, v: &Vec<SOP>, k: usize, tick_elapsed_ms: i64, log_target: &str) -> (r: State)
    requires
        k <= v.len(),
        forall|j: int| 0 <= j < v.len() ==> sop_ticks_covered(#[trigger] v[j]@, state@),
    ensures
        r@ == ticks_in_turn(sp_id@, sop_views_from(*v, 0), state@, tick_elapsed_ms, k as int),
        r@.dom() == state@.dom(),
    decreases *v, v.len() - k,
{
    proof {
        lemma_sop_views_from(*v, 0);
    }
    if k >= v.len() {
        state
    } else {
        proof {
            broadcast use vstd::std_specs::vec::axiom_vec_index_decreases;

            assert(decreases_to!(*v => v[k as int]));
            assert(sop_views_from(*v, 0)[k as int - 0] == v[k as int]@);
        }
        let ghost before = state@;
        let next = process_sop_node_tick(sp_id, state, &v[k], tick_elapsed_ms, log_target);
        proof {
            assert forall|j: int| 0 <= j < v.len() implies sop_ticks_covered(#[trigger] v[j]@, next@) by {
                lemma_ticks_covered_same_domain(v[j]@, before, next@);
            }
        }
        tick_children_in_turn(sp_id, next, v, k + 1, tick_elapsed_ms, log_target)
    }
}

/// Advances the tree by one tick: a leaf's operation goes through the
/// operation state machine; a sequence ticks its first unfinished child; a
/// parallel node ticks each child in turn, each seeing what the ones before
/// it did; an alternative ticks the path under way, or else the first path
/// that can start.
pub fn process_sop_node_tick(sp_id: &str, state: State, sop: &SOP, tick_elapsed_ms: i64, log_target: &str) -> (r: State)
    requires
        sop_ticks_covered(sop@, state@),
    ensures
        r@ == sop_tick(sp_id@, sop@, state@, tick_elapsed_ms),
        r@.dom() == state@.dom(),
    decreases *sop, 3int,
{
    let ghost m = state@;
    proof {
        assert forall|i: int| 0 <= i < sop_operations(sop@).len() implies transitions_covered(#[trigger] sop_operations(sop@)[i].preconditions, m) by {
            assert(tick_covered(sop_operations(sop@)[i], m));
        }
    }
    match sop {
        SOP::Operation(operation) => {
            proof {
                assert(sop_operations(sop@)[0] == operation@);
            }
            let mut step: i64 = 0;
            let mut plan_state = String::new();
            process_operation(
                sp_id,
                state,
                operation,
                OperationProcessingType::SOP,
                &mut step,
                &mut plan_state,
                tick_elapsed_ms,
                log_target,
            )
        },
        SOP::Sequence(v) => {
            proof {
                assert(decreases_to!(*sop => sop->Sequence_0));
                lemma_children_covered(sop@, *v, m);
                lemma_sop_views_from(*v, 0);
            }
            match find_unfinished(v, &state, log_target) {
                Some(i) => {
                    proof {
                        broadcast use vstd::std_specs::vec::axiom_vec_index_decreases;

                        assert(decreases_to!(*v => v[i as int]));
                        assert(sop_views_from(*v, 0)[i as int - 0] == v[i as int]@);
                    }
                    process_sop_node_tick(sp_id, state, &v[i], tick_elapsed_ms, log_target)
                },
                None => state,
            }
        },
        SOP::Parallel(v) => {
            proof {
                assert(decreases_to!(*sop => sop->Parallel_0));
                lemma_children_covered(sop@, *v, m);
            }
            tick_children_in_turn(sp_id, state, v, 0, tick_elapsed_ms, log_target)
        },
        SOP::Alternative(v) => {
            proof {
                assert(decreases_to!(*sop => sop->Alternative_0));
                lemma_children_covered(sop@, *v, m);
                lemma_sop_views_from(*v, 0);
            }
            let chosen = match find_active(v, &state, log_target) {
                Some(i) => Some(i),
                None => find_startable(sp_id, v, &state, log_target),
            };
            match chosen {
                Some(i) => {
                    proof {
                        broadcast use vstd::std_specs::vec::axiom_vec_index_decreases;

                        assert(decreases_to!(*v => v[i as int]));
                        assert(sop_views_from(*v, 0)[i as int - 0] == v[i as int]@);
                    }
                    process_sop_node_tick(sp_id, state, &v[i], tick_elapsed_ms, log_target)
                },
                None => state,
            }
        },
    }
}


// ----------------------------------------------------------------------------
// Fresh operation names for each run of a SOP.
/// Whether `n` is a fresh name for the operation `base`: `op_`, `base`, `_`
/// and an id.
pub open spec fn unique_leaf_name(base: Seq<char>, n: Seq<char>) -> bool {
    let p = "op_"@ + base + "_"@;
    &&& p.len() <= n.len()
    &&& n.subrange(0, p.len() as int) == p
    &&& is_id(n.subrange(p.len() as int, n.len() as int))
}

/// Whether each of the trees `b[k..]` is `a[k..]` with fresh operation names.
pub open spec fn all_uniquified(a: Seq<SOPView>, b: Seq<SOPView>, k: int) -> bool
    decreases a, a.len() - k,
{
    if k < 0 || k >= a.len() {
        true
    } else {
        uniquified(a[k], b[k]) && all_uniquified(a, b, k + 1)
    }
}

/// Whether `u` is the tree `s` with each operation under a fresh name and
/// otherwise unchanged.
pub open spec fn uniquified(s: SOPView, u: SOPView) -> bool
    decreases s, 0int,
{
    match s {
        SOPView::Operation(o) => match u {
            SOPView::Operation(p) => unique_leaf_name(o.name, p.name) && p == OperationView { name: p.name, ..o },
            _ => false,
        },
        SOPView::Sequence(a) => match u {
            SOPView::Sequence(b) => a.len() == b.len() && all_uniquified(a, b, 0),
            _ => false,
        },
        SOPView::Parallel(a) => match u {
            SOPView::Parallel(b) => a.len() == b.len() && all_uniquified(a, b, 0),
            _ => false,
        },
        SOPView::Alternative(a) => match u {
            SOPView::Alternative(b) => a.len() == b.len() && all_uniquified(a, b, 0),
            _ => false,
        },
    }
}

proof fn lemma_all_uniquified(a: Seq<SOPView>, b: Seq<SOPView>, k: int)
    requires
        0 <= k <= a.len(),
        a.len() == b.len(),
        forall|j: int| k <= j < a.len() ==> uniquified(#[trigger] a[j], b[j]),
    ensures
        all_uniquified(a, b, k),
    decreases a.len() - k,
{
    if k < a.len() {
        lemma_all_uniquified(a, b, k + 1);
    }
}

/// Copies of the trees of `v`, each with fresh operation names.
fn uniquify_all(v: &Vec<SOP>) -> (r: Vec<SOP>)
    ensures
        r.len() == v.len(),
        forall|j: int| 0 <= j < v.len() ==> uniquified(#[trigger] v[j]@, r[j]@),
    decreases *v, 0int,
{
    let mut out: Vec<SOP> = Vec::new();
    let mut i: usize = 0;
    while i < v.len()
        invariant
            i <= v.len(),
            out.len() == i,
            forall|j: int| 0 <= j < i ==> uniquified(#[trigger] v[j]@, out[j]@),
        decreases v.len() - i,
    {
        proof {
            broadcast use vstd::std_specs::vec::axiom_vec_index_decreases;

            assert(decreases_to!(*v => v[i as int]));
        }
        let u = uniquify_sop(&v[i]);
        out.push(u);
        i += 1;
    }
    out
}

/// A copy of the tree with fresh operation names.
pub(crate) fn uniquify_sop(sop: &SOP) -> (r: SOP)
    ensures
        uniquified(sop@, r@),
    decreases *sop, 1int,
{
    match sop {
        SOP::Operation(op) => {
            let base = concat3("op_", op.name.as_str(), "_");
            let id = new_id();
            let name = concat(base.as_str(), id.as_str());
            let renamed = op.renamed(name);
            proof {
                reveal_strlit("op_");
                reveal_strlit("_");
                assert(name@.subrange(0, base@.len() as int) =~= base@);
                assert(name@.subrange(base@.len() as int, name@.len() as int) =~= id@);
            }
            SOP::Operation(Box::new(renamed))
        },
        SOP::Sequence(v) => {
            proof {
                assert(decreases_to!(*sop => sop->Sequence_0));
            }
            let w = uniquify_all(v);
            proof {
                lemma_uniquified_views(v, &w);
            }
            SOP::Sequence(w)
        },
        SOP::Parallel(v) => {
            proof {
                assert(decreases_to!(*sop => sop->Parallel_0));
            }
            let w = uniquify_all(v);
            proof {
                lemma_uniquified_views(v, &w);
            }
            SOP::Parallel(w)
        },
        SOP::Alternative(v) => {
            proof {
                assert(decreases_to!(*sop => sop->Alternative_0));
            }
            let w = uniquify_all(v);
            proof {
                lemma_uniquified_views(v, &w);
            }
            SOP::Alternative(w)
        },
    }
}

proof fn lemma_uniquified_views(v: &Vec<SOP>, w: &Vec<SOP>)
    requires
        w.len() == v.len(),
        forall|j: int| 0 <= j < v.len() ==> uniquified(#[trigger] v[j]@, w[j]@),
    ensures
        sop_views_from(*v, 0).len() == sop_views_from(*w, 0).len(),
        all_uniquified(sop_views_from(*v, 0), sop_views_from(*w, 0), 0),
{
    lemma_sop_views_from(*v, 0);
    lemma_sop_views_from(*w, 0);
    let a = sop_views_from(*v, 0);
    let b = sop_views_from(*w, 0);
    assert forall|j: int| 0 <= j < a.len() implies uniquified(#[trigger] a[j], b[j]) by {
        assert(a[j - 0] == v[j]@);
        assert(b[j - 0] == w[j]@);
    }
    lemma_all_uniquified(a, b, 0);
}

/// The tree with every operation renamed to `op_{name}_{id}` with a fresh
/// random id, so that each run of a SOP has operations of its own.
pub fn uniquify_sop_operations(sop: SOP) -> (r: SOP)
    ensures
        uniquified(sop@, r@),
{
    uniquify_sop(&sop)
}


/// Whether `p` is `o` under another name.
pub open spec fn is_renamed(o: OperationView, p: OperationView) -> bool {
    p == OperationView { name: p.name, ..o }
}

/// The operations of the trees `b[k..]` are those of `a[k..]`, each under a
/// fresh name, where each tree of `b` is its tree of `a` uniquified.
pub proof fn lemma_all_uniquified_operations(a: Seq<SOPView>, b: Seq<SOPView>, k: int)
    requires
        0 <= k <= a.len(),
        a.len() == b.len(),
        all_uniquified(a, b, k),
    ensures
        sops_operations(b, k).len() == sops_operations(a, k).len(),
        forall|j: int| 0 <= j < sops_operations(a, k).len() ==> is_renamed(sops_operations(a, k)[j], #[trigger] sops_operations(b, k)[j]),
    decreases a, a.len() - k,
{
    if k < a.len() {
        lemma_uniquified_operations(a[k], b[k]);
        lemma_all_uniquified_operations(a, b, k + 1);
        let x = sop_operations(a[k]);
        let y = sop_operations(b[k]);
        let xs = sops_operations(a, k + 1);
        let ys = sops_operations(b, k + 1);
        assert(sops_operations(a, k) == x + xs);
        assert(sops_operations(b, k) == y + ys);
        assert forall|j: int| 0 <= j < sops_operations(a, k).len() implies is_renamed(sops_operations(a, k)[j], #[trigger] sops_operations(b, k)[j]) by {
            if j < x.len() {
                assert(sops_operations(b, k)[j] == y[j]);
                assert(sops_operations(a, k)[j] == x[j]);
            } else {
                assert(sops_operations(b, k)[j] == ys[j - y.len()]);
                assert(sops_operations(a, k)[j] == xs[j - x.len()]);
            }
        }
    }
}

/// The operations of a uniquified tree are those of the tree, each under a
/// fresh name.
pub proof fn lemma_uniquified_operations(s: SOPView, u: SOPView)
    requires
        uniquified(s, u),
    ensures
        sop_operations(u).len() == sop_operations(s).len(),
        forall|j: int| 0 <= j < sop_operations(s).len() ==> is_renamed(sop_operations(s)[j], #[trigger] sop_operations(u)[j]),
    decreases s, 1int,
{
    match s {
        SOPView::Operation(o) => {},
        SOPView::Sequence(a) => {
            lemma_all_uniquified_operations(a, u->Sequence_0, 0);
        },
        SOPView::Parallel(a) => {
            lemma_all_uniquified_operations(a, u->Parallel_0, 0);
        },
        SOPView::Alternative(a) => {
            lemma_all_uniquified_operations(a, u->Alternative_0, 0);
        },
    }
}


// ----------------------------------------------------------------------------
// Laws of the tree.
/// What the children `s[k..]` are, said of each child.
pub proof fn lemma_children_summary(s: Seq<SOPView>, m: StateMap, k: int)
    requires
        0 <= k,
    ensures
        children_summary(s, m, k).0 <==> (forall|i: int| k <= i < s.len() ==> #[trigger] sop_state(s[i], m) == SOPState::Completed),
        children_summary(s, m, k).1 <==> (exists|i: int| k <= i < s.len() && #[trigger] sop_state(s[i], m) == SOPState::Completed),
        children_summary(s, m, k).2 <==> (exists|i: int| k <= i < s.len() && #[trigger] sop_state(s[i], m) == SOPState::Fatal),
        children_summary(s, m, k).3 <==> (exists|i: int| k <= i < s.len() && #[trigger] sop_state(s[i], m) == SOPState::Cancelled),
        children_summary(s, m, k).4 <==> (forall|i: int| k <= i < s.len() ==> #[trigger] sop_state(s[i], m) == SOPState::Initial),
    decreases s.len() - k,
{
    if k < s.len() {
        lemma_children_summary(s, m, k + 1);
        let c = sop_state(s[k], m);
        if c == SOPState::Completed && children_summary(s, m, k + 1).0 {
            assert forall|i: int| k <= i < s.len() implies #[trigger] sop_state(s[i], m) == SOPState::Completed by {
                if i > k {
                    assert(k + 1 <= i < s.len());
                }
            }
        }
        if children_summary(s, m, k + 1).1 {
            let i = choose|i: int| k + 1 <= i < s.len() && #[trigger] sop_state(s[i], m) == SOPState::Completed;
            assert(k <= i < s.len() && sop_state(s[i], m) == SOPState::Completed);
        }
        if exists|i: int| k <= i < s.len() && #[trigger] sop_state(s[i], m) == SOPState::Completed {
            let i = choose|i: int| k <= i < s.len() && #[trigger] sop_state(s[i], m) == SOPState::Completed;
            if i > k {
                assert(k + 1 <= i < s.len() && sop_state(s[i], m) == SOPState::Completed);
            }
        }
    }
}

/// The state of an alternative: fatal if a branch is, else cancelled if a
/// branch is, else completed as soon as one branch has completed, else
/// initial when every branch is, and executing otherwise.
pub proof fn lemma_alternative_state(v: Seq<SOPView>, m: StateMap)
    ensures
        ({
            let st = sop_state(SOPView::Alternative(v), m);
            let fatal = exists|i: int| 0 <= i < v.len() && #[trigger] sop_state(v[i], m) == SOPState::Fatal;
            let cancelled = exists|i: int| 0 <= i < v.len() && #[trigger] sop_state(v[i], m) == SOPState::Cancelled;
            let one_completed = exists|i: int| 0 <= i < v.len() && #[trigger] sop_state(v[i], m) == SOPState::Completed;
            let all_initial = forall|i: int| 0 <= i < v.len() ==> #[trigger] sop_state(v[i], m) == SOPState::Initial;
            &&& fatal ==> st == SOPState::Fatal
            &&& !fatal && cancelled ==> st == SOPState::Cancelled
            &&& !fatal && !cancelled && one_completed ==> st == SOPState::Completed
            &&& !fatal && !cancelled && !one_completed && all_initial ==> st == SOPState::Initial
            &&& !fatal && !cancelled && !one_completed && !all_initial ==> st == SOPState::Executing
        }),
{
    lemma_children_summary(v, m, 0);
}

/// The state of a sequence or a parallel node: fatal if a child is, else
/// cancelled if a child is, else completed only once every child has
/// completed, else initial when every child is, and executing otherwise.
pub proof fn lemma_sequence_and_parallel_state(v: Seq<SOPView>, m: StateMap)
    ensures
        sop_state(SOPView::Sequence(v), m) == sop_state(SOPView::Parallel(v), m),
        ({
            let st = sop_state(SOPView::Sequence(v), m);
            let fatal = exists|i: int| 0 <= i < v.len() && #[trigger] sop_state(v[i], m) == SOPState::Fatal;
            let cancelled = exists|i: int| 0 <= i < v.len() && #[trigger] sop_state(v[i], m) == SOPState::Cancelled;
            let all_completed = forall|i: int| 0 <= i < v.len() ==> #[trigger] sop_state(v[i], m) == SOPState::Completed;
            let all_initial = forall|i: int| 0 <= i < v.len() ==> #[trigger] sop_state(v[i], m) == SOPState::Initial;
            &&& fatal ==> st == SOPState::Fatal
            &&& !fatal && cancelled ==> st == SOPState::Cancelled
            &&& !fatal && !cancelled && all_completed ==> st == SOPState::Completed
            &&& !fatal && !cancelled && !all_completed && all_initial ==> st == SOPState::Initial
            &&& !fatal && !cancelled && !all_completed && !all_initial ==> st == SOPState::Executing
        }),
{
    lemma_children_summary(v, m, 0);
}

/// Ticking the children `v[k..]` and then `c` is ticking `v[k..]` followed by `c`.
proof fn lemma_ticks_in_turn_push(sp: Seq<char>, v: Seq<SOPView>, c: SOPView, m: StateMap, tick: i64, k: int)
    requires
        0 <= k <= v.len(),
    ensures
        ticks_in_turn(sp, v.push(c), m, tick, k) == sop_tick(sp, c, ticks_in_turn(sp, v, m, tick, k), tick),
    decreases v.len() - k,
{
    if k < v.len() {
        assert(v.push(c)[k] == v[k]);
        lemma_ticks_in_turn_push(sp, v, c, sop_tick(sp, v[k], m, tick), tick, k + 1);
    } else {
        assert(v.push(c)[k] == c);
        let m1 = sop_tick(sp, c, m, tick);
        assert(ticks_in_turn(sp, v.push(c), m1, tick, k + 1) == m1);
    }
}

/// A parallel node ticks every one of its children on the same tick, one
/// after the other: with no children a tick changes nothing, and a tick of
/// a parallel node with one more child is a tick of the node without it
/// followed by a tick of that child.
pub proof fn lemma_parallel_ticks_every_child(sp: Seq<char>, v: Seq<SOPView>, c: SOPView, m: StateMap, tick: i64)
    ensures
        sop_tick(sp, SOPView::Parallel(Seq::empty()), m, tick) == m,
        sop_tick(sp, SOPView::Parallel(v.push(c)), m, tick) == sop_tick(
            sp,
            c,
            sop_tick(sp, SOPView::Parallel(v), m, tick),
            tick,
        ),
{
    lemma_ticks_in_turn_push(sp, v, c, m, tick, 0);
}

} // verus!
