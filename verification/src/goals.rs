//! Goals: what is asked of the controller, how a goal is written into the
//! state, and the priority queue goals wait in.
//!
//! A goal crosses the process boundary as a three-element array value
//! `[id, priority, predicate]`; [`sp_value_to_goal`] is the only validation
//! on that path.  The queue is kept in priority order, `Top` first, with
//! goals of one priority in the order they arrived.
use crate::ids::{is_id, new_id};
use crate::text::{u64_decimal, nat_decimal, str_eq, concat};
use crate::value::{
    int_view, lemma_array_view, string_view, ArrayOrUnknown, IntOrUnknown, SPValue, SPValueView,
    StringOrUnknown, ToSPValue,
};
use vstd::prelude::*;

verus! {

/// How urgent a goal is; the queue is sorted by this, `Top` first.
#[derive(Debug, Clone, Copy, PartialEq, Eq, Structural, PartialOrd, Ord, Hash)]
pub enum GoalPriority {
    Top,
    High,
    Normal,
    Low,
}

/// One request for the controller to reach a state.
#[derive(Debug, Clone, PartialEq, Eq, Hash, PartialOrd, Ord)]
pub struct Goal {
    pub id: String,
    pub priority: GoalPriority,
    pub predicate: String,
}

/// The content of a goal.
pub struct GoalView {
    pub id: Seq<char>,
    pub priority: GoalPriority,
    pub predicate: Seq<char>,
}

impl View for Goal {
    type V = GoalView;

    open spec fn view(&self) -> GoalView {
        GoalView { id: self.id@, priority: self.priority, predicate: self.predicate@ }
    }
}

/// The views of a list of goals.
pub open spec fn goal_views(v: Seq<Goal>) -> Seq<GoalView> {
    Seq::new(v.len(), |i: int| v[i]@)
}

/// The lifecycle of the current goal.
#[derive(Debug, Clone, Copy, PartialEq, Eq, Structural, PartialOrd, Ord, Hash)]
pub enum GoalState {
    Initial,
    Executing,
    Failed,
    Cancelled,
    Completed,
    UNKNOWN,
}

// ----------------------------------------------------------------------------
// Priorities.
/// The integer a priority is stored as, `Top` being `0`.
pub open spec fn priority_int(p: GoalPriority) -> i64 {
    match p {
        GoalPriority::Top => 0,
        GoalPriority::High => 1,
        GoalPriority::Normal => 2,
        GoalPriority::Low => 3,
    }
}

/// The priority an integer stands for; anything out of range is `Low`.
pub open spec fn priority_of_int(x: i64) -> GoalPriority {
    if x == 0 {
        GoalPriority::Top
    } else if x == 1 {
        GoalPriority::High
    } else if x == 2 {
        GoalPriority::Normal
    } else {
        GoalPriority::Low
    }
}

/// The name of a priority.
pub open spec fn priority_text(p: GoalPriority) -> Seq<char> {
    match p {
        GoalPriority::Top => "top"@,
        GoalPriority::High => "high"@,
        GoalPriority::Normal => "normal"@,
        GoalPriority::Low => "low"@,
    }
}

/// The priority a name stands for; anything unrecognised is `Low`.
pub open spec fn priority_of_text(x: Seq<char>) -> GoalPriority {
    if x == "top"@ {
        GoalPriority::Top
    } else if x == "high"@ {
        GoalPriority::High
    } else if x == "normal"@ {
        GoalPriority::Normal
    } else {
        GoalPriority::Low
    }
}

impl GoalPriority {
    /// Decodes the stored integer; out-of-range values become `Low`.
    pub fn from_int(x: &i64) -> (r: GoalPriority)
        ensures
            r == priority_of_int(*x),
    {
        if *x == 0 {
            GoalPriority::Top
        } else if *x == 1 {
            GoalPriority::High
        } else if *x == 2 {
            GoalPriority::Normal
        } else {
            GoalPriority::Low
        }
    }

    /// The stored integer, `Top` being `0`.
    pub fn to_int(&self) -> (r: i64)
        ensures
            r == priority_int(*self),
    {
        match self {
            GoalPriority::Top => 0,
            GoalPriority::High => 1,
            GoalPriority::Normal => 2,
            GoalPriority::Low => 3,
        }
    }

    /// Parses `"top"`, `"high"`, `"normal"` or `"low"`; anything else is `Low`.
    pub fn from_str(x: &str) -> (r: GoalPriority)
        ensures
            r == priority_of_text(x@),
    {
        if str_eq(x, "top") {
            GoalPriority::Top
        } else if str_eq(x, "high") {
            GoalPriority::High
        } else if str_eq(x, "normal") {
            GoalPriority::Normal
        } else {
            GoalPriority::Low
        }
    }

    /// The name of the priority.
    pub fn to_string(&self) -> (r: String)
        ensures
            r@ == priority_text(*self),
    {
        match self {
            GoalPriority::Top => String::from_str("top"),
            GoalPriority::High => String::from_str("high"),
            GoalPriority::Normal => String::from_str("normal"),
            GoalPriority::Low => String::from_str("low"),
        }
    }
}

/// Whether `a` sorts before or with `b`: `Top` first, `Low` last.
pub open spec fn priority_le(a: GoalPriority, b: GoalPriority) -> bool {
    priority_int(a) <= priority_int(b)
}

// ----------------------------------------------------------------------------
// Goal states.
/// The string a goal state is written as.
pub open spec fn goal_state_text(s: GoalState) -> Seq<char> {
    match s {
        GoalState::Initial => "initial"@,
        GoalState::Executing => "executing"@,
        GoalState::Failed => "failed"@,
        GoalState::Cancelled => "cancelled"@,
        GoalState::Completed => "completed"@,
        GoalState::UNKNOWN => "unknown"@,
    }
}

/// The goal state a string names; anything unrecognised is `UNKNOWN`.
pub open spec fn goal_state_of(x: Seq<char>) -> GoalState {
    if x == "initial"@ {
        GoalState::Initial
    } else if x == "executing"@ {
        GoalState::Executing
    } else if x == "failed"@ {
        GoalState::Failed
    } else if x == "cancelled"@ {
        GoalState::Cancelled
    } else if x == "completed"@ {
        GoalState::Completed
    } else {
        GoalState::UNKNOWN
    }
}

impl GoalState {
    /// Parses the stored string; anything unrecognised is `UNKNOWN`.
    pub fn from_str(x: &str) -> (r: GoalState)
        ensures
            r == goal_state_of(x@),
    {
        if str_eq(x, "initial") {
            GoalState::Initial
        } else if str_eq(x, "executing") {
            GoalState::Executing
        } else if str_eq(x, "failed") {
            GoalState::Failed
        } else if str_eq(x, "cancelled") {
            GoalState::Cancelled
        } else if str_eq(x, "completed") {
            GoalState::Completed
        } else {
            GoalState::UNKNOWN
        }
    }

    /// The string the state is written as.
    pub fn as_text(&self) -> (r: &'static str)
        ensures
            r@ == goal_state_text(*self),
    {
        match self {
            GoalState::Initial => "initial",
            GoalState::Executing => "executing",
            GoalState::Failed => "failed",
            GoalState::Cancelled => "cancelled",
            GoalState::Completed => "completed",
            GoalState::UNKNOWN => "unknown",
        }
    }

    /// The string the state is written as.
    pub fn to_string(&self) -> (r: String)
        ensures
            r@ == goal_state_text(*self),
    {
        String::from_str(self.as_text())
    }

    /// The state as the value written into the state.
    pub fn to_spvalue(self) -> (v: SPValue)
        ensures
            v@ == string_view(goal_state_text(self)),
    {
        self.as_text().to_spvalue()
    }
}

// ----------------------------------------------------------------------------
// The wire format.
/// The value a goal is written as: `[id, priority, predicate]`.
pub open spec fn goal_value(g: GoalView) -> SPValueView {
    SPValueView::Array(
        Some(seq![string_view(g.id), int_view(priority_int(g.priority)), string_view(g.predicate)]),
    )
}

/// The goal a value encodes, if it is a three-element array of a known
/// string, a known integer and a known string.
pub open spec fn goal_of_value(v: SPValueView) -> Option<GoalView> {
    match v {
        SPValueView::Array(Some(a)) => if a.len() == 3 {
            match a[0] {
                SPValueView::String(Some(id)) => match a[1] {
                    SPValueView::Int64(Some(p)) => match a[2] {
                        SPValueView::String(Some(pr)) => Some(
                            GoalView { id, priority: priority_of_int(p), predicate: pr },
                        ),
                        _ => None,
                    },
                    _ => None,
                },
                _ => None,
            }
        } else {
            None
        },
        _ => None,
    }
}

/// Why a value does not encode a goal.
pub open spec fn goal_error(v: SPValueView) -> Seq<char> {
    match v {
        SPValueView::Array(Some(a)) => if a.len() != 3 {
            "Goal array expected length 3, found "@ + nat_decimal(a.len())
        } else if !(a[0] matches SPValueView::String(Some(_))) {
            "ID expected String"@
        } else if !(a[1] matches SPValueView::Int64(Some(_))) {
            "Priority expected Int64"@
        } else {
            "Predicate expected String"@
        },
        SPValueView::Array(None) => "Goal Array is UNKNOWN"@,
        _ => "Expected SPValue::Array"@,
    }
}

/// The goals among the values that encode one, in order.
pub open spec fn decode_goals(s: Seq<SPValueView>) -> Seq<GoalView>
    decreases s.len(),
{
    if s.len() == 0 {
        Seq::empty()
    } else {
        match goal_of_value(s.last()) {
            Some(g) => decode_goals(s.drop_last()).push(g),
            None => decode_goals(s.drop_last()),
        }
    }
}

/// The value a queue of goals is written as.
pub open spec fn queue_value(q: Seq<GoalView>) -> SPValueView {
    SPValueView::Array(Some(Seq::new(q.len(), |i: int| goal_value(q[i]))))
}

/// Encodes a goal as the `[id, priority, predicate]` array stored in the state.
pub fn goal_to_sp_value(goal: &Goal) -> (r: SPValue)
    ensures
        r@ == goal_value(goal@),
{
    goal_string_to_sp_value(goal.id.as_str(), &goal.predicate, goal.priority)
}

/// Encodes a predicate string as a goal array, with the given id and priority.
pub fn goal_string_to_sp_value(unique_id: &str, goal: &String, priority: GoalPriority) -> (r: SPValue)
    ensures
        r@ == goal_value(GoalView { id: unique_id@, priority, predicate: goal@ }),
{
    let mut a: Vec<SPValue> = Vec::new();
    a.push(SPValue::String(StringOrUnknown::String(String::from_str(unique_id))));
    a.push(SPValue::Int64(IntOrUnknown::Int64(priority.to_int())));
    a.push(SPValue::String(StringOrUnknown::String(goal.clone())));
    proof {
        lemma_array_view(a);
    }
    let r = SPValue::Array(ArrayOrUnknown::Array(a));
    assert(r@ == goal_value(GoalView { id: unique_id@, priority, predicate: goal@ })) by {
        assert(Seq::new(a.len() as nat, |j: int| a[j]@) =~= seq![
            string_view(unique_id@),
            int_view(priority_int(priority)),
            string_view(goal@),
        ]);
    }
    r
}

/// Decodes an `[id, priority, predicate]` array into a goal.
///
/// A value that is not a three-element array of a known string, a known
/// integer and a known string is refused, with the reason.  An integer
/// priority out of range is read as `Low`.
pub fn sp_value_to_goal(sp_value: &SPValue) -> (r: Result<Goal, String>)
    ensures
        match r {
            Ok(g) => goal_of_value(sp_value@) == Some(g@),
            Err(e) => goal_of_value(sp_value@) is None && e@ == goal_error(sp_value@),
        },
{
    match sp_value {
        SPValue::Array(ArrayOrUnknown::Array(a)) => {
            proof {
                lemma_array_view(*a);
            }
            let ghost s = Seq::new(a.len() as nat, |j: int| a[j]@);
            assert(sp_value@ == SPValueView::Array(Some(s)));
            if a.len() != 3 {
                let n = u64_decimal(a.len() as u64);
                let msg = concat("Goal array expected length 3, found ", n.as_str());
                return Err(msg);
            }
            assert(s[0] == a[0]@ && s[1] == a[1]@ && s[2] == a[2]@);
            let id = match &a[0] {
                SPValue::String(StringOrUnknown::String(x)) => x.clone(),
                _ => {
                    return Err(String::from_str("ID expected String"));
                },
            };
            let priority = match &a[1] {
                SPValue::Int64(IntOrUnknown::Int64(p)) => *p,
                _ => {
                    return Err(String::from_str("Priority expected Int64"));
                },
            };
            let predicate = match &a[2] {
                SPValue::String(StringOrUnknown::String(x)) => x.clone(),
                _ => {
                    return Err(String::from_str("Predicate expected String"));
                },
            };
            Ok(Goal { id, priority: GoalPriority::from_int(&priority), predicate })
        },
        SPValue::Array(ArrayOrUnknown::UNKNOWN) => Err(String::from_str("Goal Array is UNKNOWN")),
        _ => Err(String::from_str("Expected SPValue::Array")),
    }
}

/// The goals among the values that encode one, in order; the others are
/// dropped.
pub fn decode_goal_values(values: &Vec<SPValue>) -> (r: Vec<Goal>)
    ensures
        goal_views(r@) == decode_goals(Seq::new(values.len() as nat, |j: int| values[j]@)),
{
    let ghost s = Seq::new(values.len() as nat, |j: int| values[j]@);
    let mut out: Vec<Goal> = Vec::new();
    let mut i: usize = 0;
    while i < values.len()
        invariant
            i <= values.len(),
            s == Seq::new(values.len() as nat, |j: int| values[j]@),
            goal_views(out@) == decode_goals(s.take(i as int)),
        decreases values.len() - i,
    {
        proof {
            assert(s.take(i + 1).drop_last() =~= s.take(i as int));
            assert(s.take(i + 1).last() == values[i as int]@);
        }
        match sp_value_to_goal(&values[i]) {
            Ok(g) => {
                let ghost before = out@;
                out.push(g);
                assert(goal_views(out@) =~= goal_views(before).push(g@));
            },
            Err(_) => {},
        }
        i += 1;
    }
    assert(s.take(values.len() as int) =~= s);
    out
}

/// Encodes a queue of goals.
pub fn encode_goals(q: &Vec<Goal>) -> (r: SPValue)
    ensures
        r@ == queue_value(goal_views(q@)),
{
    let mut vals: Vec<SPValue> = Vec::new();
    let mut i: usize = 0;
    while i < q.len()
        invariant
            i <= q.len(),
            vals.len() == i,
            forall|j: int| 0 <= j < i ==> #[trigger] vals[j]@ == goal_value(q[j]@),
        decreases q.len() - i,
    {
        vals.push(goal_to_sp_value(&q[i]));
        i += 1;
    }
    let r = vals.to_spvalue();
    assert(Seq::new(vals.len() as nat, |j: int| vals[j]@) =~= Seq::new(
        goal_views(q@).len(),
        |j: int| goal_value(goal_views(q@)[j]),
    ));
    r
}

/// A goal written into the state reads back as itself.
pub proof fn lemma_goal_round_trip(g: GoalView)
    ensures
        goal_of_value(goal_value(g)) == Some(g),
{
}

// ----------------------------------------------------------------------------
// The queue.
/// Whether a goal still needs an id: its id is empty or `"UNKNOWN"`.
pub open spec fn needs_id(id: Seq<char>) -> bool {
    id.len() == 0 || id == "UNKNOWN"@
}

/// The goals of `s` with priority `p`, in order.
pub open spec fn with_priority(s: Seq<GoalView>, p: GoalPriority) -> Seq<GoalView>
    decreases s.len(),
{
    if s.len() == 0 {
        Seq::empty()
    } else if s.last().priority == p {
        with_priority(s.drop_last(), p).push(s.last())
    } else {
        with_priority(s.drop_last(), p)
    }
}

/// The goals of `s` in priority order, `Top` first; goals of one priority
/// keep their order in `s`.
pub open spec fn by_priority(s: Seq<GoalView>) -> Seq<GoalView> {
    with_priority(s, GoalPriority::Top) + with_priority(s, GoalPriority::High) + with_priority(
        s,
        GoalPriority::Normal,
    ) + with_priority(s, GoalPriority::Low)
}

/// How many of `s[..i]` need an id.
pub open spec fn count_needing(s: Seq<GoalView>, i: int) -> int
    decreases i,
{
    if i <= 0 {
        0
    } else {
        count_needing(s, i - 1) + if needs_id(s[i - 1].id) {
            1int
        } else {
            0
        }
    }
}

/// The goals after the ids are handed out: each incoming goal takes the id
/// of its position in `ids`; each scheduled goal that needs one takes the
/// next of the remaining ids, in order; the others keep theirs.  Incoming
/// goals join behind the scheduled ones.
pub open spec fn with_ids(
    scheduled: Seq<GoalView>,
    incoming: Seq<GoalView>,
    ids: Seq<Seq<char>>,
) -> Seq<GoalView> {
    Seq::new(
        scheduled.len(),
        |i: int|
            if needs_id(scheduled[i].id) {
                GoalView { id: ids[incoming.len() + count_needing(scheduled, i)], ..scheduled[i] }
            } else {
                scheduled[i]
            },
    ) + Seq::new(incoming.len(), |j: int| GoalView { id: ids[j], ..incoming[j] })
}

/// The queue after admission.
pub open spec fn admitted(
    scheduled: Seq<GoalView>,
    incoming: Seq<GoalView>,
    ids: Seq<Seq<char>>,
) -> Seq<GoalView> {
    by_priority(with_ids(scheduled, incoming, ids))
}

/// How many of the scheduled goals need an id.
pub fn count_missing_ids(scheduled: &Vec<Goal>) -> (n: usize)
    ensures
        n == count_needing(goal_views(scheduled@), scheduled.len() as int),
{
    let ghost s = goal_views(scheduled@);
    let mut n: usize = 0;
    let mut i: usize = 0;
    while i < scheduled.len()
        invariant
            i <= scheduled.len(),
            s == goal_views(scheduled@),
            n == count_needing(s, i as int),
            n <= i,
        decreases scheduled.len() - i,
    {
        if scheduled[i].id.unicode_len() == 0 || str_eq(scheduled[i].id.as_str(), "UNKNOWN") {
            n += 1;
        }
        i += 1;
    }
    n
}

/// Appends the goals of `s` with priority `p`, in order.
fn push_with_priority(s: &Vec<Goal>, p: GoalPriority, out: &mut Vec<Goal>)
    ensures
        goal_views(final(out)@) == goal_views(old(out)@) + with_priority(goal_views(s@), p),
{
    let ghost start = goal_views(out@);
    let ghost g = goal_views(s@);
    let mut i: usize = 0;
    while i < s.len()
        invariant
            i <= s.len(),
            g == goal_views(s@),
            goal_views(out@) == start + with_priority(g.take(i as int), p),
        decreases s.len() - i,
    {
        proof {
            assert(g.take(i + 1).drop_last() =~= g.take(i as int));
            assert(g.take(i + 1).last() == s[i as int]@);
        }
        if s[i].priority == p {
            let ghost before = goal_views(out@);
            out.push(s[i].clone_goal());
            assert(goal_views(out@) =~= before.push(s[i as int]@));
            assert(goal_views(out@) =~= start + with_priority(g.take(i + 1), p));
        }
        i += 1;
    }
    assert(g.take(s.len() as int) =~= g);
}

impl Goal {
    /// A copy of the goal.
    pub fn clone_goal(&self) -> (r: Goal)
        ensures
            r@ == self@,
    {
        Goal { id: self.id.clone(), priority: self.priority, predicate: self.predicate.clone() }
    }
}

/// The goals in priority order, `Top` first, keeping the order of goals of
/// one priority.
pub fn sort_by_priority(s: &Vec<Goal>) -> (r: Vec<Goal>)
    ensures
        goal_views(r@) == by_priority(goal_views(s@)),
{
    let mut out: Vec<Goal> = Vec::new();
    assert(goal_views(out@) =~= Seq::<GoalView>::empty());
    push_with_priority(s, GoalPriority::Top, &mut out);
    push_with_priority(s, GoalPriority::High, &mut out);
    push_with_priority(s, GoalPriority::Normal, &mut out);
    push_with_priority(s, GoalPriority::Low, &mut out);
    assert(goal_views(out@) =~= by_priority(goal_views(s@)));
    out
}

/// Merges newly arrived goals into the queue with the given ids, and orders
/// the queue by priority.
///
/// `ids` holds one id for each incoming goal, followed by one for each
/// scheduled goal whose id is empty or `"UNKNOWN"`.
pub fn admit_goals_with_ids(scheduled: Vec<Goal>, incoming: Vec<Goal>, ids: Vec<String>) -> (r: Vec<Goal>)
    requires
        ids.len() == incoming.len() + count_needing(goal_views(scheduled@), scheduled.len() as int),
    ensures
        goal_views(r@) == admitted(
            goal_views(scheduled@),
            goal_views(incoming@),
            Seq::new(ids.len() as nat, |k: int| ids[k]@),
        ),
{
    let ghost sv = goal_views(scheduled@);
    let ghost iv = goal_views(incoming@);
    let ghost idv = Seq::new(ids.len() as nat, |k: int| ids[k]@);
    let ghost expected = with_ids(sv, iv, idv);
    let mut all: Vec<Goal> = Vec::new();
    let mut next: usize = incoming.len();
    let mut i: usize = 0;
    while i < scheduled.len()
        invariant
            i <= scheduled.len(),
            sv == goal_views(scheduled@),
            iv == goal_views(incoming@),
            idv == Seq::new(ids.len() as nat, |k: int| ids[k]@),
            expected == with_ids(sv, iv, idv),
            ids.len() == incoming.len() + count_needing(sv, scheduled.len() as int),
            next == incoming.len() + count_needing(sv, i as int),
            all.len() == i,
            forall|j: int| 0 <= j < i ==> #[trigger] all[j]@ == expected[j],
        decreases scheduled.len() - i,
    {
        proof {
            lemma_count_needing_mono(sv, i + 1, scheduled.len() as int);
        }
        let g = &scheduled[i];
        if g.id.unicode_len() == 0 || str_eq(g.id.as_str(), "UNKNOWN") {
            all.push(Goal { id: ids[next].clone(), priority: g.priority, predicate: g.predicate.clone() });
            next += 1;
        } else {
            all.push(g.clone_goal());
        }
        i += 1;
    }
    proof {
        lemma_count_needing_mono(sv, 0, scheduled.len() as int);
    }
    let mut j: usize = 0;
    while j < incoming.len()
        invariant
            j <= incoming.len(),
            sv == goal_views(scheduled@),
            iv == goal_views(incoming@),
            idv == Seq::new(ids.len() as nat, |k: int| ids[k]@),
            expected == with_ids(sv, iv, idv),
            ids.len() >= incoming.len(),
            all.len() == scheduled.len() + j,
            forall|k: int| 0 <= k < scheduled.len() + j ==> #[trigger] all[k]@ == expected[k],
        decreases incoming.len() - j,
    {
        let g = &incoming[j];
        all.push(Goal { id: ids[j].clone(), priority: g.priority, predicate: g.predicate.clone() });
        j += 1;
    }
    assert(goal_views(all@) =~= expected);
    sort_by_priority(&all)
}

/// More goals can only need more ids.
pub proof fn lemma_count_needing_mono(s: Seq<GoalView>, i: int, j: int)
    requires
        0 <= i <= j,
    ensures
        count_needing(s, i) <= count_needing(s, j),
    decreases j - i,
{
    if i < j {
        lemma_count_needing_mono(s, i, j - 1);
    }
}

/// Merges newly arrived goals into the queue, ordered by priority.
///
/// Every incoming goal gets a fresh random id; so does every scheduled goal
/// whose id is empty or `"UNKNOWN"`; the other scheduled goals keep theirs.
/// The ids are random, so the contract says which goals get one and that
/// each is a ten-character id, and fixes everything else.
pub fn admit_goals(scheduled: Vec<Goal>, incoming: Vec<Goal>) -> (r: Vec<Goal>)
    ensures
        exists|ids: Seq<Seq<char>>|
            ids.len() == incoming.len() + count_needing(goal_views(scheduled@), scheduled.len() as int)
                && (forall|k: int| 0 <= k < ids.len() ==> is_id(#[trigger] ids[k]))
                && goal_views(r@) == admitted(goal_views(scheduled@), goal_views(incoming@), ids),
{
    let needed = count_missing_ids(&scheduled);
    let mut ids: Vec<String> = Vec::new();
    let mut k: usize = 0;
    while k < incoming.len()
        invariant
            k <= incoming.len(),
            ids.len() == k,
            forall|j: int| 0 <= j < k ==> is_id(#[trigger] ids[j]@),
        decreases incoming.len() - k,
    {
        ids.push(new_id());
        k += 1;
    }
    let mut k: usize = 0;
    while k < needed
        invariant
            k <= needed,
            ids.len() == incoming.len() + k,
            forall|j: int| 0 <= j < ids.len() ==> is_id(#[trigger] ids[j]@),
        decreases needed - k,
    {
        ids.push(new_id());
        k += 1;
    }
    let ghost idv = Seq::new(ids.len() as nat, |j: int| ids[j]@);
    let ghost sv = goal_views(scheduled@);
    let ghost iv = goal_views(incoming@);
    let r = admit_goals_with_ids(scheduled, incoming, ids);
    assert(forall|j: int| 0 <= j < idv.len() ==> is_id(#[trigger] idv[j]));
    assert(idv.len() == iv.len() + count_needing(sv, sv.len() as int));
    assert(goal_views(r@) == admitted(sv, iv, idv));
    r
}

/// A queue in which every goal has an id and the goals are in priority
/// order comes back from admission unchanged.
pub proof fn lemma_admission_keeps_a_settled_queue(q: Seq<GoalView>)
    requires
        forall|i: int| 0 <= i < q.len() ==> !needs_id(#[trigger] q[i].id),
        forall|i: int, j: int| 0 <= i < j < q.len() ==> priority_le(#[trigger] q[i].priority, #[trigger] q[j].priority),
    ensures
        admitted(q, Seq::empty(), Seq::empty()) == q,
{
    assert(with_ids(q, Seq::empty(), Seq::empty()) =~= q);
    lemma_sorted_by_priority(q);
}

/// The goals of one priority in a sorted queue are a contiguous block.
proof fn lemma_sorted_by_priority(q: Seq<GoalView>)
    requires
        forall|i: int, j: int| 0 <= i < j < q.len() ==> priority_le(#[trigger] q[i].priority, #[trigger] q[j].priority),
    ensures
        by_priority(q) == q,
    decreases q.len(),
{
    if q.len() > 0 {
        let p = q.drop_last();
        assert forall|i: int, j: int| 0 <= i < j < p.len() implies priority_le(
            #[trigger] p[i].priority,
            #[trigger] p[j].priority,
        ) by {
            assert(p[i] == q[i] && p[j] == q[j]);
        }
        lemma_sorted_by_priority(p);
        let last = q.last();
        assert(forall|i: int| 0 <= i < p.len() ==> priority_le(#[trigger] p[i].priority, last.priority)) by {
            assert forall|i: int| 0 <= i < p.len() implies priority_le(#[trigger] p[i].priority, last.priority) by {
                assert(p[i] == q[i]);
                assert(priority_le(q[i].priority, q[q.len() - 1].priority));
            }
        }
        lemma_later_priorities_empty(p, last.priority);
        assert(q.drop_last() == p);
        assert(by_priority(q) =~= by_priority(p).push(last));
        assert(by_priority(p).push(last) =~= p.push(last));
        assert(p.push(last) =~= q);
    }
}

/// In a list whose priorities are all at most `top`, no goal has a lower one.
proof fn lemma_later_priorities_empty(p: Seq<GoalView>, top: GoalPriority)
    requires
        forall|i: int| 0 <= i < p.len() ==> priority_le(#[trigger] p[i].priority, top),
    ensures
        forall|x: GoalPriority| priority_int(top) < priority_int(x) ==> #[trigger] with_priority(p, x).len() == 0,
    decreases p.len(),
{
    if p.len() > 0 {
        let d = p.drop_last();
        assert forall|i: int| 0 <= i < d.len() implies priority_le(#[trigger] d[i].priority, top) by {
            assert(d[i] == p[i]);
        }
        lemma_later_priorities_empty(d, top);
        assert(priority_le(p[p.len() - 1].priority, top));
        assert forall|x: GoalPriority| priority_int(top) < priority_int(x) implies #[trigger] with_priority(p, x).len() == 0 by {
            assert(p.last().priority != x);
            assert(with_priority(p, x) == with_priority(d, x));
        }
    }
}

} // verus!
