//! Actions and transitions.
//!
//! An [`Action`] assigns to a variable the value of an operand; a
//! [`Transition`] is a pair of guards (the planning guard and the runner
//! guard) with the actions taken when it fires.  Taking a transition reads
//! every variable its actions mention and writes every variable they assign,
//! so it is only taken in a state that holds all of them.
use crate::predicate::{
    contains_name, holds, operand_covered, operand_mentions, operand_value, predicate_covered,
    predicate_mentions, push_name, Predicate, PredicateView, SPWrapped, WrappedView,
};
use crate::state::{SPVariable, State};
use crate::value::SPValueView;
use vstd::prelude::*;

verus! {

/// Assigns the value of `var_or_val` to `var`.
#[derive(Debug, PartialEq)]
pub struct Action {
    pub var: SPVariable,
    pub var_or_val: SPWrapped,
}

/// Two guards and the actions taken when both hold.
#[derive(Debug, PartialEq)]
pub struct Transition {
    pub name: String,
    pub guard: Predicate,
    pub runner_guard: Predicate,
    pub actions: Vec<Action>,
    pub runner_actions: Vec<Action>,
}

/// The content of an action: the assigned variable's name and the operand.
pub struct ActionView {
    pub var: Seq<char>,
    pub rhs: WrappedView,
}

/// The content of a transition.
pub struct TransitionView {
    pub name: Seq<char>,
    pub guard: PredicateView,
    pub runner_guard: PredicateView,
    pub actions: Seq<ActionView>,
    pub runner_actions: Seq<ActionView>,
}

impl View for Action {
    type V = ActionView;

    open spec fn view(&self) -> ActionView {
        ActionView { var: self.var.name@, rhs: self.var_or_val@ }
    }
}

/// The views of a list of actions.
pub open spec fn action_views(v: Seq<Action>) -> Seq<ActionView> {
    Seq::new(v.len(), |i: int| v[i]@)
}

impl View for Transition {
    type V = TransitionView;

    open spec fn view(&self) -> TransitionView {
        TransitionView {
            name: self.name@,
            guard: self.guard@,
            runner_guard: self.runner_guard@,
            actions: action_views(self.actions@),
            runner_actions: action_views(self.runner_actions@),
        }
    }
}

/// The views of a list of transitions.
pub open spec fn transition_views(v: Seq<Transition>) -> Seq<TransitionView> {
    Seq::new(v.len(), |i: int| v[i]@)
}

/// A state in the specifications: variable names to values.
pub type StateMap = Map<Seq<char>, SPValueView>;

// ----------------------------------------------------------------------------
// What an action or transition does.
/// Whether `m` holds every variable the action reads or writes.
pub open spec fn action_covered(a: ActionView, m: StateMap) -> bool {
    m.contains_key(a.var) && operand_covered(a.rhs, m)
}

/// Whether `m` holds every variable the actions read or write.
pub open spec fn actions_covered(s: Seq<ActionView>, m: StateMap) -> bool {
    forall|i: int| 0 <= i < s.len() ==> action_covered(#[trigger] s[i], m)
}

/// The state after the action.
pub open spec fn apply_action(a: ActionView, m: StateMap) -> StateMap {
    m.insert(a.var, operand_value(a.rhs, m))
}

/// The state after the actions, taken in order.
pub open spec fn apply_actions(s: Seq<ActionView>, m: StateMap) -> StateMap
    decreases s.len(),
{
    if s.len() == 0 {
        m
    } else {
        apply_action(s.last(), apply_actions(s.drop_last(), m))
    }
}

/// Whether both guards of the transition hold.
pub open spec fn guards_hold(t: TransitionView, m: StateMap) -> bool {
    holds(t.guard, m) && holds(t.runner_guard, m)
}

/// Whether `m` holds every variable the transition reads or writes.
pub open spec fn transition_covered(t: TransitionView, m: StateMap) -> bool {
    predicate_covered(t.guard, m) && predicate_covered(t.runner_guard, m) && actions_covered(
        t.actions,
        m,
    ) && actions_covered(t.runner_actions, m)
}

/// Whether `m` holds every variable that the transitions read or write.
pub open spec fn transitions_covered(s: Seq<TransitionView>, m: StateMap) -> bool {
    forall|i: int| 0 <= i < s.len() ==> transition_covered(#[trigger] s[i], m)
}

/// The state after taking the transition: its actions, then its runner actions.
pub open spec fn take_transition(t: TransitionView, m: StateMap) -> StateMap {
    apply_actions(t.runner_actions, apply_actions(t.actions, m))
}

/// The first of `s[k..]` whose guards hold, if any.
pub open spec fn first_holding_from(s: Seq<TransitionView>, m: StateMap, k: int) -> Option<
    TransitionView,
>
    decreases s.len() - k,
{
    if k < 0 || k >= s.len() {
        None
    } else if guards_hold(s[k], m) {
        Some(s[k])
    } else {
        first_holding_from(s, m, k + 1)
    }
}

/// The first transition whose guards hold, if any.
pub open spec fn first_holding(s: Seq<TransitionView>, m: StateMap) -> Option<TransitionView> {
    first_holding_from(s, m, 0)
}

/// The state after taking the first transition whose guards hold; `m` when none does.
pub open spec fn take_first(s: Seq<TransitionView>, m: StateMap) -> StateMap {
    match first_holding(s, m) {
        Some(t) => take_transition(t, m),
        None => m,
    }
}

/// Whether the action mentions the variable `n`, as target or in its operand.
pub open spec fn action_mentions(a: ActionView, n: Seq<char>) -> bool {
    a.var == n || operand_mentions(a.rhs, n)
}

/// Whether the transition mentions the variable `n` anywhere.
pub open spec fn transition_mentions(t: TransitionView, n: Seq<char>) -> bool {
    predicate_mentions(t.guard, n) || predicate_mentions(t.runner_guard, n) || (exists|i: int|
        0 <= i < t.actions.len() && action_mentions(#[trigger] t.actions[i], n)) || (exists|i: int|
        0 <= i < t.runner_actions.len() && action_mentions(#[trigger] t.runner_actions[i], n))
}

// ----------------------------------------------------------------------------
// Lemmas.
/// Coverage depends on the names a state holds, not on their values.
pub proof fn lemma_covered_same_domain(m1: StateMap, m2: StateMap)
    requires
        m1.dom() == m2.dom(),
    ensures
        forall|w: WrappedView| #[trigger] operand_covered(w, m1) == operand_covered(w, m2),
        forall|p: PredicateView| #[trigger] predicate_covered(p, m1) == predicate_covered(p, m2),
        forall|a: ActionView| #[trigger] action_covered(a, m1) == action_covered(a, m2),
        forall|s: Seq<ActionView>| #[trigger] actions_covered(s, m1) == actions_covered(s, m2),
        forall|t: TransitionView| #[trigger] transition_covered(t, m1) == transition_covered(t, m2),
        forall|s: Seq<TransitionView>| #[trigger] transitions_covered(s, m1) == transitions_covered(
            s,
            m2,
        ),
{
    assert forall|w: WrappedView| #[trigger] operand_covered(w, m1) == operand_covered(w, m2) by {
        assert forall|n: Seq<char>| m1.contains_key(n) == m2.contains_key(n) by {
            assert(m1.dom().contains(n) == m2.dom().contains(n));
        }
    }
    assert forall|p: PredicateView| #[trigger] predicate_covered(p, m1) == predicate_covered(p, m2) by {
        assert forall|n: Seq<char>| m1.contains_key(n) == m2.contains_key(n) by {
            assert(m1.dom().contains(n) == m2.dom().contains(n));
        }
    }
    assert forall|a: ActionView| #[trigger] action_covered(a, m1) == action_covered(a, m2) by {
        assert(m1.dom().contains(a.var) == m2.dom().contains(a.var));
        assert(operand_covered(a.rhs, m1) == operand_covered(a.rhs, m2));
    }
    assert forall|s: Seq<ActionView>| #[trigger] actions_covered(s, m1) == actions_covered(s, m2) by {
        assert forall|i: int| 0 <= i < s.len() implies action_covered(#[trigger] s[i], m1)
            == action_covered(s[i], m2) by {
            assert(action_covered(s[i], m1) == action_covered(s[i], m2));
        }
    }
    assert forall|t: TransitionView| #[trigger] transition_covered(t, m1) == transition_covered(
        t,
        m2,
    ) by {
        assert(predicate_covered(t.guard, m1) == predicate_covered(t.guard, m2));
        assert(predicate_covered(t.runner_guard, m1) == predicate_covered(t.runner_guard, m2));
        assert(actions_covered(t.actions, m1) == actions_covered(t.actions, m2));
        assert(actions_covered(t.runner_actions, m1) == actions_covered(t.runner_actions, m2));
    }
    assert forall|s: Seq<TransitionView>| #[trigger] transitions_covered(s, m1)
        == transitions_covered(s, m2) by {
        assert forall|i: int| 0 <= i < s.len() implies transition_covered(#[trigger] s[i], m1)
            == transition_covered(s[i], m2) by {
            assert(transition_covered(s[i], m1) == transition_covered(s[i], m2));
        }
    }
}

/// Taking covered actions changes values only, never which names the state holds.
pub proof fn lemma_apply_actions_domain(s: Seq<ActionView>, m: StateMap)
    requires
        actions_covered(s, m),
    ensures
        apply_actions(s, m).dom() == m.dom(),
    decreases s.len(),
{
    if s.len() > 0 {
        assert forall|i: int| 0 <= i < s.drop_last().len() implies action_covered(
            #[trigger] s.drop_last()[i],
            m,
        ) by {
            assert(s.drop_last()[i] == s[i]);
        }
        lemma_apply_actions_domain(s.drop_last(), m);
        assert(action_covered(s[s.len() - 1], m));
        assert(apply_actions(s, m).dom() =~= m.dom());
    }
}

/// Taking a covered transition changes values only.
pub proof fn lemma_take_transition_domain(t: TransitionView, m: StateMap)
    requires
        transition_covered(t, m),
    ensures
        take_transition(t, m).dom() == m.dom(),
{
    lemma_apply_actions_domain(t.actions, m);
    let m1 = apply_actions(t.actions, m);
    lemma_covered_same_domain(m, m1);
    lemma_apply_actions_domain(t.runner_actions, m1);
}

/// The first holding transition is one of the list, and its guards hold.
pub proof fn lemma_first_holding_from(s: Seq<TransitionView>, m: StateMap, k: int)
    requires
        0 <= k <= s.len(),
    ensures
        match first_holding_from(s, m, k) {
            Some(t) => exists|i: int| k <= i < s.len() && s[i] == t && guards_hold(t, m),
            None => forall|i: int| k <= i < s.len() ==> !guards_hold(#[trigger] s[i], m),
        },
    decreases s.len() - k,
{
    if k < s.len() {
        lemma_first_holding_from(s, m, k + 1);
    }
}

/// Taking the first holding covered transition changes values only.
pub proof fn lemma_take_first_domain(s: Seq<TransitionView>, m: StateMap)
    requires
        transitions_covered(s, m),
    ensures
        take_first(s, m).dom() == m.dom(),
{
    lemma_first_holding_from(s, m, 0);
    match first_holding(s, m) {
        Some(t) => {
            let i = choose|i: int| 0 <= i < s.len() && s[i] == t && guards_hold(t, m);
            assert(transition_covered(s[i], m));
            lemma_take_transition_domain(t, m);
        },
        None => {},
    }
}

// ----------------------------------------------------------------------------
// Executable operations.
impl Action {
    pub fn new(var: SPVariable, var_or_val: SPWrapped) -> (a: Action)
        ensures
            a.var == var,
            a.var_or_val == var_or_val,
    {
        Action { var, var_or_val }
    }

    /// A copy of the action.
    pub fn duplicate(&self) -> (r: Action)
        ensures
            r@ == self@,
    {
        Action {
            var: SPVariable { name: self.var.name.clone(), value_type: self.var.value_type },
            var_or_val: self.var_or_val.duplicate(),
        }
    }

    /// Assigns the operand's value to the variable.
    pub fn assign_mut(&self, state: &mut State)
        requires
            action_covered(self@, old(state)@),
        ensures
            final(state)@ == apply_action(self@, old(state)@),
    {
        let v = self.var_or_val.value_in(state);
        state.update_mut(self.var.name.as_str(), v);
    }
}

/// Copies of the actions.
pub fn duplicate_actions(v: &Vec<Action>) -> (r: Vec<Action>)
    ensures
        action_views(r@) == action_views(v@),
{
    let mut out: Vec<Action> = Vec::new();
    let mut i: usize = 0;
    while i < v.len()
        invariant
            i <= v.len(),
            out.len() == i,
            forall|j: int| 0 <= j < i ==> #[trigger] out[j]@ == v[j]@,
        decreases v.len() - i,
    {
        out.push(v[i].duplicate());
        i += 1;
    }
    assert(action_views(out@) =~= action_views(v@));
    out
}

/// Takes the actions in order.
pub fn apply_all(v: &Vec<Action>, state: &mut State)
    requires
        actions_covered(action_views(v@), old(state)@),
    ensures
        final(state)@ == apply_actions(action_views(v@), old(state)@),
{
    let ghost start = state@;
    let ghost s = action_views(v@);
    let mut i: usize = 0;
    while i < v.len()
        invariant
            i <= v.len(),
            s == action_views(v@),
            actions_covered(s, start),
            state@ == apply_actions(s.take(i as int), start),
        decreases v.len() - i,
    {
        proof {
            assert forall|j: int| 0 <= j < s.take(i as int).len() implies action_covered(
                #[trigger] s.take(i as int)[j],
                start,
            ) by {
                assert(s.take(i as int)[j] == s[j]);
            }
            lemma_apply_actions_domain(s.take(i as int), start);
            lemma_covered_same_domain(start, state@);
            assert(action_covered(s[i as int], start));
            assert(s[i as int] == v[i as int]@);
        }
        v[i].assign_mut(state);
        proof {
            assert(s.take(i + 1).drop_last() =~= s.take(i as int));
            assert(s.take(i + 1).last() == s[i as int]);
        }
        i += 1;
    }
    assert(s.take(v.len() as int) =~= s);
}

/// Appends the names every action mentions.
fn collect_action_keys(v: &Vec<Action>, out: &mut Vec<String>)
    ensures
        forall|n: Seq<char>| #[trigger] contains_name(final(out)@, n) == (contains_name(old(out)@, n)
            || exists|i: int| 0 <= i < v.len() && action_mentions(#[trigger] v[i]@, n)),
{
    let ghost start = out@;
    let mut i: usize = 0;
    while i < v.len()
        invariant
            i <= v.len(),
            forall|n: Seq<char>| #[trigger] contains_name(out@, n) == (contains_name(start, n) || exists|j: int|
                0 <= j < i && action_mentions(#[trigger] v[j]@, n)),
        decreases v.len() - i,
    {
        push_name(out, v[i].var.name.clone());
        v[i].var_or_val.collect_var_keys(out);
        proof {
            assert forall|n: Seq<char>| #[trigger] contains_name(out@, n) == (contains_name(start, n)
                || exists|j: int| 0 <= j < i + 1 && action_mentions(#[trigger] v[j]@, n)) by {
                if action_mentions(v[i as int]@, n) {
                    assert(exists|j: int| 0 <= j < i + 1 && action_mentions(#[trigger] v[j]@, n));
                }
                if exists|j: int| 0 <= j < i + 1 && action_mentions(#[trigger] v[j]@, n) {
                    let j = choose|j: int| 0 <= j < i + 1 && action_mentions(#[trigger] v[j]@, n);
                    if j < i {
                        assert(exists|j: int| 0 <= j < i && action_mentions(#[trigger] v[j]@, n));
                    }
                }
            }
        }
        i += 1;
    }
}

impl Transition {
    pub fn new(
        name: &str,
        guard: Predicate,
        runner_guard: Predicate,
        actions: Vec<Action>,
        runner_actions: Vec<Action>,
    ) -> (t: Transition)
        ensures
            t.name@ == name@,
            t.guard == guard,
            t.runner_guard == runner_guard,
            t.actions == actions,
            t.runner_actions == runner_actions,
    {
        Transition { name: String::from_str(name), guard, runner_guard, actions, runner_actions }
    }

    /// A copy of the transition.
    pub fn duplicate(&self) -> (r: Transition)
        ensures
            r@ == self@,
    {
        Transition {
            name: self.name.clone(),
            guard: self.guard.duplicate(),
            runner_guard: self.runner_guard.duplicate(),
            actions: duplicate_actions(&self.actions),
            runner_actions: duplicate_actions(&self.runner_actions),
        }
    }

    /// Whether both guards hold.
    pub fn eval(&self, state: &State, log_target: &str) -> (r: bool)
        requires
            predicate_covered(self@.guard, state@),
            predicate_covered(self@.runner_guard, state@),
        ensures
            r == guards_hold(self@, state@),
    {
        self.guard.eval(state, log_target) && self.runner_guard.eval(state, log_target)
    }

    /// Takes the actions, then the runner actions.
    pub fn take(&self, state: &State, log_target: &str) -> (r: State)
        requires
            transition_covered(self@, state@),
        ensures
            r@ == take_transition(self@, state@),
    {
        let mut s = state.duplicate();
        apply_all(&self.actions, &mut s);
        proof {
            lemma_apply_actions_domain(self@.actions, state@);
            lemma_covered_same_domain(state@, s@);
        }
        apply_all(&self.runner_actions, &mut s);
        s
    }

    /// The names of every variable the transition mentions, in its guards or
    /// its actions, targets and operands alike.
    pub fn get_all_var_keys(&self) -> (r: Vec<String>)
        ensures
            forall|n: Seq<char>| #[trigger] contains_name(r@, n) == transition_mentions(self@, n),
    {
        let mut out: Vec<String> = Vec::new();
        self.guard.collect_var_keys(&mut out);
        self.runner_guard.collect_var_keys(&mut out);
        collect_action_keys(&self.actions, &mut out);
        collect_action_keys(&self.runner_actions, &mut out);
        proof {
            assert forall|n: Seq<char>| #[trigger] contains_name(out@, n) == transition_mentions(
                self@,
                n,
            ) by {
                assert(!contains_name(Seq::<String>::empty(), n));
                if exists|i: int| 0 <= i < self.actions.len() && action_mentions(
                    #[trigger] self.actions[i]@,
                    n,
                ) {
                    let i = choose|i: int| 0 <= i < self.actions.len() && action_mentions(
                        #[trigger] self.actions[i]@,
                        n,
                    );
                    assert(self@.actions[i] == self.actions[i]@);
                }
                if exists|i: int| 0 <= i < self@.actions.len() && action_mentions(
                    #[trigger] self@.actions[i],
                    n,
                ) {
                    let i = choose|i: int| 0 <= i < self@.actions.len() && action_mentions(
                        #[trigger] self@.actions[i],
                        n,
                    );
                    assert(self@.actions[i] == self.actions[i]@);
                }
                if exists|i: int| 0 <= i < self.runner_actions.len() && action_mentions(
                    #[trigger] self.runner_actions[i]@,
                    n,
                ) {
                    let i = choose|i: int| 0 <= i < self.runner_actions.len() && action_mentions(
                        #[trigger] self.runner_actions[i]@,
                        n,
                    );
                    assert(self@.runner_actions[i] == self.runner_actions[i]@);
                }
                if exists|i: int| 0 <= i < self@.runner_actions.len() && action_mentions(
                    #[trigger] self@.runner_actions[i],
                    n,
                ) {
                    let i = choose|i: int| 0 <= i < self@.runner_actions.len() && action_mentions(
                        #[trigger] self@.runner_actions[i],
                        n,
                    );
                    assert(self@.runner_actions[i] == self.runner_actions[i]@);
                }
            }
        }
        out
    }
}

/// Copies of the transitions.
pub fn duplicate_transitions(v: &Vec<Transition>) -> (r: Vec<Transition>)
    ensures
        transition_views(r@) == transition_views(v@),
{
    let mut out: Vec<Transition> = Vec::new();
    let mut i: usize = 0;
    while i < v.len()
        invariant
            i <= v.len(),
            out.len() == i,
            forall|j: int| 0 <= j < i ==> #[trigger] out[j]@ == v[j]@,
        decreases v.len() - i,
    {
        out.push(v[i].duplicate());
        i += 1;
    }
    assert(transition_views(out@) =~= transition_views(v@));
    out
}

/// The index of the first transition whose guards hold, if any.
pub fn find_holding(v: &Vec<Transition>, state: &State, log_target: &str) -> (r: Option<usize>)
    requires
        transitions_covered(transition_views(v@), state@),
    ensures
        match r {
            Some(i) => i < v.len() && first_holding(transition_views(v@), state@) == Some(v[i as int]@),
            None => first_holding(transition_views(v@), state@) is None,
        },
{
    let ghost s = transition_views(v@);
    let mut i: usize = 0;
    while i < v.len()
        invariant
            i <= v.len(),
            s == transition_views(v@),
            transitions_covered(s, state@),
            first_holding_from(s, state@, 0) == first_holding_from(s, state@, i as int),
        decreases v.len() - i,
    {
        assert(transition_covered(s[i as int], state@));
        assert(s[i as int] == v[i as int]@);
        if v[i].eval(state, log_target) {
            return Some(i);
        }
        i += 1;
    }
    None
}

/// Takes the first transition whose guards hold; leaves the state as it is
/// when none does.
pub fn take_first_holding(v: &Vec<Transition>, state: &State, log_target: &str) -> (r: State)
    requires
        transitions_covered(transition_views(v@), state@),
    ensures
        r@ == take_first(transition_views(v@), state@),
{
    match find_holding(v, state, log_target) {
        Some(i) => {
            assert(transition_views(v@)[i as int] == v[i as int]@);
            assert(transition_covered(transition_views(v@)[i as int], state@));
            v[i].take(state, log_target)
        },
        None => state.duplicate(),
    }
}

impl Clone for Action {
    fn clone(&self) -> (r: Action)
        ensures
            r@ == self@,
    {
        self.duplicate()
    }
}

impl Clone for Transition {
    fn clone(&self) -> (r: Transition)
        ensures
            r@ == self@,
    {
        self.duplicate()
    }
}

} // verus!
