//! The decisions of one tick of the automatic operation runner.
//!
//! The runner keeps, between ticks, the automatic operations it is driving,
//! each a copy of a template under a fresh name (the template's name, `_`
//! and an id), and at most one mutually exclusive operation.  Each tick:
//!
//! * every automatic template whose start guard holds in the state read
//!   starts a copy, unless a copy of it (a name behind `{template}_`) is
//!   already running;
//! * with no mutually exclusive operation running, the first such template
//!   whose start guard holds starts a copy;
//! * the started copies get their lifecycle and bookkeeping variables;
//! * every running copy, then the mutually exclusive one, advances one
//!   tick, each on the state the ones before it left; a copy that has
//!   terminated is dropped and its variables are to be deleted.
use crate::ids::{is_id, new_id};
use crate::operation::{op_can_start, op_state, operation_views, Operation, OperationState, OperationView};
use crate::process::{disabled_key, executing_key, failure_key, info_key, process_operation, tick_covered, tick_decision, tick_state, timeout_key, OperationProcessingType};
use crate::runner_keys::{model_mentions, names_of, op_keys, ops_mention};
use crate::sop::Model;
use crate::sop_driver::{operations_keys, with_started};
use crate::state::State;
use crate::state_init::{add_operation_meta_tracking_variables, add_operation_state_tracking_variable, with_metas};
use crate::text::{concat, has_prefix, starts_with};
use crate::transition::{transition_mentions, transitions_covered, StateMap, TransitionView};
use vstd::prelude::*;

verus! {

/// What the automatic operation runner keeps between ticks.
pub struct AutoOperationRunner {
    pub active: Vec<Operation>,
    pub mutexed: Option<Operation>,
}

/// The content of the runner's memory.
pub struct AutoRunnerView {
    pub active: Seq<OperationView>,
    pub mutexed: Option<OperationView>,
}

impl View for AutoOperationRunner {
    type V = AutoRunnerView;

    open spec fn view(&self) -> AutoRunnerView {
        AutoRunnerView {
            active: operation_views(self.active@),
            mutexed: match self.mutexed {
                Some(o) => Some(o@),
                None => None,
            },
        }
    }
}

impl AutoOperationRunner {
    /// A runner driving nothing.
    pub fn new() -> (r: AutoOperationRunner)
        ensures
            r@.active.len() == 0,
            r@.mutexed is None,
    {
        AutoOperationRunner { active: Vec::new(), mutexed: None }
    }
}

/// The names of the operations the runner drives: the automatic ones, then
/// the mutually exclusive one.
pub open spec fn driven_names(r: AutoRunnerView) -> Seq<Seq<char>> {
    let a = Seq::new(r.active.len(), |i: int| r.active[i].name);
    match r.mutexed {
        Some(x) => a.push(x.name),
        None => a,
    }
}

/// Whether one of the operations has a name behind `p`.
pub open spec fn prefix_taken(act: Seq<OperationView>, p: Seq<char>) -> bool {
    exists|i: int| 0 <= i < act.len() && has_prefix(#[trigger] act[i].name, p)
}

/// The copy of `o` under the name `name`.
pub open spec fn copy_named(o: OperationView, name: Seq<char>) -> OperationView {
    OperationView { name: name, ..o }
}

/// The running operations and the names of the copies started, after the
/// first `n` templates have been looked at; a started copy takes the next
/// unused one of `ids`.
pub open spec fn auto_activation(
    ops: Seq<OperationView>,
    act: Seq<OperationView>,
    m: StateMap,
    ids: Seq<Seq<char>>,
    n: int,
) -> (Seq<OperationView>, Seq<Seq<char>>)
    decreases n,
{
    if n <= 0 {
        (act, Seq::empty())
    } else {
        let (a, started) = auto_activation(ops, act, m, ids, n - 1);
        let o = ops[n - 1];
        if op_can_start(o, m) && !prefix_taken(a, o.name + "_"@) {
            let name = o.name + "_"@ + ids[started.len() as int];
            (a.push(copy_named(o, name)), started.push(name))
        } else {
            (a, started)
        }
    }
}

/// How many of the first `n` templates may start.
pub open spec fn enabled_count(ops: Seq<OperationView>, m: StateMap, n: int) -> nat
    decreases n,
{
    if n <= 0 {
        0
    } else {
        enabled_count(ops, m, n - 1) + if op_can_start(ops[n - 1], m) {
            1nat
        } else {
            0nat
        }
    }
}

/// The first of the templates `ops[k..]` that may start.
pub open spec fn first_enabled(ops: Seq<OperationView>, m: StateMap, k: int) -> Option<int>
    decreases ops.len() - k,
{
    if k < 0 || k >= ops.len() {
        None
    } else if op_can_start(ops[k], m) {
        Some(k)
    } else {
        first_enabled(ops, m, k + 1)
    }
}

/// One tick of an automatic operation.
pub open spec fn auto_tick(sp: Seq<char>, o: OperationView, m: StateMap, tick: i64) -> StateMap {
    tick_state(o, tick_decision(sp, o, m, OperationProcessingType::Automatic, 0, Seq::empty(), tick))
}

/// The state after the first `n` operations of `act` have each advanced a
/// tick, the ones of them still running, and the names of the ones that
/// terminated.
pub open spec fn advance_all(sp: Seq<char>, act: Seq<OperationView>, m: StateMap, tick: i64, n: int) -> (
    StateMap,
    Seq<OperationView>,
    Seq<Seq<char>>,
)
    decreases n,
{
    if n <= 0 {
        (m, Seq::empty(), Seq::empty())
    } else {
        let (m1, kept, ended) = advance_all(sp, act, m, tick, n - 1);
        let o = act[n - 1];
        let m2 = auto_tick(sp, o, m1, tick);
        if op_state(o, m2) is Terminated {
            (m2, kept, ended.push(o.name))
        } else {
            (m2, kept.push(o), ended)
        }
    }
}

/// What one tick decides: the runner's memory afterwards, the state to
/// write back, the variables to delete, and whether the set of variables
/// to read has changed.
pub struct AutoStep {
    pub runner: AutoRunnerView,
    pub m: StateMap,
    pub removed: Seq<Seq<char>>,
    pub keys_changed: bool,
}

/// The mutually exclusive operation after the start of a tick, and the
/// names started so far.
pub open spec fn mutexed_activation(
    mutexed: Seq<OperationView>,
    current: Option<OperationView>,
    m: StateMap,
    ids: Seq<Seq<char>>,
    started: Seq<Seq<char>>,
) -> (Option<OperationView>, Seq<Seq<char>>) {
    match current {
        Some(x) => (Some(x), started),
        None => match first_enabled(mutexed, m, 0) {
            Some(j) => {
                let o = mutexed[j];
                let name = o.name + "_"@ + ids[started.len() as int];
                (Some(copy_named(o, name)), started.push(name))
            },
            None => (None, started),
        },
    }
}

/// One tick of the automatic operation runner, where the copies started
/// take their ids from `ids` in turn.
pub open spec fn auto_operation_step(
    sp: Seq<char>,
    model: Model,
    r: AutoRunnerView,
    m: StateMap,
    tick: i64,
    ids: Seq<Seq<char>>,
) -> AutoStep {
    let ops = operation_views(model.auto_operations@);
    let (act1, started1) = auto_activation(ops, r.active, m, ids, ops.len() as int);
    let (mx1, started) = mutexed_activation(
        operation_views(model.mutexed_auto_operations@),
        r.mutexed,
        m,
        ids,
        started1,
    );
    let m1 = with_started(started, m);
    let (m2, kept, ended1) = advance_all(sp, act1, m1, tick, act1.len() as int);
    let (m3, mx2, ended) = match mx1 {
        Some(x) => {
            let mm = auto_tick(sp, x, m2, tick);
            if op_state(x, mm) is Terminated {
                (mm, None, ended1.push(x.name))
            } else {
                (mm, Some(x), ended1)
            }
        },
        None => (m2, None, ended1),
    };
    AutoStep {
        runner: AutoRunnerView { active: kept, mutexed: mx2 },
        m: m3,
        removed: operations_keys(ended),
        keys_changed: started.len() > 0 || ended.len() > 0,
    }
}

/// Whether `m` holds every variable of the operation's transitions.
pub open spec fn op_transitions_covered(o: OperationView, m: StateMap) -> bool {
    &&& transitions_covered(o.preconditions, m)
    &&& transitions_covered(o.postconditions, m)
    &&& transitions_covered(o.fail_transitions, m)
    &&& transitions_covered(o.timeout_transitions, m)
    &&& transitions_covered(o.bypass_transitions, m)
    &&& transitions_covered(o.cancel_transitions, m)
}

/// Whether a tick can run on `m`: it holds the variables of every
/// template's transitions, and what a tick of each running operation reads
/// and writes.
pub open spec fn auto_tick_ready(model: Model, r: AutoRunnerView, m: StateMap) -> bool {
    &&& forall|i: int| 0 <= i < model.auto_operations.len() ==> op_transitions_covered(#[trigger] model.auto_operations[i]@, m)
    &&& forall|i: int| 0 <= i < model.mutexed_auto_operations.len() ==> op_transitions_covered(
        #[trigger] model.mutexed_auto_operations[i]@,
        m,
    )
    &&& forall|i: int| 0 <= i < r.active.len() ==> tick_covered(#[trigger] r.active[i], m)
    &&& (r.mutexed matches Some(x) ==> tick_covered(x, m))
}


/// What a tick hands back to the loop around it.
pub struct AutoTickOutcome {
    /// The state to write back.
    pub state: State,
    /// The variables to delete.
    pub removed: Vec<String>,
    /// Whether the set of variables to read has changed.
    pub keys_changed: bool,
    /// The names of the operations driven after the tick.
    pub active_operations: Vec<String>,
}

// ----------------------------------------------------------------------------
// Lemmas.
/// Transitions covered by a state are covered by any state with more variables.
proof fn lemma_transitions_covered_grow(s: Seq<TransitionView>, m1: StateMap, m2: StateMap)
    requires
        transitions_covered(s, m1),
        forall|k: Seq<char>| m1.contains_key(k) ==> #[trigger] m2.contains_key(k),
    ensures
        transitions_covered(s, m2),
{
    assert forall|i: int| 0 <= i < s.len() implies crate::transition::transition_covered(#[trigger] s[i], m2) by {
        let t = s[i];
        assert(crate::transition::transition_covered(t, m1));
        assert forall|n: Seq<char>| #[trigger] crate::predicate::predicate_mentions(t.guard, n) implies m2.contains_key(n) by {
            assert(m1.contains_key(n));
        }
        assert forall|n: Seq<char>| #[trigger] crate::predicate::predicate_mentions(t.runner_guard, n) implies m2.contains_key(n) by {
            assert(m1.contains_key(n));
        }
        assert forall|j: int| 0 <= j < t.actions.len() implies crate::transition::action_covered(#[trigger] t.actions[j], m2) by {
            assert(crate::transition::action_covered(t.actions[j], m1));
            assert forall|n: Seq<char>| #[trigger] crate::predicate::operand_mentions(t.actions[j].rhs, n) implies m2.contains_key(n) by {
                assert(m1.contains_key(n));
            }
        }
        assert forall|j: int| 0 <= j < t.runner_actions.len() implies crate::transition::action_covered(#[trigger] t.runner_actions[j], m2) by {
            assert(crate::transition::action_covered(t.runner_actions[j], m1));
            assert forall|n: Seq<char>| #[trigger] crate::predicate::operand_mentions(t.runner_actions[j].rhs, n) implies m2.contains_key(n) by {
                assert(m1.contains_key(n));
            }
        }
    }
}

/// What a tick of an operation needs stays there when variables are added.
pub proof fn lemma_tick_covered_grow(o: OperationView, m1: StateMap, m2: StateMap)
    requires
        tick_covered(o, m1),
        forall|k: Seq<char>| m1.contains_key(k) ==> #[trigger] m2.contains_key(k),
    ensures
        tick_covered(o, m2),
{
    lemma_transitions_covered_grow(o.preconditions, m1, m2);
    lemma_transitions_covered_grow(o.postconditions, m1, m2);
    lemma_transitions_covered_grow(o.fail_transitions, m1, m2);
    lemma_transitions_covered_grow(o.timeout_transitions, m1, m2);
    lemma_transitions_covered_grow(o.bypass_transitions, m1, m2);
    lemma_transitions_covered_grow(o.cancel_transitions, m1, m2);
    assert(m2.contains_key(o.name));
    assert(m2.contains_key(info_key(o)));
    assert(m2.contains_key(failure_key(o)));
    assert(m2.contains_key(timeout_key(o)));
    assert(m2.contains_key(executing_key(o)));
    assert(m2.contains_key(disabled_key(o)));
}

/// Adding bookkeeping variables keeps the variables there were and adds
/// each operation's.
pub proof fn lemma_with_metas_holds(names: Seq<Seq<char>>, m: StateMap, cov: bool)
    ensures
        forall|k: Seq<char>| m.contains_key(k) ==> #[trigger] with_metas(names, m, cov).contains_key(k),
        forall|j: int| #![trigger names[j]] 0 <= j < names.len() ==> {
            let w = with_metas(names, m, cov);
            &&& w.contains_key(names[j] + "_information"@)
            &&& w.contains_key(names[j] + "_elapsed_executing_ms"@)
            &&& w.contains_key(names[j] + "_elapsed_disabled_ms"@)
            &&& w.contains_key(names[j] + "_failure_retry_counter"@)
            &&& w.contains_key(names[j] + "_timeout_retry_counter"@)
        },
    decreases names.len(),
{
    if names.len() > 0 {
        let p = names.drop_last();
        lemma_with_metas_holds(p, m, cov);
        assert forall|k: Seq<char>| m.contains_key(k) implies #[trigger] with_metas(names, m, cov).contains_key(k) by {
            assert(with_metas(p, m, cov).contains_key(k));
        }
        assert forall|j: int| #![trigger names[j]] 0 <= j < names.len() - 1 implies names[j] == p[j] by {}
    }
}

/// A started copy finds what its tick needs once the started copies' variables are added.
proof fn lemma_started_covered(o: OperationView, names: Seq<Seq<char>>, m: StateMap)
    requires
        op_transitions_covered(o, m),
        names.contains(o.name),
    ensures
        tick_covered(o, with_started(names, m)),
{
    let w = with_started(names, m);
    lemma_with_metas_holds(names, m, false);
    let j = choose|j: int| 0 <= j < names.len() && names[j] == o.name;
    assert(names[j] == o.name);
    assert forall|k: Seq<char>| m.contains_key(k) implies #[trigger] w.contains_key(k) by {
        assert(with_metas(names, m, false).contains_key(k));
    }
    lemma_transitions_covered_grow(o.preconditions, m, w);
    lemma_transitions_covered_grow(o.postconditions, m, w);
    lemma_transitions_covered_grow(o.fail_transitions, m, w);
    lemma_transitions_covered_grow(o.timeout_transitions, m, w);
    lemma_transitions_covered_grow(o.bypass_transitions, m, w);
    lemma_transitions_covered_grow(o.cancel_transitions, m, w);
    assert(w.contains_key(o.name));
    assert(with_metas(names, m, false).contains_key(info_key(o)));
    assert(with_metas(names, m, false).contains_key(failure_key(o)));
    assert(with_metas(names, m, false).contains_key(timeout_key(o)));
    assert(with_metas(names, m, false).contains_key(executing_key(o)));
    assert(with_metas(names, m, false).contains_key(disabled_key(o)));
}

/// No more copies start than templates may start.
proof fn lemma_activation_count(ops: Seq<OperationView>, act: Seq<OperationView>, m: StateMap, ids: Seq<Seq<char>>, n: int)
    requires
        0 <= n <= ops.len(),
    ensures
        auto_activation(ops, act, m, ids, n).1.len() <= enabled_count(ops, m, n),
        forall|k: int| 0 <= k <= n ==> enabled_count(ops, m, k) <= enabled_count(ops, m, n),
    decreases n,
{
    if n > 0 {
        lemma_activation_count(ops, act, m, ids, n - 1);
    }
}

// ----------------------------------------------------------------------------
// The tick.
/// Whether one of the operations has a name behind `p`.
fn any_has_prefix(v: &Vec<Operation>, p: &str) -> (r: bool)
    ensures
        r == prefix_taken(operation_views(v@), p@),
{
    let mut i: usize = 0;
    while i < v.len()
        invariant
            i <= v.len(),
            forall|j: int| 0 <= j < i ==> !has_prefix(#[trigger] v[j]@.name, p@),
        decreases v.len() - i,
    {
        if starts_with(v[i].name.as_str(), p) {
            assert(operation_views(v@)[i as int] == v[i as int]@);
            assert(has_prefix(operation_views(v@)[i as int].name, p@));
            return true;
        }
        i += 1;
    }
    assert forall|j: int| 0 <= j < operation_views(v@).len() implies !has_prefix(#[trigger] operation_views(v@)[j].name, p@) by {
        assert(operation_views(v@)[j] == v[j]@);
    }
    false
}

/// How many of the templates may start.
fn count_enabled(ops: &Vec<Operation>, state: &State, log_target: &str) -> (c: usize)
    requires
        forall|i: int| 0 <= i < ops.len() ==> transitions_covered(#[trigger] ops[i]@.preconditions, state@),
    ensures
        c == enabled_count(operation_views(ops@), state@, ops.len() as int),
        c <= ops.len(),
{
    let mut c: usize = 0;
    let mut i: usize = 0;
    while i < ops.len()
        invariant
            i <= ops.len(),
            c == enabled_count(operation_views(ops@), state@, i as int),
            c <= i,
            forall|i: int| 0 <= i < ops.len() ==> transitions_covered(#[trigger] ops[i]@.preconditions, state@),
        decreases ops.len() - i,
    {
        assert(operation_views(ops@)[i as int] == ops[i as int]@);
        if ops[i].eval(state, log_target) {
            c += 1;
        }
        i += 1;
    }
    c
}

/// The first of the templates that may start.
fn first_enabled_index(ops: &Vec<Operation>, state: &State, log_target: &str) -> (r: Option<usize>)
    requires
        forall|i: int| 0 <= i < ops.len() ==> transitions_covered(#[trigger] ops[i]@.preconditions, state@),
    ensures
        match r {
            Some(j) => first_enabled(operation_views(ops@), state@, 0) == Some(j as int) && j < ops.len(),
            None => first_enabled(operation_views(ops@), state@, 0) is None,
        },
{
    let mut i: usize = 0;
    while i < ops.len()
        invariant
            i <= ops.len(),
            first_enabled(operation_views(ops@), state@, 0) == first_enabled(operation_views(ops@), state@, i as int),
            forall|i: int| 0 <= i < ops.len() ==> transitions_covered(#[trigger] ops[i]@.preconditions, state@),
        decreases ops.len() - i,
    {
        assert(operation_views(ops@)[i as int] == ops[i as int]@);
        if ops[i].eval(state, log_target) {
            return Some(i);
        }
        i += 1;
    }
    None
}

/// The lifecycle and bookkeeping variables of each of `ops`.
fn all_operation_keys(ops: &Vec<String>) -> (r: Vec<String>)
    ensures
        names_of(r@) == operations_keys(names_of(ops@)),
{
    let mut keys: Vec<String> = Vec::new();
    let mut i: usize = 0;
    assert(names_of(keys@) =~= operations_keys(names_of(ops@).take(0)));
    while i < ops.len()
        invariant
            i <= ops.len(),
            names_of(keys@) == operations_keys(names_of(ops@).take(i as int)),
        decreases ops.len() - i,
    {
        crate::runner_keys::push_operation_keys(&mut keys, ops[i].as_str());
        assert(names_of(ops@).take(i + 1).drop_last() =~= names_of(ops@).take(i as int));
        i += 1;
    }
    assert(names_of(ops@).take(ops.len() as int) =~= names_of(ops@));
    keys
}


/// Advances one operation by a tick.
fn advance_one(sp_id: &str, state: State, o: &Operation, tick_elapsed_ms: i64, log_target: &str) -> (r: State)
    requires
        tick_covered(o@, state@),
    ensures
        r@ == auto_tick(sp_id@, o@, state@, tick_elapsed_ms),
        r@.dom() == state@.dom(),
{
    let mut step: i64 = 0;
    let mut ps = String::new();
    process_operation(
        sp_id,
        state,
        o,
        OperationProcessingType::Automatic,
        &mut step,
        &mut ps,
        tick_elapsed_ms,
        log_target,
    )
}

/// Starts a copy of each automatic template that may start and has no
/// copy running; the copies take their ids from `ids` in turn.
fn start_automatic(
    model: &Model,
    runner: &mut AutoOperationRunner,
    state: &State,
    ids: &Vec<String>,
    log_target: &str,
) -> (started: Vec<String>)
    requires
        auto_tick_ready(*model, old(runner)@, state@),
        ids.len() > enabled_count(operation_views(model.auto_operations@), state@, model.auto_operations.len() as int),
    ensures
        (final(runner)@.active, names_of(started@)) == auto_activation(
            operation_views(model.auto_operations@),
            old(runner)@.active,
            state@,
            names_of(ids@),
            model.auto_operations.len() as int,
        ),
        final(runner)@.mutexed == old(runner)@.mutexed,
        started.len() <= enabled_count(operation_views(model.auto_operations@), state@, model.auto_operations.len() as int),
        final(runner)@.active.len() >= old(runner)@.active.len(),
        forall|j: int| 0 <= j < old(runner)@.active.len() ==> #[trigger] final(runner)@.active[j] == old(runner)@.active[j],
        forall|j: int| old(runner)@.active.len() <= j < final(runner)@.active.len() ==> op_transitions_covered(
            #[trigger] final(runner)@.active[j],
            state@,
        ) && names_of(started@).contains(final(runner)@.active[j].name),
{
    let ghost ops = operation_views(model.auto_operations@);
    let ghost r0 = runner@;
    let ghost m = state@;
    let ghost idv = names_of(ids@);
    let n = model.auto_operations.len();
    let mut started: Vec<String> = Vec::new();
    let mut i: usize = 0;
    proof {
        lemma_activation_count(ops, r0.active, m, idv, n as int);
    }
    while i < n
        invariant
            i <= n,
            n == model.auto_operations.len(),
            m == state@,
            ops == operation_views(model.auto_operations@),
            idv == names_of(ids@),
            (operation_views(runner.active@), names_of(started@)) == auto_activation(ops, r0.active, m, idv, i as int),
            runner@.mutexed == r0.mutexed,
            started.len() <= enabled_count(ops, m, i as int),
            ids.len() > enabled_count(ops, m, n as int),
            forall|k: int| 0 <= k <= n ==> enabled_count(ops, m, k) <= enabled_count(ops, m, n as int),
            forall|k: int| 0 <= k < n ==> op_transitions_covered(#[trigger] model.auto_operations[k]@, m),
            runner.active.len() >= r0.active.len(),
            forall|j: int| 0 <= j < r0.active.len() ==> #[trigger] operation_views(runner.active@)[j] == r0.active[j],
            forall|j: int| r0.active.len() <= j < runner.active.len() ==> op_transitions_covered(
                #[trigger] operation_views(runner.active@)[j],
                m,
            ) && names_of(started@).contains(operation_views(runner.active@)[j].name),
        decreases n - i,
    {
        let o = &model.auto_operations[i];
        assert(ops[i as int] == o@);
        assert(op_transitions_covered(model.auto_operations[i as int]@, m));
        if o.eval(state, log_target) {
            let prefix = concat(o.name.as_str(), "_");
            if !any_has_prefix(&runner.active, prefix.as_str()) {
                let id = ids[started.len()].as_str();
                let name = concat(prefix.as_str(), id);
                let ghost before_act = operation_views(runner.active@);
                let ghost before_started = names_of(started@);
                runner.active.push(o.renamed(name.clone()));
                started.push(name);
                proof {
                    assert(idv[before_started.len() as int] == ids[before_started.len() as int]@);
                    assert(operation_views(runner.active@) =~= before_act.push(copy_named(o@, name@)));
                    assert(names_of(started@) =~= before_started.push(name@));
                    assert forall|j: int| r0.active.len() <= j < runner.active.len() implies op_transitions_covered(
                        #[trigger] operation_views(runner.active@)[j],
                        m,
                    ) && names_of(started@).contains(operation_views(runner.active@)[j].name) by {
                        if j < before_act.len() {
                            assert(operation_views(runner.active@)[j] == before_act[j]);
                            assert(before_started.contains(before_act[j].name));
                            let w = choose|w: int| 0 <= w < before_started.len() && before_started[w] == before_act[j].name;
                            assert(names_of(started@)[w] == before_started[w]);
                        } else {
                            assert(names_of(started@)[before_started.len() as int] == name@);
                        }
                    }
                }
            }
        }
        i += 1;
    }
    started
}

/// One tick of the automatic operation runner, where the copies started
/// take their ids from `ids` in turn.
pub fn auto_operation_tick_with(
    sp_id: &str,
    model: &Model,
    runner: &mut AutoOperationRunner,
    state: &State,
    tick_elapsed_ms: i64,
    ids: &Vec<String>,
    log_target: &str,
) -> (o: AutoTickOutcome)
    requires
        auto_tick_ready(*model, old(runner)@, state@),
        ids.len() > enabled_count(operation_views(model.auto_operations@), state@, model.auto_operations.len() as int),
    ensures
        ({
            let st = auto_operation_step(sp_id@, *model, old(runner)@, state@, tick_elapsed_ms, names_of(ids@));
            &&& final(runner)@ == st.runner
            &&& o.state@ == st.m
            &&& names_of(o.removed@) == st.removed
            &&& o.keys_changed == st.keys_changed
            &&& names_of(o.active_operations@) == driven_names(st.runner)
        }),
{
    let ghost m = state@;
    let ghost r0 = runner@;
    let ghost idv = names_of(ids@);
    let ghost ops = operation_views(model.auto_operations@);
    let ghost mops = operation_views(model.mutexed_auto_operations@);
    let mut started = start_automatic(model, runner, state, ids, log_target);
    let ghost act1 = runner@.active;
    let ghost started1 = names_of(started@);
    let ghost mx_before = runner@.mutexed;
    assert(mx_before == r0.mutexed);
    // The mutually exclusive operation.
    if runner.mutexed.is_none() {
        assert forall|k: int| 0 <= k < model.mutexed_auto_operations.len() implies transitions_covered(
            #[trigger] model.mutexed_auto_operations[k]@.preconditions,
            m,
        ) by {
            assert(op_transitions_covered(model.mutexed_auto_operations[k]@, m));
        }
        match first_enabled_index(&model.mutexed_auto_operations, state, log_target) {
            Some(j) => {
                let t = &model.mutexed_auto_operations[j];
                let prefix = concat(t.name.as_str(), "_");
                let name = concat(prefix.as_str(), ids[started.len()].as_str());
                runner.mutexed = Some(t.renamed(name.clone()));
                started.push(name);
                proof {
                    assert(mops[j as int] == t@);
                    assert(idv[started1.len() as int] == ids[started1.len() as int]@);
                    assert(names_of(started@) =~= started1.push(name@));
                    assert(op_transitions_covered(model.mutexed_auto_operations[j as int]@, m));
                }
            },
            None => {},
        }
    }
    let ghost started2 = names_of(started@);
    assert((runner@.mutexed, started2) == mutexed_activation(mops, r0.mutexed, m, idv, started1));
    // The started copies' variables.
    let mut s = if started.len() > 0 {
        let s1 = add_operation_meta_tracking_variables(&started, state, false, log_target);
        add_operation_state_tracking_variable(&started, &s1, log_target)
    } else {
        state.duplicate()
    };
    proof {
        assert forall|k: Seq<char>| #[trigger] crate::predicate::contains_name(started@, k) == started2.contains(k) by {
            if crate::predicate::contains_name(started@, k) {
                let j = choose|j: int| 0 <= j < started@.len() && #[trigger] started@[j]@ == k;
                assert(started2[j] == k);
            }
            if started2.contains(k) {
                let j = choose|j: int| 0 <= j < started2.len() && started2[j] == k;
                assert(started@[j]@ == k);
            }
        }
        if started.len() == 0 {
            assert(started2 =~= Seq::<Seq<char>>::empty());
            assert(with_metas(started2, m, false) == m);
        }
        assert(s@ =~= with_started(started2, m));
    }
    let ghost m1 = s@;
    proof {
        lemma_with_metas_holds(started2, m, false);
        assert forall|k: Seq<char>| m.contains_key(k) implies #[trigger] m1.contains_key(k) by {
            assert(with_metas(started2, m, false).contains_key(k));
        }
        assert forall|j: int| 0 <= j < act1.len() implies tick_covered(#[trigger] act1[j], m1) by {
            if j < r0.active.len() {
                assert(act1[j] == r0.active[j]);
                lemma_tick_covered_grow(act1[j], m, m1);
            } else {
                assert(started1.contains(act1[j].name));
                let w = choose|w: int| 0 <= w < started1.len() && started1[w] == act1[j].name;
                assert(started2[w] == started1[w]);
                lemma_started_covered(act1[j], started2, m);
            }
        }
        match runner@.mutexed {
            Some(x) => {
                if r0.mutexed is Some {
                    lemma_tick_covered_grow(x, m, m1);
                } else {
                    assert(started2[started1.len() as int] == x.name);
                    lemma_started_covered(x, started2, m);
                }
            },
            None => {},
        }
    }
    // Every running copy advances.
    let mut kept: Vec<Operation> = Vec::new();
    let mut ended: Vec<String> = Vec::new();
    let mut k: usize = 0;
    assert(act1 == operation_views(runner.active@));
    while k < runner.active.len()
        invariant
            k <= runner.active.len(),
            act1 == operation_views(runner.active@),
            (s@, operation_views(kept@), names_of(ended@)) == advance_all(sp_id@, act1, m1, tick_elapsed_ms, k as int),
            s@.dom() == m1.dom(),
            forall|j: int| 0 <= j < act1.len() ==> tick_covered(#[trigger] act1[j], m1),
        decreases runner.active.len() - k,
    {
        let op = &runner.active[k];
        assert(act1[k as int] == op@);
        proof {
            lemma_tick_covered_grow(op@, m1, s@);
        }
        let ghost before = s@;
        s = advance_one(sp_id, s, op, tick_elapsed_ms, log_target);
        let st = op.state_in(&s, log_target);
        let ghost kept0 = operation_views(kept@);
        let ghost ended0 = names_of(ended@);
        match st {
            OperationState::Terminated(_) => {
                ended.push(op.name.clone());
                assert(names_of(ended@) =~= ended0.push(op@.name));
            },
            _ => {
                kept.push(op.duplicate());
                assert(operation_views(kept@) =~= kept0.push(op@));
            },
        }
        k += 1;
    }
    let ghost m2 = s@;
    runner.active = kept;
    // The mutually exclusive one advances.
    let mut drop_mutexed = false;
    match &runner.mutexed {
        Some(x) => {
            proof {
                lemma_tick_covered_grow(x@, m1, s@);
            }
            s = advance_one(sp_id, s, x, tick_elapsed_ms, log_target);
            match x.state_in(&s, log_target) {
                OperationState::Terminated(_) => {
                    let ghost ended0 = names_of(ended@);
                    ended.push(x.name.clone());
                    assert(names_of(ended@) =~= ended0.push(x@.name));
                    drop_mutexed = true;
                },
                _ => {},
            }
        },
        None => {},
    }
    if drop_mutexed {
        runner.mutexed = None;
    }
    let removed = all_operation_keys(&ended);
    let mut active_operations: Vec<String> = Vec::new();
    let mut i: usize = 0;
    while i < runner.active.len()
        invariant
            i <= runner.active.len(),
            active_operations.len() == i,
            forall|j: int| 0 <= j < i ==> #[trigger] active_operations[j]@ == runner.active[j]@.name,
        decreases runner.active.len() - i,
    {
        active_operations.push(runner.active[i].name.clone());
        i += 1;
    }
    match &runner.mutexed {
        Some(x) => {
            active_operations.push(x.name.clone());
        },
        None => {},
    }
    proof {
        let a = Seq::new(runner@.active.len(), |i: int| runner@.active[i].name);
        match runner@.mutexed {
            Some(x) => assert(names_of(active_operations@) =~= a.push(x.name)),
            None => assert(names_of(active_operations@) =~= a),
        }
    }
    AutoTickOutcome { state: s, removed, keys_changed: started.len() > 0 || ended.len() > 0, active_operations }
}

/// One tick of the automatic operation runner.  The copies started get
/// fresh random ids; every other effect is fixed.
pub fn auto_operation_tick(
    sp_id: &str,
    model: &Model,
    runner: &mut AutoOperationRunner,
    state: &State,
    tick_elapsed_ms: i64,
    log_target: &str,
) -> (o: AutoTickOutcome)
    requires
        auto_tick_ready(*model, old(runner)@, state@),
    ensures
        exists|ids: Seq<Seq<char>>|
            #![trigger auto_operation_step(sp_id@, *model, old(runner)@, state@, tick_elapsed_ms, ids)]
            (forall|k: int| 0 <= k < ids.len() ==> is_id(#[trigger] ids[k]))
            && ids.len() == enabled_count(
                operation_views(model.auto_operations@),
                state@,
                model.auto_operations.len() as int,
            ) + 1 && ({
                let st = auto_operation_step(sp_id@, *model, old(runner)@, state@, tick_elapsed_ms, ids);
                &&& final(runner)@ == st.runner
                &&& o.state@ == st.m
                &&& names_of(o.removed@) == st.removed
                &&& o.keys_changed == st.keys_changed
                &&& names_of(o.active_operations@) == driven_names(st.runner)
            }),
{
    proof {
        assert forall|k: int| 0 <= k < model.auto_operations.len() implies transitions_covered(
            #[trigger] model.auto_operations[k]@.preconditions,
            state@,
        ) by {
            assert(op_transitions_covered(model.auto_operations[k]@, state@));
        }
    }
    let needed = count_enabled(&model.auto_operations, state, log_target);
    let mut ids: Vec<String> = Vec::new();
    let mut k: usize = 0;
    ids.push(new_id());
    while k < needed
        invariant
            k <= needed,
            ids.len() == k + 1,
            forall|j: int| 0 <= j < ids.len() ==> is_id(#[trigger] ids[j]@),
        decreases needed - k,
    {
        ids.push(new_id());
        k += 1;
    }
    assert(forall|j: int| 0 <= j < names_of(ids@).len() ==> is_id(#[trigger] names_of(ids@)[j]));
    auto_operation_tick_with(sp_id, model, runner, state, tick_elapsed_ms, &ids, log_target)
}


// ----------------------------------------------------------------------------
// Key sets cover the ticks they serve.
/// Transitions whose every mentioned variable a state holds are covered by it.
pub proof fn lemma_mentioned_covered(s: Seq<TransitionView>, m: StateMap)
    requires
        forall|n: Seq<char>| crate::operation::transitions_mention(s, n) ==> #[trigger] m.contains_key(n),
    ensures
        transitions_covered(s, m),
{
    assert forall|i: int| 0 <= i < s.len() implies crate::transition::transition_covered(#[trigger] s[i], m) by {
        let t = s[i];
        assert forall|n: Seq<char>| #[trigger] crate::predicate::predicate_mentions(t.guard, n) implies m.contains_key(n) by {
            assert(transition_mentions(s[i], n));
        }
        assert forall|n: Seq<char>| #[trigger] crate::predicate::predicate_mentions(t.runner_guard, n) implies m.contains_key(n) by {
            assert(transition_mentions(s[i], n));
        }
        assert forall|j: int| 0 <= j < t.actions.len() implies crate::transition::action_covered(#[trigger] t.actions[j], m) by {
            assert(crate::transition::action_mentions(t.actions[j], t.actions[j].var));
            assert(transition_mentions(s[i], t.actions[j].var));
            assert forall|n: Seq<char>| #[trigger] crate::predicate::operand_mentions(t.actions[j].rhs, n) implies m.contains_key(n) by {
                assert(crate::transition::action_mentions(t.actions[j], n));
                assert(transition_mentions(s[i], n));
            }
        }
        assert forall|j: int| 0 <= j < t.runner_actions.len() implies crate::transition::action_covered(#[trigger] t.runner_actions[j], m) by {
            assert(crate::transition::action_mentions(t.runner_actions[j], t.runner_actions[j].var));
            assert(transition_mentions(s[i], t.runner_actions[j].var));
            assert forall|n: Seq<char>| #[trigger] crate::predicate::operand_mentions(t.runner_actions[j].rhs, n) implies m.contains_key(n) by {
                assert(crate::transition::action_mentions(t.runner_actions[j], n));
                assert(transition_mentions(s[i], n));
            }
        }
    }
}

/// A state that holds every variable an operation's transitions mention,
/// and the lifecycle and bookkeeping variables of a copy of it under
/// `name`, holds everything a tick of that copy reads and writes.
pub proof fn lemma_keys_cover_a_copy(o: OperationView, name: Seq<char>, m: StateMap)
    requires
        forall|k: Seq<char>| (crate::operation::op_mentions(o, k) || op_keys(name).contains(k)) ==> #[trigger] m.contains_key(k),
    ensures
        tick_covered(copy_named(o, name), m),
{
    assert forall|n: Seq<char>| crate::operation::op_mentions(o, n) implies #[trigger] m.contains_key(n) by {}
    lemma_mentioned_covered(o.preconditions, m);
    lemma_mentioned_covered(o.postconditions, m);
    lemma_mentioned_covered(o.fail_transitions, m);
    lemma_mentioned_covered(o.timeout_transitions, m);
    lemma_mentioned_covered(o.bypass_transitions, m);
    lemma_mentioned_covered(o.cancel_transitions, m);
    let keys = op_keys(name);
    assert(keys[0] == name && keys.contains(keys[0]));
    assert(keys[1] == name + "_information"@ && keys.contains(keys[1]));
    assert(keys[2] == name + "_elapsed_executing_ms"@ && keys.contains(keys[2]));
    assert(keys[3] == name + "_elapsed_disabled_ms"@ && keys.contains(keys[3]));
    assert(keys[4] == name + "_failure_retry_counter"@ && keys.contains(keys[4]));
    assert(keys[5] == name + "_timeout_retry_counter"@ && keys.contains(keys[5]));
}

/// A state that holds the automatic operation runner's key set (the
/// dashboard command and every variable the model refers to), together
/// with the variables of an active copy of one of its templates, holds
/// everything a tick of that copy reads and writes: restricting the state
/// to the runner's keys loses nothing the copy needs.
pub proof fn lemma_auto_keys_cover_a_copy(sp: Seq<char>, model: Model, i: int, name: Seq<char>, m: StateMap)
    requires
        0 <= i < model.auto_operations.len(),
        forall|k: Seq<char>|
            (k == sp + "_dashboard_command"@ || model_mentions(model, k) || op_keys(name).contains(k)) ==> #[trigger] m.contains_key(k),
    ensures
        tick_covered(copy_named(model.auto_operations[i]@, name), m),
{
    let o = model.auto_operations[i]@;
    let ops = operation_views(model.auto_operations@);
    assert(ops[i] == o);
    assert forall|n: Seq<char>| (crate::operation::op_mentions(o, n) || op_keys(name).contains(n)) implies #[trigger] m.contains_key(n) by {
        if crate::operation::op_mentions(o, n) {
            assert(ops[i].name == o.name);
            assert(crate::operation::op_mentions(ops[i], n));
            assert(ops_mention(ops, n));
            assert(model_mentions(model, n));
        }
    }
    lemma_keys_cover_a_copy(o, name, m);
}

/// A state that holds the plan runner's key set (its own variables and
/// every variable the model refers to), together with the variables of a
/// plan step run as one of the model's operations, holds everything a tick
/// of that step reads and writes.
pub proof fn lemma_plan_keys_cover_a_step(model: Model, i: int, step: Seq<char>, m: StateMap)
    requires
        0 <= i < model.operations.len(),
        forall|k: Seq<char>| (model_mentions(model, k) || op_keys(step).contains(k)) ==> #[trigger] m.contains_key(k),
    ensures
        tick_covered(copy_named(model.operations[i]@, step), m),
{
    let o = model.operations[i]@;
    let ops = operation_views(model.operations@);
    assert(ops[i] == o);
    assert forall|n: Seq<char>| (crate::operation::op_mentions(o, n) || op_keys(step).contains(n)) implies #[trigger] m.contains_key(n) by {
        if crate::operation::op_mentions(o, n) {
            assert(ops[i].name == o.name);
            assert(crate::operation::op_mentions(ops[i], n));
            assert(ops_mention(ops, n));
            assert(model_mentions(model, n));
        }
    }
    lemma_keys_cover_a_copy(o, step, m);
}


// ----------------------------------------------------------------------------
// What every tick keeps.
/// A template with a running copy is not started again: the operations a
/// tick starts follow the ones already running, and each is a copy, named
/// by the template's name, `_` and the next id, of a template that may
/// start and of which no copy was running.
pub proof fn lemma_started_copies_come_from_idle_templates(
    ops: Seq<OperationView>,
    act: Seq<OperationView>,
    m: StateMap,
    ids: Seq<Seq<char>>,
    n: int,
)
    ensures
        auto_activation(ops, act, m, ids, n).0.len() == act.len() + auto_activation(ops, act, m, ids, n).1.len(),
        auto_activation(ops, act, m, ids, n).0.take(act.len() as int) == act,
        forall|j: int|
            #![trigger auto_activation(ops, act, m, ids, n).0[j]]
            act.len() <= j < auto_activation(ops, act, m, ids, n).0.len() ==> exists|i: int|
                0 <= i < n && op_can_start(#[trigger] ops[i], m) && !prefix_taken(act, ops[i].name + "_"@)
                    && auto_activation(ops, act, m, ids, n).0[j] == copy_named(
                    ops[i],
                    ops[i].name + "_"@ + ids[j - act.len()],
                ),
    decreases n,
{
    if n > 0 {
        lemma_started_copies_come_from_idle_templates(ops, act, m, ids, n - 1);
        let (a, started) = auto_activation(ops, act, m, ids, n - 1);
        let o = ops[n - 1];
        let p = o.name + "_"@;
        if op_can_start(o, m) && !prefix_taken(a, p) {
            let r = a.push(copy_named(o, o.name + "_"@ + ids[started.len() as int]));
            assert(r.take(act.len() as int) =~= a.take(act.len() as int));
            if prefix_taken(act, p) {
                let k = choose|k: int| 0 <= k < act.len() && has_prefix(#[trigger] act[k].name, p);
                assert(a.take(act.len() as int)[k] == a[k]);
                assert(has_prefix(a[k].name, p));
            }
            assert forall|j: int| #![trigger r[j]] act.len() <= j < r.len() implies exists|i: int|
                0 <= i < n && op_can_start(#[trigger] ops[i], m) && !prefix_taken(act, ops[i].name + "_"@)
                    && r[j] == copy_named(ops[i], ops[i].name + "_"@ + ids[j - act.len()]) by {
                if j < a.len() {
                    assert(r[j] == a[j]);
                } else {
                    assert(op_can_start(ops[n - 1], m));
                }
            }
        }
    }
}

/// At most one mutually exclusive operation runs: while one runs, a tick
/// keeps it or retires it, and starts no other in its place.
pub proof fn lemma_one_mutexed_at_a_time(
    sp: Seq<char>,
    model: Model,
    r: AutoRunnerView,
    m: StateMap,
    tick: i64,
    ids: Seq<Seq<char>>,
)
    requires
        r.mutexed is Some,
    ensures
        auto_operation_step(sp, model, r, m, tick, ids).runner.mutexed == r.mutexed
            || auto_operation_step(sp, model, r, m, tick, ids).runner.mutexed is None,
{
}

} // verus!
