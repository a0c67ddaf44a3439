//! The decisions of one tick of the SOP runner.
//!
//! The runner keeps, between ticks, the run it is driving: a unique id, how
//! far the run is, and the run's copy of the tree, whose operations carry
//! fresh names.  Each tick it reads the state, and:
//!
//! * does nothing unless `{sp_id}_sop_id` names a SOP of the model;
//! * with no run under way, starts one when `{sp_id}_sop_enabled` is set:
//!   the run gets an id and a copy of the tree with fresh operation names,
//!   each of whose operations gets its lifecycle and bookkeeping variables,
//!   and the flag is cleared;
//! * with a run just started, reports the tree and moves it to executing;
//! * with a run executing, advances the tree by one tick and, once the
//!   root is no longer executing, takes on the root's state;
//! * with a run fatal, completed or cancelled, reports that, drops the run
//!   and lists the run's variables to delete;
//! * with a run in an unknown state, drops it.
//!
//! Every tick that does something writes `{sop_id}_sop_information` and
//! `{sp_id}_sop_state`.
use crate::ids::{is_id, new_id};
use crate::operation::{operation_views, OperationView};
use crate::process::say;
use crate::render::{sop_text, visualize_sop};
use crate::runner_keys::{model_mentions, names_of, op_keys, ops_mention, push_operation_keys};
use crate::runner_states::{lemma_sop_state_round_trip, sop_state_of, sop_state_text, SOPState};
use crate::sop::{sop_operations, Model, SOPView, SOP};
use crate::sop_runner::{process_sop_node_tick, sop_state, sop_tick, sop_ticks_covered, uniquified, uniquify_sop};
use crate::state::{bool_or_false, string_or_unknown, State};
use crate::state_init::{add_operation_meta_tracking_variables, add_operation_state_tracking_variable, get_all_operations_from_sop, with_metas};
use crate::text::{concat, concat3, str_eq};
use crate::transition::StateMap;
use crate::value::{bool_view, string_view, ToSPValue};
use vstd::prelude::*;

verus! {

/// What the SOP runner keeps between ticks: the run under way, if any.
pub struct SopRunner {
    pub active_id: Option<String>,
    pub active_state: SOPState,
    pub active_sop: Option<SOP>,
}

/// The content of the runner's memory.
pub struct SopRunnerView {
    pub active_id: Option<Seq<char>>,
    pub active_state: SOPState,
    pub active_sop: Option<SOPView>,
}

impl View for SopRunner {
    type V = SopRunnerView;

    open spec fn view(&self) -> SopRunnerView {
        SopRunnerView {
            active_id: match self.active_id {
                Some(s) => Some(s@),
                None => None,
            },
            active_state: self.active_state,
            active_sop: match self.active_sop {
                Some(s) => Some(s@),
                None => None,
            },
        }
    }
}

/// A runner with no run: what it starts as and returns to.
pub open spec fn idle_runner() -> SopRunnerView {
    SopRunnerView { active_id: None, active_state: SOPState::Initial, active_sop: None }
}

/// A run has an id exactly when it has a tree.
pub open spec fn runner_wf(r: SopRunnerView) -> bool {
    r.active_id is Some <==> r.active_sop is Some
}

/// The tree of the run under way.
pub open spec fn active_tree(r: SopRunnerView) -> SOPView {
    match r.active_sop {
        Some(t) => t,
        None => SOPView::Sequence(Seq::empty()),
    }
}

/// The names of the operations of the run under way, leaves from left to right.
pub open spec fn active_operation_names(r: SopRunnerView) -> Seq<Seq<char>> {
    match r.active_sop {
        Some(t) => operation_names(sop_operations(t)),
        None => Seq::empty(),
    }
}

impl SopRunner {
    /// A runner with no run.
    pub fn new() -> (r: SopRunner)
        ensures
            r@ == idle_runner(),
    {
        SopRunner { active_id: None, active_state: SOPState::Initial, active_sop: None }
    }
}

/// The names of the operations.
pub open spec fn operation_names(ops: Seq<OperationView>) -> Seq<Seq<char>> {
    Seq::new(ops.len(), |i: int| ops[i].name)
}

/// The lifecycle variable and the five bookkeeping variables of each operation, in order.
pub open spec fn operations_keys(ids: Seq<Seq<char>>) -> Seq<Seq<char>>
    decreases ids.len(),
{
    if ids.len() == 0 {
        Seq::empty()
    } else {
        operations_keys(ids.drop_last()) + op_keys(ids.last())
    }
}

/// The first of the model's SOPs from `k` on whose id is `id`.
pub open spec fn sop_index(model: Model, id: Seq<char>, k: int) -> Option<int>
    decreases model.sops.len() - k,
{
    if k < 0 || k >= model.sops.len() {
        None
    } else if model.sops[k].id@ == id {
        Some(k)
    } else {
        sop_index(model, id, k + 1)
    }
}

/// `m` with the variables of freshly started operations: their
/// bookkeeping variables, and their lifecycle variables at `"initial"`.
pub open spec fn with_started(names: Seq<Seq<char>>, m: StateMap) -> StateMap {
    with_metas(names, m, false).union_prefer_right(
        Map::new(|k: Seq<char>| names.contains(k), |k: Seq<char>| string_view("initial"@)),
    )
}

/// `m` with the SOP's information and the SOP state written.
pub open spec fn with_report(sp: Seq<char>, sop_id: Seq<char>, m: StateMap, info: Seq<char>, state_text: Seq<char>) -> StateMap {
    m.insert(sop_id + "_sop_information"@, string_view(info)).insert(sp + "_sop_state"@, string_view(state_text))
}

/// What one tick decides: the runner's memory afterwards, the state to
/// write back, whether anything is written, the variables to delete, and
/// whether the set of variables to read has changed.
pub struct SopStep {
    pub runner: SopRunnerView,
    pub m: StateMap,
    pub write: bool,
    pub removed: Seq<Seq<char>>,
    pub keys_changed: bool,
}

/// A tick that ends a run: the runner drops it, reports `info` and the
/// state `s`, and the run's variables are to be deleted.
pub open spec fn release_step(sp: Seq<char>, sop_id: Seq<char>, r: SopRunnerView, m: StateMap, info: Seq<char>, s: SOPState) -> SopStep {
    let a = match r.active_id {
        Some(a) => a,
        None => Seq::empty(),
    };
    SopStep {
        runner: idle_runner(),
        m: with_report(sp, sop_id, m, info, sop_state_text(s)),
        write: true,
        removed: operations_keys(active_operation_names(r).push("op_"@ + a)),
        keys_changed: true,
    }
}

/// Whether this tick starts a run: the state names a SOP of the model, no
/// run is under way and the SOP is enabled.
pub open spec fn starts_run(sp: Seq<char>, model: Model, r: SopRunnerView, m: StateMap) -> bool {
    &&& sop_index(model, string_or_unknown(m, sp + "_sop_id"@), 0) is Some
    &&& r.active_id is None
    &&& bool_or_false(m, sp + "_sop_enabled"@)
}

/// The tree of the SOP the state names.
pub open spec fn named_template(sp: Seq<char>, model: Model, m: StateMap) -> SOPView {
    match sop_index(model, string_or_unknown(m, sp + "_sop_id"@), 0) {
        Some(i) => model.sops[i].sop@,
        None => SOPView::Sequence(Seq::empty()),
    }
}

/// One tick of the SOP runner, where a run that starts gets the id
/// `fresh_id` and the tree `fresh`.
pub open spec fn sop_runner_step(
    sp: Seq<char>,
    model: Model,
    r: SopRunnerView,
    m: StateMap,
    tick: i64,
    fresh_id: Seq<char>,
    fresh: SOPView,
) -> SopStep {
    let sop_state_s = string_or_unknown(m, sp + "_sop_state"@);
    let enabled = bool_or_false(m, sp + "_sop_enabled"@);
    let sop_id = string_or_unknown(m, sp + "_sop_id"@);
    let skip = SopStep { runner: r, m: m, write: false, removed: Seq::empty(), keys_changed: false };
    match sop_index(model, sop_id, 0) {
        None => skip,
        Some(_) => match r.active_id {
            None => if enabled {
                let names = operation_names(sop_operations(fresh));
                let m1 = with_started(names, m).insert(sp + "_sop_enabled"@, bool_view(false));
                SopStep {
                    runner: SopRunnerView {
                        active_id: Some(sop_id + "_"@ + fresh_id),
                        active_state: r.active_state,
                        active_sop: Some(fresh),
                    },
                    m: with_report(sp, sop_id, m1, say("SOP '"@, sop_id, "' is enabled, starting execution."@), sop_state_s),
                    write: true,
                    removed: Seq::empty(),
                    keys_changed: true,
                }
            } else {
                skip
            },
            Some(a) => {
                let tree = active_tree(r);
                match r.active_state {
                    SOPState::Initial => SopStep {
                        runner: SopRunnerView { active_state: SOPState::Executing, ..r },
                        m: with_report(
                            sp,
                            sop_id,
                            m,
                            say("Initializing a new SOP '"@, a, "':\n"@) + sop_text(tree, Seq::empty()),
                            sop_state_s,
                        ),
                        write: true,
                        removed: Seq::empty(),
                        keys_changed: false,
                    },
                    SOPState::Executing => {
                        let m1 = sop_tick(sp, tree, m, tick);
                        let root = sop_state(tree, m1);
                        let info = if root != SOPState::Executing {
                            say("Completing SOP '"@, a, "'."@)
                        } else {
                            say("Executing SOP '"@, a, "'."@)
                        };
                        SopStep {
                            runner: SopRunnerView { active_state: root, ..r },
                            m: with_report(sp, sop_id, m1, info, sop_state_text(SOPState::Executing)),
                            write: true,
                            removed: Seq::empty(),
                            keys_changed: false,
                        }
                    },
                    SOPState::Fatal => release_step(sp, sop_id, r, m, say("Fataled SOP '"@, a, "'."@), SOPState::Fatal),
                    SOPState::Completed => release_step(
                        sp,
                        sop_id,
                        r,
                        m,
                        say("Completed SOP '"@, a, "'."@),
                        SOPState::Completed,
                    ),
                    SOPState::Cancelled => release_step(
                        sp,
                        sop_id,
                        r,
                        m,
                        say("Cancelled SOP '"@, a, "'."@),
                        SOPState::Cancelled,
                    ),
                    SOPState::UNKNOWN => SopStep {
                        runner: idle_runner(),
                        m: with_report(sp, sop_id, m, say("SOP '"@, a, "' state id UNKNOWN."@), sop_state_s),
                        write: true,
                        removed: Seq::empty(),
                        keys_changed: true,
                    },
                }
            },
        },
    }
}

/// Whether a tick can run on `m`: the runner's own variables and each SOP's
/// information variable are there, the runner's memory is consistent, and
/// a run that is executing finds what a tick of its tree reads and writes.
pub open spec fn sop_tick_ready(sp: Seq<char>, model: Model, r: SopRunnerView, m: StateMap) -> bool {
    &&& m.contains_key(sp + "_sop_state"@)
    &&& m.contains_key(sp + "_sop_enabled"@)
    &&& m.contains_key(sp + "_sop_id"@)
    &&& forall|i: int| 0 <= i < model.sops.len() ==> m.contains_key(#[trigger] model.sops[i].id@ + "_sop_information"@)
    &&& runner_wf(r)
    &&& (r.active_id is Some && r.active_state == SOPState::Executing ==> sop_ticks_covered(active_tree(r), m))
}

/// What a tick hands back to the loop around it.
pub struct SopTickOutcome {
    /// The state to write back (the state read, where nothing is written).
    pub state: State,
    /// Whether anything is written.
    pub write: bool,
    /// The variables to delete.
    pub removed: Vec<String>,
    /// Whether the set of variables to read has changed.
    pub keys_changed: bool,
    /// The operations of the run under way after the tick.
    pub active_operations: Vec<String>,
}

/// Adding variables keeps the ones there were.
proof fn lemma_with_metas_keeps(names: Seq<Seq<char>>, m: StateMap, cov: bool, k: Seq<char>)
    requires
        m.contains_key(k),
    ensures
        with_metas(names, m, cov).contains_key(k),
    decreases names.len(),
{
    if names.len() > 0 {
        lemma_with_metas_keeps(names.drop_last(), m, cov, k);
    }
}

/// The first SOP of the model whose id is `id`.
fn find_sop(model: &Model, id: &str) -> (r: Option<usize>)
    ensures
        match r {
            Some(i) => sop_index(*model, id@, 0) == Some(i as int) && i < model.sops.len(),
            None => sop_index(*model, id@, 0) is None,
        },
{
    let mut k: usize = 0;
    while k < model.sops.len()
        invariant
            k <= model.sops.len(),
            sop_index(*model, id@, 0) == sop_index(*model, id@, k as int),
        decreases model.sops.len() - k,
    {
        if str_eq(model.sops[k].id.as_str(), id) {
            return Some(k);
        }
        k += 1;
    }
    None
}

/// The lifecycle and bookkeeping variables of each of `ops`, and of the
/// operation `extra`.
fn run_keys(ops: &Vec<String>, extra: &str) -> (r: Vec<String>)
    ensures
        names_of(r@) == operations_keys(names_of(ops@).push(extra@)),
{
    let mut keys: Vec<String> = Vec::new();
    let mut i: usize = 0;
    assert(names_of(keys@) =~= operations_keys(names_of(ops@).take(0)));
    while i < ops.len()
        invariant
            i <= ops.len(),
            names_of(keys@) == operations_keys(names_of(ops@).take(i as int)),
        decreases ops.len() - i,
    {
        push_operation_keys(&mut keys, ops[i].as_str());
        assert(names_of(ops@).take(i + 1).drop_last() =~= names_of(ops@).take(i as int));
        i += 1;
    }
    push_operation_keys(&mut keys, extra);
    assert(names_of(ops@).push(extra@).drop_last() =~= names_of(ops@).take(ops.len() as int));
    keys
}

/// The names of the operations of a tree, leaves from left to right.
pub(crate) fn tree_operation_names(sop: &SOP) -> (r: Vec<String>)
    ensures
        names_of(r@) == operation_names(sop_operations(sop@)),
{
    let ops = get_all_operations_from_sop(sop);
    let mut names: Vec<String> = Vec::new();
    let mut i: usize = 0;
    while i < ops.len()
        invariant
            i <= ops.len(),
            operation_views(ops@) == sop_operations(sop@),
            names.len() == i,
            forall|j: int| 0 <= j < i ==> #[trigger] names[j]@ == ops[j].name@,
        decreases ops.len() - i,
    {
        names.push(ops[i].name.clone());
        i += 1;
    }
    proof {
        assert forall|j: int| 0 <= j < ops.len() implies #[trigger] operation_views(ops@)[j].name == ops[j].name@ by {
        }
    }
    assert(names_of(names@) =~= operation_names(sop_operations(sop@)));
    names
}

/// One tick of the SOP runner, where a run that starts gets the id
/// `fresh_id` and the tree `fresh`.
pub fn sop_runner_tick_with(
    sp_id: &str,
    model: &Model,
    runner: &mut SopRunner,
    state: &State,
    tick_elapsed_ms: i64,
    fresh_id: String,
    fresh: SOP,
    log_target: &str,
) -> (o: SopTickOutcome)
    requires
        sop_tick_ready(sp_id@, *model, old(runner)@, state@),
    ensures
        ({
            let st = sop_runner_step(sp_id@, *model, old(runner)@, state@, tick_elapsed_ms, fresh_id@, fresh@);
            &&& final(runner)@ == st.runner
            &&& o.state@ == st.m
            &&& o.write == st.write
            &&& names_of(o.removed@) == st.removed
            &&& o.keys_changed == st.keys_changed
            &&& names_of(o.active_operations@) == active_operation_names(st.runner)
        }),
        runner_wf(final(runner)@),
{
    let ghost m = state@;
    let ghost r0 = runner@;
    let state_k = concat(sp_id, "_sop_state");
    let enabled_k = concat(sp_id, "_sop_enabled");
    let id_k = concat(sp_id, "_sop_id");
    let sop_state_s = state.get_string_or_default_to_unknown(state_k.as_str(), log_target);
    let enabled = state.get_bool_or_default_to_false(enabled_k.as_str(), log_target);
    let sop_id = state.get_string_or_default_to_unknown(id_k.as_str(), log_target);
    let idx = find_sop(model, sop_id.as_str());
    if idx.is_none() {
        return SopTickOutcome {
            state: state.duplicate(),
            write: false,
            removed: Vec::new(),
            keys_changed: false,
            active_operations: match &runner.active_sop {
                Some(t) => tree_operation_names(t),
                None => Vec::new(),
            },
        };
    }
    proof {
        let i = sop_index(*model, sop_id@, 0)->0;
        assert(model.sops[i].id@ == sop_id@) by {
            lemma_sop_index_names(*model, sop_id@, 0);
        }
        assert(m.contains_key(model.sops[i].id@ + "_sop_information"@));
    }
    let info_k = concat(sop_id.as_str(), "_sop_information");
    let active: Option<String> = match &runner.active_id {
        Some(a) => Some(a.clone()),
        None => None,
    };
    match active {
        None => {
            if !enabled {
                return SopTickOutcome {
                    state: state.duplicate(),
                    write: false,
                    removed: Vec::new(),
                    keys_changed: false,
                    active_operations: Vec::new(),
                };
            }
            let names = tree_operation_names(&fresh);
            let s1 = add_operation_meta_tracking_variables(&names, state, false, log_target);
            let mut s2 = add_operation_state_tracking_variable(&names, &s1, log_target);
            proof {
                lemma_with_metas_keeps(names_of(names@), m, false, sp_id@ + "_sop_enabled"@);
                lemma_with_metas_keeps(names_of(names@), m, false, sop_id@ + "_sop_information"@);
                lemma_with_metas_keeps(names_of(names@), m, false, sp_id@ + "_sop_state"@);
                assert forall|k: Seq<char>| #[trigger] crate::predicate::contains_name(names@, k) == names_of(names@).contains(k) by {
                    if crate::predicate::contains_name(names@, k) {
                        let j = choose|j: int| 0 <= j < names@.len() && #[trigger] names@[j]@ == k;
                        assert(names_of(names@)[j] == k);
                    }
                    if names_of(names@).contains(k) {
                        let j = choose|j: int| 0 <= j < names_of(names@).len() && names_of(names@)[j] == k;
                        assert(names@[j]@ == k);
                    }
                }
                assert(s2@ =~= with_started(names_of(names@), m));
            }
            s2.update_mut(enabled_k.as_str(), false.to_spvalue());
            let mut info = concat3("SOP '", sop_id.as_str(), "' is enabled, starting execution.");
            s2.update_mut(info_k.as_str(), info.to_spvalue());
            s2.update_mut(state_k.as_str(), sop_state_s.to_spvalue());
            let uid = concat3(sop_id.as_str(), "_", fresh_id.as_str());
            runner.active_id = Some(uid);
            runner.active_sop = Some(fresh);
            SopTickOutcome { state: s2, write: true, removed: Vec::new(), keys_changed: true, active_operations: names }
        },
        Some(a) => {
            let names = match &runner.active_sop {
                Some(t) => tree_operation_names(t),
                None => Vec::new(),
            };
            match runner.active_state {
                SOPState::Initial => {
                    let text = match &runner.active_sop {
                        Some(t) => visualize_sop(t),
                        None => String::new(),
                    };
                    let mut info = concat3("Initializing a new SOP '", a.as_str(), "':\n");
                    info.append(text.as_str());
                    let mut s = state.duplicate();
                    s.update_mut(info_k.as_str(), info.to_spvalue());
                    s.update_mut(state_k.as_str(), sop_state_s.to_spvalue());
                    runner.active_state = SOPState::Executing;
                    SopTickOutcome { state: s, write: true, removed: Vec::new(), keys_changed: false, active_operations: names }
                },
                SOPState::Executing => {
                    let mut s = match &runner.active_sop {
                        Some(t) => process_sop_node_tick(sp_id, state.duplicate(), t, tick_elapsed_ms, log_target),
                        None => state.duplicate(),
                    };
                    let root = match &runner.active_sop {
                        Some(t) => t.get_state(&s, log_target),
                        None => SOPState::Executing,
                    };
                    let info = if root != SOPState::Executing {
                        concat3("Completing SOP '", a.as_str(), "'.")
                    } else {
                        concat3("Executing SOP '", a.as_str(), "'.")
                    };
                    s.update_mut(info_k.as_str(), info.to_spvalue());
                    s.update_mut(state_k.as_str(), SOPState::Executing.to_spvalue());
                    runner.active_state = root;
                    SopTickOutcome { state: s, write: true, removed: Vec::new(), keys_changed: false, active_operations: names }
                },
                SOPState::UNKNOWN => {
                    let info = concat3("SOP '", a.as_str(), "' state id UNKNOWN.");
                    let mut s = state.duplicate();
                    s.update_mut(info_k.as_str(), info.to_spvalue());
                    s.update_mut(state_k.as_str(), sop_state_s.to_spvalue());
                    runner.active_id = None;
                    runner.active_state = SOPState::Initial;
                    runner.active_sop = None;
                    SopTickOutcome { state: s, write: true, removed: Vec::new(), keys_changed: true, active_operations: Vec::new() }
                },
                ended => {
                    let info = match ended {
                        SOPState::Fatal => concat3("Fataled SOP '", a.as_str(), "'."),
                        SOPState::Completed => concat3("Completed SOP '", a.as_str(), "'."),
                        _ => concat3("Cancelled SOP '", a.as_str(), "'."),
                    };
                    let run_id = concat("op_", a.as_str());
                    let removed = run_keys(&names, run_id.as_str());
                    let mut s = state.duplicate();
                    s.update_mut(info_k.as_str(), info.to_spvalue());
                    s.update_mut(state_k.as_str(), ended.to_spvalue());
                    runner.active_id = None;
                    runner.active_state = SOPState::Initial;
                    runner.active_sop = None;
                    SopTickOutcome { state: s, write: true, removed, keys_changed: true, active_operations: Vec::new() }
                },
            }
        },
    }
}

/// One tick of the SOP runner.  A run that starts gets a fresh random id
/// and a copy of the SOP's tree with fresh random operation names; the ids
/// are random, every other effect is fixed.
pub fn sop_runner_tick(
    sp_id: &str,
    model: &Model,
    runner: &mut SopRunner,
    state: &State,
    tick_elapsed_ms: i64,
    log_target: &str,
) -> (o: SopTickOutcome)
    requires
        sop_tick_ready(sp_id@, *model, old(runner)@, state@),
    ensures
        exists|id: Seq<char>, u: SOPView|
            #![trigger sop_runner_step(sp_id@, *model, old(runner)@, state@, tick_elapsed_ms, id, u)]
            (starts_run(sp_id@, *model, old(runner)@, state@) ==> is_id(id) && uniquified(
                named_template(sp_id@, *model, state@),
                u,
            )) && ({
                let st = sop_runner_step(sp_id@, *model, old(runner)@, state@, tick_elapsed_ms, id, u);
                &&& final(runner)@ == st.runner
                &&& o.state@ == st.m
                &&& o.write == st.write
                &&& names_of(o.removed@) == st.removed
                &&& o.keys_changed == st.keys_changed
                &&& names_of(o.active_operations@) == active_operation_names(st.runner)
            }),
        runner_wf(final(runner)@),
{
    let enabled_k = concat(sp_id, "_sop_enabled");
    let id_k = concat(sp_id, "_sop_id");
    let enabled = state.get_bool_or_default_to_false(enabled_k.as_str(), log_target);
    let sop_id = state.get_string_or_default_to_unknown(id_k.as_str(), log_target);
    let idx = find_sop(model, sop_id.as_str());
    let (fresh_id, fresh) = match idx {
        Some(i) => if runner.active_id.is_none() && enabled {
            (new_id(), uniquify_sop(&model.sops[i].sop))
        } else {
            (String::new(), SOP::Sequence(Vec::new()))
        },
        None => (String::new(), SOP::Sequence(Vec::new())),
    };
    let ghost id = fresh_id@;
    let ghost u = fresh@;
    let o = sop_runner_tick_with(sp_id, model, runner, state, tick_elapsed_ms, fresh_id, fresh, log_target);
    assert(starts_run(sp_id@, *model, old(runner)@, state@) ==> is_id(id) && uniquified(
        named_template(sp_id@, *model, state@),
        u,
    ));
    o
}

/// Where the search for a SOP by id ends, the SOP there has that id.
proof fn lemma_sop_index_names(model: Model, id: Seq<char>, k: int)
    ensures
        match sop_index(model, id, k) {
            Some(i) => 0 <= i < model.sops.len() && model.sops[i].id@ == id,
            None => true,
        },
    decreases model.sops.len() - k,
{
    if 0 <= k < model.sops.len() && model.sops[k].id@ != id {
        lemma_sop_index_names(model, id, k + 1);
    }
}


/// A state that holds every variable the model refers to, together with
/// the variables of the operations of a run of one of the model's SOPs,
/// holds everything a tick of the run reads and writes: the SOP runner's
/// key set, grown by the run's operations, loses nothing the run needs.
pub proof fn lemma_sop_keys_cover_a_run(model: Model, i: int, u: SOPView, m: StateMap)
    requires
        0 <= i < model.sops.len(),
        uniquified(model.sops[i].sop@, u),
        forall|k: Seq<char>|
            (model_mentions(model, k) || exists|j: int|
                0 <= j < sop_operations(u).len() && op_keys(#[trigger] sop_operations(u)[j].name).contains(k))
                ==> #[trigger] m.contains_key(k),
    ensures
        sop_ticks_covered(u, m),
{
    let t = model.sops[i].sop@;
    crate::sop_runner::lemma_uniquified_operations(t, u);
    assert forall|j: int| 0 <= j < sop_operations(u).len() implies crate::process::tick_covered(
        #[trigger] sop_operations(u)[j],
        m,
    ) by {
        let o = sop_operations(u)[j];
        let p = sop_operations(t)[j];
        assert(crate::sop_runner::is_renamed(p, o));
        assert forall|n: Seq<char>| crate::operation::op_mentions(o, n) implies #[trigger] m.contains_key(n) by {
            assert(crate::operation::op_mentions(p, n));
            assert(sop_operations(t)[j].name == p.name);
            assert(ops_mention(sop_operations(t), n));
            let _ = model.sops[i].id@ + "_sop_information"@;
            assert(model_mentions(model, n));
        }
        crate::auto_operation_driver::lemma_mentioned_covered(o.preconditions, m);
        crate::auto_operation_driver::lemma_mentioned_covered(o.postconditions, m);
        crate::auto_operation_driver::lemma_mentioned_covered(o.fail_transitions, m);
        crate::auto_operation_driver::lemma_mentioned_covered(o.timeout_transitions, m);
        crate::auto_operation_driver::lemma_mentioned_covered(o.bypass_transitions, m);
        crate::auto_operation_driver::lemma_mentioned_covered(o.cancel_transitions, m);
        let keys = op_keys(o.name);
        assert(keys[0] == o.name && keys.contains(keys[0]));
        assert(keys[1] == o.name + "_information"@ && keys.contains(keys[1]));
        assert(keys[2] == o.name + "_elapsed_executing_ms"@ && keys.contains(keys[2]));
        assert(keys[3] == o.name + "_elapsed_disabled_ms"@ && keys.contains(keys[3]));
        assert(keys[4] == o.name + "_failure_retry_counter"@ && keys.contains(keys[4]));
        assert(keys[5] == o.name + "_timeout_retry_counter"@ && keys.contains(keys[5]));
        assert(m.contains_key(keys[0]));
        assert(m.contains_key(keys[1]));
        assert(m.contains_key(keys[2]));
        assert(m.contains_key(keys[3]));
        assert(m.contains_key(keys[4]));
        assert(m.contains_key(keys[5]));
    }
}


// ----------------------------------------------------------------------------
// Laws of the runner.
/// A run that has ended is released on the next tick, and the SOP state
/// written then reads back as the state the run ended in: fatal, completed
/// or cancelled.  The runner is idle afterwards and the run's variables are
/// to be deleted.
pub proof fn lemma_released_run_reports_how_it_ended(
    sp: Seq<char>,
    model: Model,
    r: SopRunnerView,
    m: StateMap,
    tick: i64,
    fresh_id: Seq<char>,
    fresh: SOPView,
)
    requires
        sop_index(model, string_or_unknown(m, sp + "_sop_id"@), 0) is Some,
        r.active_id is Some,
        r.active_state == SOPState::Fatal || r.active_state == SOPState::Completed || r.active_state
            == SOPState::Cancelled,
    ensures
        ({
            let st = sop_runner_step(sp, model, r, m, tick, fresh_id, fresh);
            &&& st.runner == idle_runner()
            &&& st.write
            &&& st.keys_changed
            &&& sop_state_of(string_or_unknown(st.m, sp + "_sop_state"@)) == r.active_state
        }),
{
    lemma_sop_state_round_trip(r.active_state);
}

/// While a run executes, a tick of the runner ticks its tree and records
/// the state the tree is in afterwards; the run keeps its id and tree.
pub proof fn lemma_executing_run_records_its_tree_state(
    sp: Seq<char>,
    model: Model,
    r: SopRunnerView,
    m: StateMap,
    tick: i64,
    fresh_id: Seq<char>,
    fresh: SOPView,
)
    requires
        sop_index(model, string_or_unknown(m, sp + "_sop_id"@), 0) is Some,
        r.active_id is Some,
        r.active_state == SOPState::Executing,
    ensures
        ({
            let st = sop_runner_step(sp, model, r, m, tick, fresh_id, fresh);
            let after = sop_tick(sp, active_tree(r), m, tick);
            &&& st.runner.active_state == sop_state(active_tree(r), after)
            &&& st.runner.active_id == r.active_id
            &&& st.runner.active_sop == r.active_sop
        }),
{
}

} // verus!
