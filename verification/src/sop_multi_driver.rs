//! The decisions of one tick of the multi-SOP runner.
//!
//! The runner keeps the runs in flight, at most one per SOP of the model.
//! Each tick, in model order, every SOP whose request variable
//! `{sop.id}_sop_enabled` is set has the request consumed (set back to
//! `false`) and, unless it is already running, starts a run: an id and a
//! copy of the tree with fresh operation names, whose operations get their
//! variables.  With no run in flight and none started the tick writes
//! nothing.  Otherwise each run, in turn and on the state the ones before
//! it left, moves on: a run just started is reported and starts executing;
//! an executing run advances its tree by one tick and, once the root is no
//! longer executing, takes on the root's state; a run in any other state is
//! reported as ended and dropped, and its operations' variables are to be
//! deleted.  Each run writes `{sop.id}_sop_information` and, unless just
//! started, `{sop.id}_sop_state`; the runner writes a summary into
//! `{sp_id}_sop_runner_information`.
use crate::auto_operation_driver::lemma_tick_covered_grow;
use crate::ids::{is_id, new_id};
use crate::process::say;
use crate::render::{sop_text, visualize_sop};
use crate::runner_keys::names_of;
use crate::runner_states::{sop_state_text, SOPState};
use crate::sop::{sop_operations, Model, SOPView, SOP};
use crate::sop_driver::{operation_names, operations_keys, tree_operation_names, with_started};
use crate::sop_multi::publish;
use crate::sop_runner::{process_sop_node_tick, sop_state, sop_tick, sop_ticks_covered, uniquified, uniquify_sop};
use crate::state::{bool_or_false, State};
use crate::state_init::{add_operation_meta_tracking_variables, add_operation_state_tracking_variable, with_metas};
use crate::text::{concat, concat3, nat_decimal, str_eq, u64_decimal};
use crate::transition::StateMap;
use crate::value::{bool_view, string_view, ToSPValue};
use vstd::prelude::*;

verus! {

/// One run in flight.
pub struct ActiveSop {
    /// The id of the SOP the run came from.
    pub template_id: String,
    /// The run's own id: the SOP's id, `_` and a fresh id.
    pub unique_id: String,
    /// How far the runner has taken the run.
    pub tracked_state: SOPState,
    /// The run's tree, with fresh operation names.
    pub sop: SOP,
}

/// The content of a run.
pub struct ActiveSopView {
    pub template_id: Seq<char>,
    pub unique_id: Seq<char>,
    pub tracked_state: SOPState,
    pub sop: SOPView,
}

impl View for ActiveSop {
    type V = ActiveSopView;

    open spec fn view(&self) -> ActiveSopView {
        ActiveSopView {
            template_id: self.template_id@,
            unique_id: self.unique_id@,
            tracked_state: self.tracked_state,
            sop: self.sop@,
        }
    }
}

/// The contents of the runs.
pub open spec fn run_views(v: Seq<ActiveSop>) -> Seq<ActiveSopView> {
    Seq::new(v.len(), |i: int| v[i]@)
}

/// Whether a run of the SOP `id` is in flight.
pub open spec fn template_running(act: Seq<ActiveSopView>, id: Seq<char>) -> bool {
    exists|i: int| 0 <= i < act.len() && #[trigger] act[i].template_id == id
}

/// The runs, the state and the ids of the SOPs started, after the first
/// `n` SOPs of the model have been looked at; SOP `i` starts with the id
/// `ids[i]` and the tree `trees[i]`.
pub open spec fn multi_activation(
    model: Model,
    act: Seq<ActiveSopView>,
    m: StateMap,
    ids: Seq<Seq<char>>,
    trees: Seq<SOPView>,
    n: int,
) -> (Seq<ActiveSopView>, StateMap, Seq<Seq<char>>)
    decreases n,
{
    if n <= 0 {
        (act, m, Seq::empty())
    } else {
        let (a, s, started) = multi_activation(model, act, m, ids, trees, n - 1);
        let id = model.sops[n - 1].id@;
        let key = id + "_sop_enabled"@;
        if !m.contains_key(key) || !bool_or_false(m, key) {
            (a, s, started)
        } else {
            let s2 = s.insert(key, bool_view(false));
            if template_running(a, id) {
                (a, s2, started)
            } else {
                let run = ActiveSopView {
                    template_id: id,
                    unique_id: id + "_"@ + ids[n - 1],
                    tracked_state: SOPState::Initial,
                    sop: trees[n - 1],
                };
                (a.push(run), with_started(operation_names(sop_operations(trees[n - 1])), s2), started.push(id))
            }
        }
    }
}

/// The report of a run that has ended in `s`.
pub open spec fn ended_text(s: SOPState, unique_id: Seq<char>) -> Seq<char> {
    let verb = match s {
        SOPState::Completed => "Completed"@,
        SOPState::Fatal => "Fataled"@,
        SOPState::Cancelled => "Cancelled"@,
        _ => "Abandoned (state UNKNOWN)"@,
    };
    verb + say(" SOP '"@, unique_id, "'."@)
}

/// The state, the runs still in flight and the variables to delete after
/// the first `n` runs of `act` have each moved on.
pub open spec fn multi_advance(sp: Seq<char>, act: Seq<ActiveSopView>, m: StateMap, tick: i64, n: int) -> (
    StateMap,
    Seq<ActiveSopView>,
    Seq<Seq<char>>,
)
    decreases n,
{
    if n <= 0 {
        (m, Seq::empty(), Seq::empty())
    } else {
        let (s, kept, dels) = multi_advance(sp, act, m, tick, n - 1);
        let x = act[n - 1];
        let info_key = x.template_id + "_sop_information"@;
        let state_key = x.template_id + "_sop_state"@;
        match x.tracked_state {
            SOPState::Initial => {
                let info = say("Initializing a new SOP '"@, x.unique_id, "':\n"@) + sop_text(x.sop, Seq::empty());
                (
                    s.insert(info_key, string_view(info)),
                    kept.push(ActiveSopView { tracked_state: SOPState::Executing, ..x }),
                    dels,
                )
            },
            SOPState::Executing => {
                let s1 = sop_tick(sp, x.sop, s, tick);
                let root = sop_state(x.sop, s1);
                let info = if root != SOPState::Executing {
                    say("Completing SOP '"@, x.unique_id, "'."@)
                } else {
                    say("Executing SOP '"@, x.unique_id, "'."@)
                };
                (
                    s1.insert(info_key, string_view(info)).insert(
                        state_key,
                        string_view(sop_state_text(SOPState::Executing)),
                    ),
                    kept.push(ActiveSopView { tracked_state: root, ..x }),
                    dels,
                )
            },
            ended => (
                s.insert(info_key, string_view(ended_text(ended, x.unique_id))).insert(
                    state_key,
                    string_view(sop_state_text(ended)),
                ),
                kept,
                dels + operations_keys(operation_names(sop_operations(x.sop))),
            ),
        }
    }
}

/// The items joined with `sep` between each two.
pub open spec fn joined(s: Seq<Seq<char>>, sep: Seq<char>) -> Seq<char>
    decreases s.len(),
{
    if s.len() == 0 {
        Seq::empty()
    } else if s.len() == 1 {
        s[0]
    } else {
        joined(s.drop_last(), sep) + sep + s.last()
    }
}

/// The summary of the runs in flight.
pub open spec fn runs_summary(act: Seq<ActiveSopView>) -> Seq<char> {
    if act.len() == 0 {
        "No SOPs active."@
    } else {
        nat_decimal(act.len()) + " SOP(s) active: "@ + joined(Seq::new(act.len(), |i: int| act[i].template_id), ", "@)
            + "."@
    }
}

/// What one tick decides: the runs afterwards, the state to write back,
/// whether anything is written, the variables to delete, and whether the
/// set of variables to read has changed.
pub struct MultiStep {
    pub active: Seq<ActiveSopView>,
    pub m: StateMap,
    pub write: bool,
    pub removed: Seq<Seq<char>>,
    pub keys_changed: bool,
}

/// One tick of the multi-SOP runner, where SOP `i` of the model, if it
/// starts, gets the id `ids[i]` and the tree `trees[i]`.
pub open spec fn multi_sop_step(
    sp: Seq<char>,
    model: Model,
    act: Seq<ActiveSopView>,
    m: StateMap,
    tick: i64,
    ids: Seq<Seq<char>>,
    trees: Seq<SOPView>,
) -> MultiStep {
    let (act1, m1, started) = multi_activation(model, act, m, ids, trees, model.sops.len() as int);
    if act1.len() == 0 && started.len() == 0 {
        MultiStep { active: act1, m: m1, write: false, removed: Seq::empty(), keys_changed: false }
    } else {
        let (m2, kept, dels) = multi_advance(sp, act1, m1, tick, act1.len() as int);
        MultiStep {
            active: kept,
            m: m2.insert(sp + "_sop_runner_information"@, string_view(runs_summary(kept))),
            write: true,
            removed: dels,
            keys_changed: started.len() > 0 || dels.len() > 0,
        }
    }
}

/// Whether a tick can run on `m`: each executing run finds what a tick of
/// its tree reads and writes.
pub open spec fn multi_tick_ready(act: Seq<ActiveSopView>, m: StateMap) -> bool {
    forall|i: int| 0 <= i < act.len() && (#[trigger] act[i]).tracked_state == SOPState::Executing ==> sop_ticks_covered(act[i].sop, m)
}

/// The names of the operations of the runs, run by run.
pub open spec fn runs_operation_names(act: Seq<ActiveSopView>) -> Seq<Seq<char>>
    decreases act.len(),
{
    if act.len() == 0 {
        Seq::empty()
    } else {
        runs_operation_names(act.drop_last()) + operation_names(sop_operations(act.last().sop))
    }
}


/// What a tick hands back to the loop around it.
pub struct MultiTickOutcome {
    /// The state to write back.
    pub state: State,
    /// Whether anything is written.
    pub write: bool,
    /// The variables to delete.
    pub removed: Vec<String>,
    /// Whether the set of variables to read has changed.
    pub keys_changed: bool,
    /// The operations of the runs in flight after the tick.
    pub active_operations: Vec<String>,
}

/// What a tick of a tree needs stays there when variables are added.
proof fn lemma_sop_ticks_covered_grow(s: SOPView, m1: StateMap, m2: StateMap)
    requires
        sop_ticks_covered(s, m1),
        forall|k: Seq<char>| m1.contains_key(k) ==> #[trigger] m2.contains_key(k),
    ensures
        sop_ticks_covered(s, m2),
{
    assert forall|i: int| 0 <= i < sop_operations(s).len() implies crate::process::tick_covered(
        #[trigger] sop_operations(s)[i],
        m2,
    ) by {
        lemma_tick_covered_grow(sop_operations(s)[i], m1, m2);
    }
}

/// Starting operations keeps the variables there were.
proof fn lemma_with_started_grows(names: Seq<Seq<char>>, m: StateMap)
    ensures
        forall|k: Seq<char>| m.contains_key(k) ==> #[trigger] with_started(names, m).contains_key(k),
{
    crate::auto_operation_driver::lemma_with_metas_holds(names, m, false);
    assert forall|k: Seq<char>| m.contains_key(k) implies #[trigger] with_started(names, m).contains_key(k) by {
        assert(with_metas(names, m, false).contains_key(k));
    }
}

/// Whether a run of the SOP `id` is in flight.
fn template_is_running(act: &Vec<ActiveSop>, id: &str) -> (r: bool)
    ensures
        r == template_running(run_views(act@), id@),
{
    let mut i: usize = 0;
    while i < act.len()
        invariant
            i <= act.len(),
            forall|j: int| 0 <= j < i ==> act[j].template_id@ != id@,
        decreases act.len() - i,
    {
        if str_eq(act[i].template_id.as_str(), id) {
            assert(run_views(act@)[i as int].template_id == id@);
            return true;
        }
        i += 1;
    }
    assert forall|j: int| 0 <= j < run_views(act@).len() implies #[trigger] run_views(act@)[j].template_id != id@ by {
        assert(run_views(act@)[j] == act[j]@);
    }
    false
}

/// The items joined with `sep` between each two.
fn join_texts(v: &Vec<String>, sep: &str) -> (r: String)
    ensures
        r@ == joined(names_of(v@), sep@),
{
    let mut out = String::new();
    let mut i: usize = 0;
    proof {
        reveal_strlit("");
    }
    assert(out@ =~= joined(names_of(v@).take(0), sep@));
    while i < v.len()
        invariant
            i <= v.len(),
            out@ == joined(names_of(v@).take(i as int), sep@),
        decreases v.len() - i,
    {
        let ghost t = names_of(v@).take(i + 1);
        assert(t.drop_last() =~= names_of(v@).take(i as int));
        assert(t.last() == v[i as int]@);
        if i > 0 {
            out.append(sep);
        } else {
            assert(t =~= seq![v[i as int]@]);
        }
        out.append(v[i].as_str());
        assert(out@ =~= joined(t, sep@));
        i += 1;
    }
    assert(names_of(v@).take(v.len() as int) =~= names_of(v@));
    out
}

/// The summary of the runs in flight.
fn summary_text(act: &Vec<ActiveSop>) -> (r: String)
    ensures
        r@ == runs_summary(run_views(act@)),
{
    if act.len() == 0 {
        return String::from_str("No SOPs active.");
    }
    let mut ids: Vec<String> = Vec::new();
    let mut i: usize = 0;
    while i < act.len()
        invariant
            i <= act.len(),
            ids.len() == i,
            forall|j: int| 0 <= j < i ==> #[trigger] ids[j]@ == act[j].template_id@,
        decreases act.len() - i,
    {
        ids.push(act[i].template_id.clone());
        i += 1;
    }
    let count = u64_decimal(act.len() as u64);
    let mut out = count;
    out.append(" SOP(s) active: ");
    let joined_ids = join_texts(&ids, ", ");
    out.append(joined_ids.as_str());
    out.append(".");
    let ghost av = run_views(act@);
    assert(names_of(ids@) =~= Seq::new(av.len(), |i: int| av[i].template_id));
    assert(out@ =~= runs_summary(av));
    out
}

/// The names of the operations of the runs, run by run.
fn all_run_operation_names(act: &Vec<ActiveSop>) -> (r: Vec<String>)
    ensures
        names_of(r@) == runs_operation_names(run_views(act@)),
{
    let mut out: Vec<String> = Vec::new();
    let mut i: usize = 0;
    assert(run_views(act@).take(0) =~= Seq::<ActiveSopView>::empty());
    assert(names_of(out@) =~= runs_operation_names(run_views(act@).take(0)));
    while i < act.len()
        invariant
            i <= act.len(),
            names_of(out@) == runs_operation_names(run_views(act@).take(i as int)),
        decreases act.len() - i,
    {
        let names = tree_operation_names(&act[i].sop);
        let ghost before = names_of(out@);
        let mut k: usize = 0;
        while k < names.len()
            invariant
                k <= names.len(),
                names_of(out@) == before + names_of(names@).take(k as int),
            decreases names.len() - k,
        {
            let ghost o = out@;
            out.push(names[k].clone());
            assert(names_of(names@).take(k + 1) =~= names_of(names@).take(k as int).push(names[k as int]@));
            assert(names_of(out@) =~= names_of(o).push(names[k as int]@));
            assert(names_of(out@) =~= before + names_of(names@).take(k + 1));
            k += 1;
        }
        let ghost t = run_views(act@).take(i + 1);
        assert(t.drop_last() =~= run_views(act@).take(i as int));
        assert(t.last() == act[i as int]@);
        assert(names_of(names@).take(names.len() as int) =~= names_of(names@));
        assert(names_of(out@) =~= runs_operation_names(t));
        i += 1;
    }
    assert(run_views(act@).take(act.len() as int) =~= run_views(act@));
    out
}


/// The views of the trees.
pub open spec fn tree_views(v: Seq<SOP>) -> Seq<SOPView> {
    Seq::new(v.len(), |i: int| v[i]@)
}

/// Starts a run of each requested SOP that is not running.
fn start_requested(
    model: &Model,
    active: &mut Vec<ActiveSop>,
    state: &State,
    new_state: &mut State,
    ids: &Vec<String>,
    fresh: &Vec<SOP>,
    log_target: &str,
) -> (started: Vec<String>)
    requires
        ids.len() == model.sops.len(),
        fresh.len() == model.sops.len(),
        old(new_state)@ == state@,
        multi_tick_ready(run_views(old(active)@), state@),
    ensures
        (run_views(final(active)@), final(new_state)@, names_of(started@)) == multi_activation(
            *model,
            run_views(old(active)@),
            state@,
            names_of(ids@),
            tree_views(fresh@),
            model.sops.len() as int,
        ),
        forall|k: Seq<char>| state@.contains_key(k) ==> #[trigger] final(new_state)@.contains_key(k),
        multi_tick_ready(run_views(final(active)@), state@),
{
    let ghost m = state@;
    let ghost a0 = run_views(active@);
    let ghost idv = names_of(ids@);
    let ghost trees = tree_views(fresh@);
    let mut started: Vec<String> = Vec::new();
    let mut i: usize = 0;
    while i < model.sops.len()
        invariant
            i <= model.sops.len(),
            ids.len() == model.sops.len(),
            fresh.len() == model.sops.len(),
            m == state@,
            idv == names_of(ids@),
            trees == tree_views(fresh@),
            (run_views(active@), new_state@, names_of(started@)) == multi_activation(*model, a0, m, idv, trees, i as int),
            forall|k: Seq<char>| m.contains_key(k) ==> #[trigger] new_state@.contains_key(k),
            multi_tick_ready(run_views(active@), m),
        decreases model.sops.len() - i,
    {
        let id = model.sops[i].id.as_str();
        let key = concat(id, "_sop_enabled");
        if state.contains(key.as_str()) && state.get_bool_or_default_to_false(key.as_str(), log_target) {
            let ghost s0 = new_state@;
            new_state.update_mut(key.as_str(), false.to_spvalue());
            if !template_is_running(active, id) {
                let uid = concat3(id, "_", ids[i].as_str());
                let tree = fresh[i].duplicate();
                let names = tree_operation_names(&tree);
                let s1 = add_operation_meta_tracking_variables(&names, new_state, false, log_target);
                let s2 = add_operation_state_tracking_variable(&names, &s1, log_target);
                let ghost s_before = new_state@;
                *new_state = s2;
                let ghost av = run_views(active@);
                let ghost sv = names_of(started@);
                active.push(ActiveSop { template_id: String::from_str(id), unique_id: uid, tracked_state: SOPState::Initial, sop: tree });
                started.push(String::from_str(id));
                proof {
                    assert forall|k: Seq<char>| #[trigger] crate::predicate::contains_name(names@, k) == names_of(names@).contains(k) by {
                        if crate::predicate::contains_name(names@, k) {
                            let j = choose|j: int| 0 <= j < names@.len() && #[trigger] names@[j]@ == k;
                            assert(names_of(names@)[j] == k);
                        }
                        if names_of(names@).contains(k) {
                            let j = choose|j: int| 0 <= j < names_of(names@).len() && names_of(names@)[j] == k;
                            assert(names@[j]@ == k);
                        }
                    }
                    assert(new_state@ =~= with_started(names_of(names@), s_before));
                    lemma_with_started_grows(names_of(names@), s_before);
                    assert(idv[i as int] == ids[i as int]@);
                    assert(trees[i as int] == fresh[i as int]@);
                    assert(run_views(active@) =~= av.push(active[active.len() - 1]@));
                    assert(names_of(started@) =~= sv.push(id@));
                }
            }
        }
        i += 1;
    }
    started
}

/// Moves each run on by one tick, in turn, on the state the ones before it left.
fn advance_runs(
    sp_id: &str,
    active: &Vec<ActiveSop>,
    state: State,
    tick_elapsed_ms: i64,
    log_target: &str,
) -> (r: (State, Vec<ActiveSop>, Vec<String>))
    requires
        multi_tick_ready(run_views(active@), state@),
    ensures
        (r.0@, run_views(r.1@), names_of(r.2@)) == multi_advance(sp_id@, run_views(active@), state@, tick_elapsed_ms, active.len() as int),
{
    let ghost m = state@;
    let ghost av = run_views(active@);
    let mut s = state;
    let mut kept: Vec<ActiveSop> = Vec::new();
    let mut dels: Vec<String> = Vec::new();
    let mut i: usize = 0;
    while i < active.len()
        invariant
            i <= active.len(),
            av == run_views(active@),
            (s@, run_views(kept@), names_of(dels@)) == multi_advance(sp_id@, av, m, tick_elapsed_ms, i as int),
            forall|k: Seq<char>| m.contains_key(k) ==> #[trigger] s@.contains_key(k),
            multi_tick_ready(av, m),
        decreases active.len() - i,
    {
        let x = &active[i];
        assert(av[i as int] == x@);
        let info_k = concat(x.template_id.as_str(), "_sop_information");
        let state_k = concat(x.template_id.as_str(), "_sop_state");
        let ghost s0 = s@;
        let ghost kv = run_views(kept@);
        let ghost dv = names_of(dels@);
        match x.tracked_state {
            SOPState::Initial => {
                let mut info = concat3("Initializing a new SOP '", x.unique_id.as_str(), "':\n");
                let drawn = visualize_sop(&x.sop);
                info.append(drawn.as_str());
                publish(&mut s, info_k.as_str(), info.to_spvalue(), log_target);
                kept.push(ActiveSop {
                    template_id: x.template_id.clone(),
                    unique_id: x.unique_id.clone(),
                    tracked_state: SOPState::Executing,
                    sop: x.sop.duplicate(),
                });
                assert(run_views(kept@) =~= kv.push(ActiveSopView { tracked_state: SOPState::Executing, ..x@ }));
            },
            SOPState::Executing => {
                proof {
                    assert(av[i as int].tracked_state == SOPState::Executing);
                    lemma_sop_ticks_covered_grow(x.sop@, m, s@);
                }
                s = process_sop_node_tick(sp_id, s, &x.sop, tick_elapsed_ms, log_target);
                let root = x.sop.get_state(&s, log_target);
                let info = if root != SOPState::Executing {
                    concat3("Completing SOP '", x.unique_id.as_str(), "'.")
                } else {
                    concat3("Executing SOP '", x.unique_id.as_str(), "'.")
                };
                publish(&mut s, info_k.as_str(), info.to_spvalue(), log_target);
                publish(&mut s, state_k.as_str(), SOPState::Executing.to_spvalue(), log_target);
                kept.push(ActiveSop {
                    template_id: x.template_id.clone(),
                    unique_id: x.unique_id.clone(),
                    tracked_state: root,
                    sop: x.sop.duplicate(),
                });
                assert(run_views(kept@) =~= kv.push(ActiveSopView { tracked_state: root, ..x@ }));
            },
            ended => {
                let verb = match ended {
                    SOPState::Completed => "Completed",
                    SOPState::Fatal => "Fataled",
                    SOPState::Cancelled => "Cancelled",
                    _ => "Abandoned (state UNKNOWN)",
                };
                let mut info = String::from_str(verb);
                let tail = concat3(" SOP '", x.unique_id.as_str(), "'.");
                info.append(tail.as_str());
                publish(&mut s, info_k.as_str(), info.to_spvalue(), log_target);
                publish(&mut s, state_k.as_str(), ended.to_spvalue(), log_target);
                let names = tree_operation_names(&x.sop);
                let mut k: usize = 0;
                assert(names_of(names@).take(0) =~= Seq::<Seq<char>>::empty());
                assert(names_of(dels@) =~= dv + operations_keys(names_of(names@).take(0)));
                while k < names.len()
                    invariant
                        k <= names.len(),
                        names_of(dels@) == dv + operations_keys(names_of(names@).take(k as int)),
                    decreases names.len() - k,
                {
                    crate::runner_keys::push_operation_keys(&mut dels, names[k].as_str());
                    assert(names_of(names@).take(k + 1).drop_last() =~= names_of(names@).take(k as int));
                    k += 1;
                }
                assert(names_of(names@).take(names.len() as int) =~= names_of(names@));
                assert(info@ =~= ended_text(ended, x.unique_id@));
            },
        }
        i += 1;
    }
    (s, kept, dels)
}

/// One tick of the multi-SOP runner, where SOP `i` of the model, if it
/// starts, gets the id `ids[i]` and the tree `fresh[i]`.
pub fn sop_multi_tick_with(
    sp_id: &str,
    model: &Model,
    active: &mut Vec<ActiveSop>,
    state: &State,
    tick_elapsed_ms: i64,
    ids: &Vec<String>,
    fresh: &Vec<SOP>,
    log_target: &str,
) -> (o: MultiTickOutcome)
    requires
        ids.len() == model.sops.len(),
        fresh.len() == model.sops.len(),
        multi_tick_ready(run_views(old(active)@), state@),
    ensures
        ({
            let st = multi_sop_step(sp_id@, *model, run_views(old(active)@), state@, tick_elapsed_ms, names_of(ids@), tree_views(fresh@));
            &&& run_views(final(active)@) == st.active
            &&& o.state@ == st.m
            &&& o.write == st.write
            &&& names_of(o.removed@) == st.removed
            &&& o.keys_changed == st.keys_changed
            &&& names_of(o.active_operations@) == runs_operation_names(st.active)
        }),
{
    let mut new_state = state.duplicate();
    let started = start_requested(model, active, state, &mut new_state, ids, fresh, log_target);
    if active.len() == 0 && started.len() == 0 {
        return MultiTickOutcome {
            state: new_state,
            write: false,
            removed: Vec::new(),
            keys_changed: false,
            active_operations: Vec::new(),
        };
    }
    let (mut s, kept, removed) = advance_runs(sp_id, active, new_state, tick_elapsed_ms, log_target);
    *active = kept;
    let summary = summary_text(active);
    let summary_k = concat(sp_id, "_sop_runner_information");
    publish(&mut s, summary_k.as_str(), summary.to_spvalue(), log_target);
    let active_operations = all_run_operation_names(active);
    MultiTickOutcome {
        state: s,
        write: true,
        keys_changed: started.len() > 0 || removed.len() > 0,
        removed,
        active_operations,
    }
}


/// Whether the state asks for SOP `i` of the model to start.
pub open spec fn sop_requested(model: Model, m: StateMap, i: int) -> bool {
    let key = model.sops[i].id@ + "_sop_enabled"@;
    m.contains_key(key) && bool_or_false(m, key)
}

/// One tick of the multi-SOP runner.  A run that starts gets a fresh
/// random id and a copy of its SOP's tree with fresh random operation
/// names; the ids are random, every other effect is fixed.
pub fn sop_multi_tick(
    sp_id: &str,
    model: &Model,
    active: &mut Vec<ActiveSop>,
    state: &State,
    tick_elapsed_ms: i64,
    log_target: &str,
) -> (o: MultiTickOutcome)
    requires
        multi_tick_ready(run_views(old(active)@), state@),
    ensures
        exists|ids: Seq<Seq<char>>, trees: Seq<SOPView>|
            #![trigger multi_sop_step(sp_id@, *model, run_views(old(active)@), state@, tick_elapsed_ms, ids, trees)]
            {
                &&& ids.len() == model.sops.len()
                &&& trees.len() == model.sops.len()
                &&& forall|i: int| 0 <= i < model.sops.len() && sop_requested(*model, state@, i) ==> is_id(
                    #[trigger] ids[i],
                ) && uniquified(model.sops[i].sop@, trees[i])
                &&& ({
                    let st = multi_sop_step(sp_id@, *model, run_views(old(active)@), state@, tick_elapsed_ms, ids, trees);
                    &&& run_views(final(active)@) == st.active
                    &&& o.state@ == st.m
                    &&& o.write == st.write
                    &&& names_of(o.removed@) == st.removed
                    &&& o.keys_changed == st.keys_changed
                    &&& names_of(o.active_operations@) == runs_operation_names(st.active)
                })
            },
{
    let mut ids: Vec<String> = Vec::new();
    let mut fresh: Vec<SOP> = Vec::new();
    let mut i: usize = 0;
    while i < model.sops.len()
        invariant
            i <= model.sops.len(),
            ids.len() == i,
            fresh.len() == i,
            forall|j: int| 0 <= j < i && sop_requested(*model, state@, j) ==> is_id(#[trigger] ids[j]@),
            forall|j: int| 0 <= j < i && sop_requested(*model, state@, j) ==> uniquified(model.sops[j].sop@, #[trigger] fresh[j]@),
        decreases model.sops.len() - i,
    {
        let key = concat(model.sops[i].id.as_str(), "_sop_enabled");
        let ghost ids0 = ids@;
        let ghost fresh0 = fresh@;
        let requested = state.contains(key.as_str()) && state.get_bool_or_default_to_false(key.as_str(), log_target);
        if requested {
            ids.push(new_id());
            fresh.push(uniquify_sop(&model.sops[i].sop));
        } else {
            ids.push(String::new());
            fresh.push(SOP::Sequence(Vec::new()));
        }
        proof {
            assert(requested == sop_requested(*model, state@, i as int));
            assert forall|j: int| 0 <= j < i + 1 && sop_requested(*model, state@, j) implies is_id(#[trigger] ids[j]@) by {
                if j < i {
                    assert(ids[j]@ == ids0[j]@);
                }
            }
            assert forall|j: int| 0 <= j < i + 1 && sop_requested(*model, state@, j) implies uniquified(model.sops[j].sop@, #[trigger] fresh[j]@) by {
                if j < i {
                    assert(fresh[j]@ == fresh0[j]@);
                }
            }
        }
        i += 1;
    }
    let ghost idv = names_of(ids@);
    let ghost tv = tree_views(fresh@);
    assert forall|j: int| 0 <= j < model.sops.len() && sop_requested(*model, state@, j) implies is_id(#[trigger] idv[j])
        && uniquified(model.sops[j].sop@, tv[j]) by {
        assert(idv[j] == ids[j]@);
        assert(tv[j] == fresh[j]@);
        assert(is_id(ids[j]@));
        assert(uniquified(model.sops[j].sop@, fresh[j]@));
    }
    sop_multi_tick_with(sp_id, model, active, state, tick_elapsed_ms, &ids, &fresh, log_target)
}


// ----------------------------------------------------------------------------
// At most one run per SOP.
/// Whether no two runs came from the same SOP.
pub open spec fn one_run_per_sop(act: Seq<ActiveSopView>) -> bool {
    forall|i: int, j: int| 0 <= i < j < act.len() ==> #[trigger] act[i].template_id != #[trigger] act[j].template_id
}

proof fn lemma_activation_keeps_one_run_per_sop(
    model: Model,
    act: Seq<ActiveSopView>,
    m: StateMap,
    ids: Seq<Seq<char>>,
    trees: Seq<SOPView>,
    n: int,
)
    requires
        one_run_per_sop(act),
    ensures
        one_run_per_sop(multi_activation(model, act, m, ids, trees, n).0),
    decreases n,
{
    if n > 0 {
        lemma_activation_keeps_one_run_per_sop(model, act, m, ids, trees, n - 1);
        let (a, s, started) = multi_activation(model, act, m, ids, trees, n - 1);
        let id = model.sops[n - 1].id@;
        if !template_running(a, id) {
            let r = multi_activation(model, act, m, ids, trees, n).0;
            assert forall|i: int, j: int| 0 <= i < j < r.len() implies #[trigger] r[i].template_id != #[trigger] r[j].template_id by {
                if j == a.len() {
                    assert(r[i] == a[i]);
                    assert(r[j].template_id == id);
                } else {
                    assert(r[i] == a[i] && r[j] == a[j]);
                }
            }
        }
    }
}

/// The runs a tick keeps are runs it was given, in the order given.
proof fn lemma_advance_keeps_runs(sp: Seq<char>, act: Seq<ActiveSopView>, m: StateMap, tick: i64, n: int) -> (idx: Seq<int>)
    requires
        0 <= n <= act.len(),
    ensures
        idx.len() == multi_advance(sp, act, m, tick, n).1.len(),
        forall|i: int| 0 <= i < idx.len() ==> 0 <= #[trigger] idx[i] < n,
        forall|i: int, j: int| 0 <= i < j < idx.len() ==> #[trigger] idx[i] < #[trigger] idx[j],
        forall|i: int| 0 <= i < idx.len() ==> (#[trigger] multi_advance(sp, act, m, tick, n).1[i]).template_id == act[idx[i]].template_id,
    decreases n,
{
    if n <= 0 {
        Seq::empty()
    } else {
        let prev = lemma_advance_keeps_runs(sp, act, m, tick, n - 1);
        let (s, kept, dels) = multi_advance(sp, act, m, tick, n - 1);
        let x = act[n - 1];
        let now = multi_advance(sp, act, m, tick, n).1;
        match x.tracked_state {
            SOPState::Initial | SOPState::Executing => {
                let idx = prev.push(n - 1);
                assert forall|i: int| 0 <= i < idx.len() implies (#[trigger] now[i]).template_id == act[idx[i]].template_id by {
                    if i < prev.len() {
                        assert(now[i] == kept[i]);
                    }
                }
                idx
            },
            _ => prev,
        }
    }
}

/// A tick of the multi-SOP runner keeps at most one run per SOP: a SOP
/// asked for while it runs is not started again.
pub proof fn lemma_one_run_per_sop(
    sp: Seq<char>,
    model: Model,
    act: Seq<ActiveSopView>,
    m: StateMap,
    tick: i64,
    ids: Seq<Seq<char>>,
    trees: Seq<SOPView>,
)
    requires
        one_run_per_sop(act),
    ensures
        one_run_per_sop(multi_sop_step(sp, model, act, m, tick, ids, trees).active),
{
    lemma_activation_keeps_one_run_per_sop(model, act, m, ids, trees, model.sops.len() as int);
    let (act1, m1, started) = multi_activation(model, act, m, ids, trees, model.sops.len() as int);
    if !(act1.len() == 0 && started.len() == 0) {
        let idx = lemma_advance_keeps_runs(sp, act1, m1, tick, act1.len() as int);
        let kept = multi_advance(sp, act1, m1, tick, act1.len() as int).1;
        assert forall|i: int, j: int| 0 <= i < j < kept.len() implies #[trigger] kept[i].template_id != #[trigger] kept[j].template_id by {
            assert(idx[i] < idx[j]);
            assert(kept[i].template_id == act1[idx[i]].template_id);
            assert(kept[j].template_id == act1[idx[j]].template_id);
        }
    }
}

} // verus!
