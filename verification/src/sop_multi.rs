//! Several SOPs at once: the per-SOP request and status variables.
//!
//! Every SOP of the model gets its own request variable
//! `{sop.id}_sop_enabled` and status variable `{sop.id}_sop_state`, so any
//! number of SOPs can be started and watched independently.
use crate::predicate::{contains_name, push_name};
use crate::runner_keys::{model_variable_keys, model_mentions, names_of, normalize_keys, strictly_sorted};
use crate::sop::{Model, SOPStruct};
use crate::state::{SPAssignment, SPVariable, State};
use crate::state_init::{add_entries, entry, entry_views, with_entries};
use crate::text::concat;

use crate::value::{bool_view, string_view, SPValue, SPValueType, SPValueView, ToSPValue};
use vstd::prelude::*;

verus! {

/// The request and status variables of the SOPs `sops[..n]`, SOP by SOP:
/// the request `false`, the status `"initial"`.
pub open spec fn multi_sop_entries(sops: Seq<SOPStruct>, n: int) -> Seq<(Seq<char>, SPValueView)>
    decreases n,
{
    if n <= 0 {
        Seq::empty()
    } else {
        multi_sop_entries(sops, n - 1) + seq![
            (sops[n - 1].id@ + "_sop_enabled"@, bool_view(false)),
            (sops[n - 1].id@ + "_sop_state"@, string_view("initial"@)),
        ]
    }
}

/// The per-SOP request and status variables of the given SOPs.
pub fn generate_multi_sop_state_variables(sops: &[SOPStruct], log_target: &str) -> (r: State)
    ensures
        r@ == with_entries(Map::empty(), multi_sop_entries(sops@, sops@.len() as int)),
{
    let mut e: Vec<SPAssignment> = Vec::new();
    let mut i: usize = 0;
    while i < sops.len()
        invariant
            i <= sops.len(),
            entry_views(e@) == multi_sop_entries(sops@, i as int),
        decreases sops.len() - i,
    {
        let ghost before = entry_views(e@);
        e.push(entry(concat(sops[i].id.as_str(), "_sop_enabled"), SPValueType::Bool, false.to_spvalue()));
        e.push(entry(concat(sops[i].id.as_str(), "_sop_state"), SPValueType::String, "initial".to_spvalue()));
        assert(entry_views(e@) =~= multi_sop_entries(sops@, i + 1));
        i += 1;
    }
    let mut state = State::new();
    add_entries(&mut state, &e, log_target);
    state
}

/// Whether `n` is one of the variables the multi-SOP runner itself reads:
/// the dashboard command, its summary, and each SOP's request and status.
pub open spec fn multi_runner_own_key(sp_id: Seq<char>, model: Model, n: Seq<char>) -> bool {
    ||| n == sp_id + "_dashboard_command"@
    ||| n == sp_id + "_sop_runner_information"@
    ||| exists|i: int| 0 <= i < model.sops.len() && (n == #[trigger] model.sops[i].id@ + "_sop_enabled"@
        || n == model.sops[i].id@ + "_sop_state"@)
}

/// Keys the multi-SOP runner reads on every tick: its own variables and the
/// model's, sorted, each once.
pub fn sop_multi_runner_static_keys(sp_id: &str, model: &Model) -> (r: Vec<String>)
    ensures
        strictly_sorted(names_of(r@)),
        forall|n: Seq<char>| #[trigger] contains_name(r@, n) == (multi_runner_own_key(sp_id@, *model, n)
            || model_mentions(*model, n)),
{
    let mut keys: Vec<String> = Vec::new();
    push_name(&mut keys, concat(sp_id, "_dashboard_command"));
    push_name(&mut keys, concat(sp_id, "_sop_runner_information"));
    assert(forall|n: Seq<char>| !contains_name(Seq::<String>::empty(), n));
    let ghost start = keys@;
    let mut i: usize = 0;
    while i < model.sops.len()
        invariant
            i <= model.sops.len(),
            forall|n: Seq<char>| #[trigger] contains_name(keys@, n) == (contains_name(start, n) || exists|j: int|
                0 <= j < i && (n == #[trigger] model.sops[j].id@ + "_sop_enabled"@ || n == model.sops[j].id@ + "_sop_state"@)),
        decreases model.sops.len() - i,
    {
        push_name(&mut keys, concat(model.sops[i].id.as_str(), "_sop_enabled"));
        push_name(&mut keys, concat(model.sops[i].id.as_str(), "_sop_state"));
        proof {
            assert forall|n: Seq<char>| #[trigger] contains_name(keys@, n) == (contains_name(start, n) || exists|j: int|
                0 <= j < i + 1 && (n == #[trigger] model.sops[j].id@ + "_sop_enabled"@ || n == model.sops[j].id@ + "_sop_state"@)) by {
                if exists|j: int| 0 <= j < i + 1 && (n == #[trigger] model.sops[j].id@ + "_sop_enabled"@ || n == model.sops[j].id@ + "_sop_state"@) {
                    let j = choose|j: int| 0 <= j < i + 1 && (n == #[trigger] model.sops[j].id@ + "_sop_enabled"@ || n == model.sops[j].id@ + "_sop_state"@);
                    if j < i {
                        assert(exists|j: int| 0 <= j < i && (n == #[trigger] model.sops[j].id@ + "_sop_enabled"@ || n == model.sops[j].id@ + "_sop_state"@));
                    }
                }
                if n == model.sops[i as int].id@ + "_sop_enabled"@ || n == model.sops[i as int].id@ + "_sop_state"@ {
                    assert(exists|j: int| 0 <= j < i + 1 && (n == #[trigger] model.sops[j].id@ + "_sop_enabled"@ || n == model.sops[j].id@ + "_sop_state"@));
                }
            }
        }
        i += 1;
    }
    let mk = model_variable_keys(model);
    let ghost before = keys@;
    let mut k: usize = 0;
    while k < mk.len()
        invariant
            k <= mk.len(),
            forall|n: Seq<char>| #[trigger] contains_name(keys@, n) == (contains_name(before, n) || exists|j: int|
                0 <= j < k && #[trigger] mk[j]@ == n),
        decreases mk.len() - k,
    {
        push_name(&mut keys, mk[k].clone());
        proof {
            assert forall|n: Seq<char>| #[trigger] contains_name(keys@, n) == (contains_name(before, n) || exists|j: int|
                0 <= j < k + 1 && #[trigger] mk[j]@ == n) by {
                if exists|j: int| 0 <= j < k + 1 && #[trigger] mk[j]@ == n {
                    let j = choose|j: int| 0 <= j < k + 1 && #[trigger] mk[j]@ == n;
                    if j < k {
                        assert(exists|j: int| 0 <= j < k && #[trigger] mk[j]@ == n);
                    }
                }
                if mk[k as int]@ == n {
                    assert(exists|j: int| 0 <= j < k + 1 && #[trigger] mk[j]@ == n);
                }
            }
        }
        k += 1;
    }
    proof {
        assert forall|n: Seq<char>| #[trigger] contains_name(keys@, n) == (multi_runner_own_key(sp_id@, *model, n)
            || model_mentions(*model, n)) by {
            if contains_name(mk@, n) {
                let j = choose|j: int| 0 <= j < mk@.len() && #[trigger] mk@[j]@ == n;
                assert(mk[j]@ == n);
            }
            if exists|j: int| 0 <= j < mk.len() && #[trigger] mk[j]@ == n {
                let j = choose|j: int| 0 <= j < mk.len() && #[trigger] mk[j]@ == n;
                assert(mk@[j]@ == n);
                assert(contains_name(mk@, n));
            }
        }
    }
    normalize_keys(keys)
}

/// Sets a variable, adding it with the value's kind if the state does not
/// hold it yet.
pub fn publish(state: &mut State, key: &str, value: SPValue, log_target: &str)
    ensures
        final(state)@ == old(state)@.insert(key@, value@),
{
    if state.contains(key) {
        state.update_mut(key, value);
    } else {
        let variable = SPVariable::new(key, value.has_type());
        state.add_mut(SPAssignment::new(variable, value), log_target);
    }
}

} // verus!
