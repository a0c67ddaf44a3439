//! The key sets the runners read.
//!
//! Reading a variable the state does not hold is an error, so each runner's
//! key set has to cover everything it reads: a static part derived from the
//! model (its own `{sp_id}_*` variables and every variable the model
//! mentions) and a dynamic part, the bookkeeping variables of the
//! operations that are currently active.  Key sets are kept sorted and free
//! of duplicates.
use crate::operation::{op_mentions, operation_views, Operation, OperationView};
use crate::predicate::{contains_name, push_name};
use crate::sop::{sop_mentions, sop_operations, Model};
use crate::state_init::{
    get_all_operations_from_sop, operation_variables, runner_entries, runner_head_entries, runner_main_entries,
    runner_tail_entries, sop_information_key, timer_entries, tracked_operation, with_entries,
};
use crate::transition::StateMap;
use crate::value::SPValueView;
use crate::text::{ascii_lowered, lowered_equals, trim, trimmed, concat, lemma_lex_asymmetric, lemma_lex_irreflexive, lemma_lex_total, lemma_lex_transitive, lex_lt, str_eq, str_lt};
use crate::transition::transition_mentions;
use vstd::prelude::*;

verus! {

/// The characters of each string.
pub open spec fn names_of(v: Seq<String>) -> Seq<Seq<char>> {
    Seq::new(v.len(), |i: int| v[i]@)
}

/// Whether each string comes strictly before the next; so no string occurs twice.
pub open spec fn strictly_sorted(s: Seq<Seq<char>>) -> bool {
    forall|i: int, j: int| 0 <= i < j < s.len() ==> lex_lt(#[trigger] s[i], #[trigger] s[j])
}

/// An operation's state variable and its five bookkeeping variables.
pub open spec fn op_keys(n: Seq<char>) -> Seq<Seq<char>> {
    seq![
        n,
        n + "_information"@,
        n + "_elapsed_executing_ms"@,
        n + "_elapsed_disabled_ms"@,
        n + "_failure_retry_counter"@,
        n + "_timeout_retry_counter"@,
    ]
}

/// Whether `k` is one of the variables of the operations named in `ops`.
pub open spec fn is_active_key(ops: Seq<String>, k: Seq<char>) -> bool {
    exists|i: int| 0 <= i < ops.len() && op_keys(#[trigger] ops[i]@).contains(k)
}

/// Appends an operation's state variable and its five bookkeeping variables.
pub fn push_operation_keys(keys: &mut Vec<String>, op_name: &str)
    ensures
        names_of(final(keys)@) == names_of(old(keys)@) + op_keys(op_name@),
{
    let ghost start = names_of(keys@);
    keys.push(String::from_str(op_name));
    keys.push(concat(op_name, "_information"));
    keys.push(concat(op_name, "_elapsed_executing_ms"));
    keys.push(concat(op_name, "_elapsed_disabled_ms"));
    keys.push(concat(op_name, "_failure_retry_counter"));
    keys.push(concat(op_name, "_timeout_retry_counter"));
    assert(names_of(keys@) =~= start + op_keys(op_name@));
}

/// Appending names adds exactly those names.
pub proof fn lemma_appended_names(before: Seq<String>, after: Seq<String>, added: Seq<Seq<char>>)
    requires
        names_of(after) == names_of(before) + added,
    ensures
        forall|n: Seq<char>| #[trigger] contains_name(after, n) == (contains_name(before, n) || added.contains(n)),
{
    let nk = names_of(after);
    let nb = names_of(before);
    assert(nk.len() == after.len());
    assert forall|n: Seq<char>| #[trigger] contains_name(after, n) == (contains_name(before, n) || added.contains(n)) by {
        if contains_name(after, n) {
            let j = choose|j: int| 0 <= j < after.len() && #[trigger] after[j]@ == n;
            assert(nk[j] == after[j]@);
            if j < before.len() {
                assert(nb[j] == before[j]@);
                assert(before[j]@ == n);
            } else {
                assert(nk[j] == added[j - before.len()]);
                assert(added.contains(n));
            }
        }
        if added.contains(n) {
            let x = choose|x: int| 0 <= x < added.len() && added[x] == n;
            assert(nk[before.len() + x] == added[x]);
            assert(nk[before.len() + x] == after[before.len() + x]@);
        }
        if contains_name(before, n) {
            let j = choose|j: int| 0 <= j < before.len() && #[trigger] before[j]@ == n;
            assert(nb[j] == before[j]@);
            assert(nk[j] == nb[j]);
            assert(nk[j] == after[j]@);
        }
    }
}

/// Puts `k` into its place in a sorted list, unless it is there already.
fn insert_sorted(out: &mut Vec<String>, k: String)
    requires
        strictly_sorted(names_of(old(out)@)),
    ensures
        strictly_sorted(names_of(final(out)@)),
        forall|n: Seq<char>| #[trigger] contains_name(final(out)@, n) == (contains_name(old(out)@, n) || n == k@),
{
    let ghost s = names_of(out@);
    let ghost old_out = out@;
    let mut i: usize = 0;
    while i < out.len()
        invariant_except_break
            i <= out.len(),
            out@ == old_out,
            forall|j: int| 0 <= j < i ==> lex_lt(#[trigger] out[j]@, k@),
        ensures
            i <= out.len(),
            out@ == old_out,
            forall|j: int| 0 <= j < i ==> lex_lt(#[trigger] out[j]@, k@),
            i < out.len() ==> !lex_lt(out[i as int]@, k@),
        decreases out.len() - i,
    {
        if !str_lt(out[i].as_str(), k.as_str()) {
            break;
        }
        i += 1;
    }
    if i < out.len() && str_eq(out[i].as_str(), k.as_str()) {
        assert(contains_name(old_out, k@)) by {
            assert(old_out[i as int]@ == k@);
        }
        return;
    }
    proof {
        if i < out.len() {
            lemma_lex_total(out[i as int]@, k@);
            assert(lex_lt(k@, out[i as int]@));
        }
    }
    out.insert(i, k);
    proof {
        let t = names_of(out@);
        assert forall|a: int, b: int| 0 <= a < b < t.len() implies lex_lt(#[trigger] t[a], #[trigger] t[b]) by {
            if b < i {
                assert(t[a] == s[a] && t[b] == s[b]);
            } else if b == i {
                assert(t[a] == s[a]);
            } else if a > i {
                assert(t[a] == s[a - 1] && t[b] == s[b - 1]);
            } else if a == i {
                assert(t[b] == s[b - 1]);
                if b - 1 > i {
                    assert(lex_lt(s[i as int], s[b - 1]));
                    lemma_lex_transitive(k@, s[i as int], s[b - 1]);
                }
            } else {
                assert(t[a] == s[a] && t[b] == s[b - 1]);
                lemma_lex_transitive(s[a], k@, s[i as int]);
                if b - 1 > i as int {
                    assert(lex_lt(s[i as int], s[b - 1]));
                    lemma_lex_transitive(s[a], s[i as int], s[b - 1]);
                }
            }
        }
        assert forall|n: Seq<char>| #[trigger] contains_name(out@, n) == (contains_name(old_out, n) || n == k@) by {
            if contains_name(out@, n) {
                let j = choose|j: int| 0 <= j < out@.len() && #[trigger] out@[j]@ == n;
                if j < i {
                    assert(old_out[j]@ == n);
                } else if j > i {
                    assert(old_out[j - 1]@ == n);
                }
            }
            if contains_name(old_out, n) {
                let j = choose|j: int| 0 <= j < old_out.len() && #[trigger] old_out[j]@ == n;
                if j < i {
                    assert(out@[j]@ == n);
                } else {
                    assert(out@[j + 1]@ == n);
                }
            }
            if n == k@ {
                assert(out@[i as int]@ == n);
            }
        }
    }
}

/// The keys sorted, each once.
pub fn normalize_keys(keys: Vec<String>) -> (r: Vec<String>)
    ensures
        strictly_sorted(names_of(r@)),
        forall|n: Seq<char>| #[trigger] contains_name(r@, n) == contains_name(keys@, n),
{
    let mut out: Vec<String> = Vec::new();
    let mut i: usize = 0;
    while i < keys.len()
        invariant
            i <= keys.len(),
            strictly_sorted(names_of(out@)),
            forall|n: Seq<char>| #[trigger] contains_name(out@, n) == exists|j: int|
                0 <= j < i && #[trigger] keys[j]@ == n,
        decreases keys.len() - i,
    {
        insert_sorted(&mut out, keys[i].clone());
        proof {
            assert forall|n: Seq<char>| #[trigger] contains_name(out@, n) == exists|j: int|
                0 <= j < i + 1 && #[trigger] keys[j]@ == n by {
                if exists|j: int| 0 <= j < i + 1 && #[trigger] keys[j]@ == n {
                    let j = choose|j: int| 0 <= j < i + 1 && #[trigger] keys[j]@ == n;
                    if j < i {
                        assert(exists|j: int| 0 <= j < i && #[trigger] keys[j]@ == n);
                    }
                }
                if n == keys[i as int]@ {
                    assert(exists|j: int| 0 <= j < i + 1 && #[trigger] keys[j]@ == n);
                }
            }
        }
        i += 1;
    }
    proof {
        assert forall|n: Seq<char>| #[trigger] contains_name(out@, n) == contains_name(keys@, n) by {
            if contains_name(keys@, n) {
                let j = choose|j: int| 0 <= j < keys@.len() && #[trigger] keys@[j]@ == n;
                assert(keys[j]@ == n);
            }
        }
    }
    out
}

/// A sorted list holds no string twice.
pub proof fn lemma_sorted_has_no_duplicates(s: Seq<Seq<char>>)
    requires
        strictly_sorted(s),
    ensures
        forall|i: int, j: int| 0 <= i < s.len() && 0 <= j < s.len() && i != j ==> s[i] != s[j],
{
    assert forall|i: int, j: int| 0 <= i < s.len() && 0 <= j < s.len() && i != j implies s[i] != s[j] by {
        if i < j {
            assert(lex_lt(s[i], s[j]));
            lemma_lex_irreflexive(s[i]);
        } else {
            assert(lex_lt(s[j], s[i]));
            lemma_lex_irreflexive(s[j]);
        }
    }
}

/// Two sorted lists of the same strings are the same list: a key set is
/// fixed by the keys it holds.
pub proof fn lemma_sorted_sets_equal(a: Seq<Seq<char>>, b: Seq<Seq<char>>)
    requires
        strictly_sorted(a),
        strictly_sorted(b),
        forall|n: Seq<char>| a.contains(n) == b.contains(n),
    ensures
        a == b,
    decreases a.len() + b.len(),
{
    if a.len() == 0 || b.len() == 0 {
        if a.len() > 0 {
            assert(a.contains(a[0]));
        }
        if b.len() > 0 {
            assert(b.contains(b[0]));
        }
        assert(a =~= b);
    } else {
        // The first of each is the least of the same set, so they agree.
        assert(a.contains(b[0]));
        assert(b.contains(a[0]));
        let i = choose|i: int| 0 <= i < a.len() && a[i] == b[0];
        let j = choose|j: int| 0 <= j < b.len() && b[j] == a[0];
        if i > 0 {
            assert(lex_lt(a[0], a[i]));
            if j > 0 {
                assert(lex_lt(b[0], b[j]));
                lemma_lex_asymmetric(a[0], b[0]);
            }
        }
        if j > 0 && i == 0 {
            assert(lex_lt(b[0], b[j]));
            lemma_lex_irreflexive(a[0]);
        }
        assert(a[0] == b[0]);
        let a1 = a.drop_first();
        let b1 = b.drop_first();
        assert forall|i: int, j: int| 0 <= i < j < a1.len() implies lex_lt(#[trigger] a1[i], #[trigger] a1[j]) by {
            assert(a1[i] == a[i + 1] && a1[j] == a[j + 1]);
        }
        assert forall|i: int, j: int| 0 <= i < j < b1.len() implies lex_lt(#[trigger] b1[i], #[trigger] b1[j]) by {
            assert(b1[i] == b[i + 1] && b1[j] == b[j + 1]);
        }
        assert forall|n: Seq<char>| a1.contains(n) == b1.contains(n) by {
            if a1.contains(n) {
                let x = choose|x: int| 0 <= x < a1.len() && a1[x] == n;
                assert(lex_lt(a[0], a[x + 1]));
                assert(b.contains(n));
                let y = choose|y: int| 0 <= y < b.len() && b[y] == n;
                if y == 0 {
                    lemma_lex_irreflexive(a[0]);
                }
                assert(b1[y - 1] == n);
            }
            if b1.contains(n) {
                let x = choose|x: int| 0 <= x < b1.len() && b1[x] == n;
                assert(lex_lt(b[0], b[x + 1]));
                assert(a.contains(n));
                let y = choose|y: int| 0 <= y < a.len() && a[y] == n;
                if y == 0 {
                    lemma_lex_irreflexive(b[0]);
                }
                assert(a1[y - 1] == n);
            }
        }
        lemma_sorted_sets_equal(a1, b1);
        assert(a =~= seq![a[0]] + a1);
        assert(b =~= seq![b[0]] + b1);
    }
}

/// `static_keys` plus the bookkeeping variables of the active operations,
/// sorted, each once.
pub fn keys_with_active_operations(static_keys: &[String], active_ops: &[String]) -> (r: Vec<String>)
    ensures
        strictly_sorted(names_of(r@)),
        forall|n: Seq<char>| #[trigger] contains_name(r@, n) == (contains_name(static_keys@, n)
            || is_active_key(active_ops@, n)),
{
    let mut keys: Vec<String> = Vec::new();
    let mut i: usize = 0;
    while i < static_keys.len()
        invariant
            i <= static_keys.len(),
            forall|n: Seq<char>| #[trigger] contains_name(keys@, n) == exists|j: int|
                0 <= j < i && #[trigger] static_keys@[j]@ == n,
        decreases static_keys.len() - i,
    {
        push_name(&mut keys, static_keys[i].clone());
        proof {
            assert forall|n: Seq<char>| #[trigger] contains_name(keys@, n) == exists|j: int|
                0 <= j < i + 1 && #[trigger] static_keys@[j]@ == n by {
                if exists|j: int| 0 <= j < i + 1 && #[trigger] static_keys@[j]@ == n {
                    let j = choose|j: int| 0 <= j < i + 1 && #[trigger] static_keys@[j]@ == n;
                    if j < i {
                        assert(exists|j: int| 0 <= j < i && #[trigger] static_keys@[j]@ == n);
                    }
                }
                if n == static_keys@[i as int]@ {
                    assert(exists|j: int| 0 <= j < i + 1 && #[trigger] static_keys@[j]@ == n);
                }
            }
        }
        i += 1;
    }
    let mut i: usize = 0;
    while i < active_ops.len()
        invariant
            i <= active_ops.len(),
            forall|n: Seq<char>| #[trigger] contains_name(keys@, n) == (contains_name(static_keys@, n)
                || exists|j: int| 0 <= j < i && op_keys(#[trigger] active_ops@[j]@).contains(n)),
        decreases active_ops.len() - i,
    {
        let ghost before = keys@;
        push_operation_keys(&mut keys, active_ops[i].as_str());
        proof {
            let ok = op_keys(active_ops@[i as int]@);
            let nk = names_of(keys@);
            let nb = names_of(before);
            assert(nk == nb + ok);
            assert forall|n: Seq<char>| #[trigger] contains_name(keys@, n) == (contains_name(before, n)
                || ok.contains(n)) by {
                if contains_name(keys@, n) {
                    let j = choose|j: int| 0 <= j < keys@.len() && #[trigger] keys@[j]@ == n;
                    assert(nk[j] == keys@[j]@);
                    if j < before.len() {
                        assert(nb[j] == before[j]@);
                        assert(before[j]@ == n);
                    } else {
                        assert(nk[j] == ok[j - before.len()]);
                        assert(ok.contains(n));
                    }
                }
                if ok.contains(n) {
                    let x = choose|x: int| 0 <= x < ok.len() && ok[x] == n;
                    assert(nk[before.len() + x] == ok[x]);
                    assert(nk[before.len() + x] == keys@[before.len() + x]@);
                    assert(keys@[before.len() + x]@ == n);
                }
                if contains_name(before, n) {
                    let j = choose|j: int| 0 <= j < before.len() && #[trigger] before[j]@ == n;
                    assert(nb[j] == before[j]@);
                    assert(nk[j] == nb[j]);
                    assert(nk[j] == keys@[j]@);
                    assert(keys@[j]@ == n);
                }
            }
            assert forall|n: Seq<char>| #[trigger] contains_name(keys@, n) == (contains_name(static_keys@, n)
                || exists|j: int| 0 <= j < i + 1 && op_keys(#[trigger] active_ops@[j]@).contains(n)) by {
                if exists|j: int| 0 <= j < i + 1 && op_keys(#[trigger] active_ops@[j]@).contains(n) {
                    let j = choose|j: int| 0 <= j < i + 1 && op_keys(#[trigger] active_ops@[j]@).contains(n);
                    if j < i {
                        assert(exists|j: int| 0 <= j < i && op_keys(#[trigger] active_ops@[j]@).contains(n));
                    }
                }
                if ok.contains(n) {
                    assert(exists|j: int| 0 <= j < i + 1 && op_keys(#[trigger] active_ops@[j]@).contains(n));
                }
            }
        }
        i += 1;
    }
    normalize_keys(keys)
}

// ----------------------------------------------------------------------------
// What a model mentions.
/// Whether one of the operations is named `n` or mentions `n`.
pub open spec fn ops_mention(s: Seq<OperationView>, n: Seq<char>) -> bool {
    exists|i: int| 0 <= i < s.len() && (#[trigger] s[i].name == n || op_mentions(s[i], n))
}

/// Whether `n` is one of the variables the model refers to: the planned,
/// automatic and mutually exclusive operations' own variables and every
/// variable their transitions mention; every variable of the automatic
/// transitions; and for each SOP its information variable, every variable
/// its operations mention and their own variables.
pub open spec fn model_mentions(model: Model, n: Seq<char>) -> bool {
    ||| ops_mention(operation_views(model.operations@), n)
    ||| ops_mention(operation_views(model.auto_operations@), n)
    ||| ops_mention(operation_views(model.mutexed_auto_operations@), n)
    ||| exists|i: int| 0 <= i < model.auto_transitions.len() && transition_mentions(
        #[trigger] model.auto_transitions[i]@,
        n,
    )
    ||| exists|i: int| 0 <= i < model.sops.len() && (#[trigger] model.sops[i].id@ + "_sop_information"@ == n
        || sop_mentions(model.sops[i].sop@, n) || ops_mention(sop_operations(model.sops[i].sop@), n))
}

/// Appends every string of `v`.
pub(crate) fn push_all(out: &mut Vec<String>, v: &Vec<String>)
    ensures
        forall|n: Seq<char>| #[trigger] contains_name(final(out)@, n) == (contains_name(old(out)@, n)
            || contains_name(v@, n)),
{
    let ghost start = out@;
    let mut i: usize = 0;
    while i < v.len()
        invariant
            i <= v.len(),
            forall|n: Seq<char>| #[trigger] contains_name(out@, n) == (contains_name(start, n) || exists|j: int|
                0 <= j < i && #[trigger] v[j]@ == n),
        decreases v.len() - i,
    {
        push_name(out, v[i].clone());
        proof {
            assert forall|n: Seq<char>| #[trigger] contains_name(out@, n) == (contains_name(start, n)
                || exists|j: int| 0 <= j < i + 1 && #[trigger] v[j]@ == n) by {
                if exists|j: int| 0 <= j < i + 1 && #[trigger] v[j]@ == n {
                    let j = choose|j: int| 0 <= j < i + 1 && #[trigger] v[j]@ == n;
                    if j < i {
                        assert(exists|j: int| 0 <= j < i && #[trigger] v[j]@ == n);
                    }
                }
                if n == v[i as int]@ {
                    assert(exists|j: int| 0 <= j < i + 1 && #[trigger] v[j]@ == n);
                }
            }
        }
        i += 1;
    }
    proof {
        assert forall|n: Seq<char>| #[trigger] contains_name(out@, n) == (contains_name(start, n)
            || contains_name(v@, n)) by {
            if contains_name(v@, n) {
                let j = choose|j: int| 0 <= j < v@.len() && #[trigger] v@[j]@ == n;
                assert(v[j]@ == n);
            }
        }
    }
}

/// Appends the names of the operations and every variable they mention.
fn push_operation_vars(out: &mut Vec<String>, ops: &Vec<crate::operation::Operation>)
    ensures
        forall|n: Seq<char>| #[trigger] contains_name(final(out)@, n) == (contains_name(old(out)@, n)
            || ops_mention(operation_views(ops@), n)),
{
    let ghost start = out@;
    let ghost s = operation_views(ops@);
    let mut i: usize = 0;
    while i < ops.len()
        invariant
            i <= ops.len(),
            s == operation_views(ops@),
            forall|n: Seq<char>| #[trigger] contains_name(out@, n) == (contains_name(start, n) || exists|j: int|
                0 <= j < i && (#[trigger] s[j].name == n || op_mentions(s[j], n))),
        decreases ops.len() - i,
    {
        let ghost before = out@;
        push_name(out, ops[i].name.clone());
        let keys = ops[i].get_all_var_keys();
        push_all(out, &keys);
        proof {
            assert(s[i as int] == ops[i as int]@);
            assert forall|n: Seq<char>| #[trigger] contains_name(out@, n) == (contains_name(start, n)
                || exists|j: int| 0 <= j < i + 1 && (#[trigger] s[j].name == n || op_mentions(s[j], n))) by {
                if exists|j: int| 0 <= j < i + 1 && (#[trigger] s[j].name == n || op_mentions(s[j], n)) {
                    let j = choose|j: int| 0 <= j < i + 1 && (#[trigger] s[j].name == n || op_mentions(s[j], n));
                    if j < i {
                        assert(exists|j: int| 0 <= j < i && (#[trigger] s[j].name == n || op_mentions(s[j], n)));
                    }
                }
                if s[i as int].name == n || op_mentions(s[i as int], n) {
                    assert(exists|j: int| 0 <= j < i + 1 && (#[trigger] s[j].name == n || op_mentions(s[j], n)));
                }
            }
        }
        i += 1;
    }
    assert forall|n: Seq<char>| #[trigger] contains_name(out@, n) == (contains_name(start, n)
        || ops_mention(s, n)) by {
        if ops_mention(s, n) {
            let j = choose|j: int| 0 <= j < s.len() && (#[trigger] s[j].name == n || op_mentions(s[j], n));
            assert(0 <= j < ops.len() && (s[j].name == n || op_mentions(s[j], n)));
        }
    }
}

/// Every state variable the model refers to, sorted, each once.
pub fn model_variable_keys(model: &Model) -> (r: Vec<String>)
    ensures
        strictly_sorted(names_of(r@)),
        forall|n: Seq<char>| #[trigger] contains_name(r@, n) == model_mentions(*model, n),
{
    let mut keys: Vec<String> = Vec::new();
    assert(forall|n: Seq<char>| !contains_name(Seq::<String>::empty(), n));
    push_operation_vars(&mut keys, &model.operations);
    push_operation_vars(&mut keys, &model.auto_operations);
    push_operation_vars(&mut keys, &model.mutexed_auto_operations);
    let ghost after_ops = keys@;
    let mut i: usize = 0;
    while i < model.auto_transitions.len()
        invariant
            i <= model.auto_transitions.len(),
            forall|n: Seq<char>| #[trigger] contains_name(keys@, n) == (contains_name(after_ops, n) || exists|j: int|
                0 <= j < i && transition_mentions(#[trigger] model.auto_transitions[j]@, n)),
        decreases model.auto_transitions.len() - i,
    {
        let tk = model.auto_transitions[i].get_all_var_keys();
        push_all(&mut keys, &tk);
        proof {
            assert forall|n: Seq<char>| #[trigger] contains_name(keys@, n) == (contains_name(after_ops, n)
                || exists|j: int| 0 <= j < i + 1 && transition_mentions(#[trigger] model.auto_transitions[j]@, n)) by {
                if exists|j: int| 0 <= j < i + 1 && transition_mentions(#[trigger] model.auto_transitions[j]@, n) {
                    let j = choose|j: int| 0 <= j < i + 1 && transition_mentions(#[trigger] model.auto_transitions[j]@, n);
                    if j < i {
                        assert(exists|j: int| 0 <= j < i && transition_mentions(#[trigger] model.auto_transitions[j]@, n));
                    }
                }
                if transition_mentions(model.auto_transitions[i as int]@, n) {
                    assert(exists|j: int| 0 <= j < i + 1 && transition_mentions(#[trigger] model.auto_transitions[j]@, n));
                }
            }
        }
        i += 1;
    }
    let ghost after_transitions = keys@;
    let mut i: usize = 0;
    while i < model.sops.len()
        invariant
            i <= model.sops.len(),
            forall|n: Seq<char>| #[trigger] contains_name(keys@, n) == (contains_name(after_transitions, n)
                || exists|j: int| 0 <= j < i && (#[trigger] model.sops[j].id@ + "_sop_information"@ == n
                || sop_mentions(model.sops[j].sop@, n) || ops_mention(sop_operations(model.sops[j].sop@), n))),
        decreases model.sops.len() - i,
    {
        let ghost before = keys@;
        push_name(&mut keys, concat(model.sops[i].id.as_str(), "_sop_information"));
        let sk = model.sops[i].sop.get_all_var_keys();
        push_all(&mut keys, &sk);
        let ops = get_all_operations_from_sop(&model.sops[i].sop);
        let ghost mid = keys@;
        let mut k: usize = 0;
        while k < ops.len()
            invariant
                k <= ops.len(),
                forall|n: Seq<char>| #[trigger] contains_name(keys@, n) == (contains_name(mid, n) || exists|j: int|
                    0 <= j < k && #[trigger] ops[j].name@ == n),
            decreases ops.len() - k,
        {
            push_name(&mut keys, ops[k].name.clone());
            proof {
                assert forall|n: Seq<char>| #[trigger] contains_name(keys@, n) == (contains_name(mid, n)
                    || exists|j: int| 0 <= j < k + 1 && #[trigger] ops[j].name@ == n) by {
                    if exists|j: int| 0 <= j < k + 1 && #[trigger] ops[j].name@ == n {
                        let j = choose|j: int| 0 <= j < k + 1 && #[trigger] ops[j].name@ == n;
                        if j < k {
                            assert(exists|j: int| 0 <= j < k && #[trigger] ops[j].name@ == n);
                        }
                    }
                    if ops[k as int].name@ == n {
                        assert(exists|j: int| 0 <= j < k + 1 && #[trigger] ops[j].name@ == n);
                    }
                }
            }
            k += 1;
        }
        proof {
            let sv = sop_operations(model.sops[i as int].sop@);
            assert(operation_views(ops@) == sv);
            assert forall|n: Seq<char>| #[trigger] contains_name(keys@, n) == (contains_name(after_transitions, n)
                || exists|j: int| 0 <= j < i + 1 && (#[trigger] model.sops[j].id@ + "_sop_information"@ == n
                || sop_mentions(model.sops[j].sop@, n) || ops_mention(sop_operations(model.sops[j].sop@), n))) by {
                let here = model.sops[i as int].id@ + "_sop_information"@ == n
                    || sop_mentions(model.sops[i as int].sop@, n) || ops_mention(sv, n);
                if ops_mention(sv, n) {
                    let x = choose|x: int| 0 <= x < sv.len() && (#[trigger] sv[x].name == n || op_mentions(sv[x], n));
                    assert(sv[x] == ops[x]@);
                    if sv[x].name == n {
                        assert(exists|j: int| 0 <= j < ops.len() && #[trigger] ops[j].name@ == n);
                    } else {
                        assert(sop_mentions(model.sops[i as int].sop@, n));
                    }
                }
                if exists|j: int| 0 <= j < ops.len() && #[trigger] ops[j].name@ == n {
                    let j = choose|j: int| 0 <= j < ops.len() && #[trigger] ops[j].name@ == n;
                    assert(sv[j] == ops[j]@);
                    assert(sv[j].name == n);
                    assert(ops_mention(sv, n));
                }
                if here {
                    assert(exists|j: int| 0 <= j < i + 1 && (#[trigger] model.sops[j].id@ + "_sop_information"@ == n
                        || sop_mentions(model.sops[j].sop@, n) || ops_mention(sop_operations(model.sops[j].sop@), n)));
                }
                if exists|j: int| 0 <= j < i + 1 && (#[trigger] model.sops[j].id@ + "_sop_information"@ == n
                    || sop_mentions(model.sops[j].sop@, n) || ops_mention(sop_operations(model.sops[j].sop@), n)) {
                    let j = choose|j: int| 0 <= j < i + 1 && (#[trigger] model.sops[j].id@ + "_sop_information"@ == n
                        || sop_mentions(model.sops[j].sop@, n) || ops_mention(sop_operations(model.sops[j].sop@), n));
                    if j < i {
                        assert(exists|j: int| 0 <= j < i && (#[trigger] model.sops[j].id@ + "_sop_information"@ == n
                            || sop_mentions(model.sops[j].sop@, n) || ops_mention(sop_operations(model.sops[j].sop@), n)));
                    }
                }
            }
        }
        i += 1;
    }
    assert forall|n: Seq<char>| #[trigger] contains_name(keys@, n) == model_mentions(*model, n) by {
        if exists|j: int| 0 <= j < model.auto_transitions.len() && transition_mentions(#[trigger] model.auto_transitions[j]@, n) {
            assert(contains_name(after_transitions, n));
        }
    }
    normalize_keys(keys)
}

/// The model's variables plus the given extra keys, sorted, each once.
fn with_model_keys(extra: Vec<String>, model: &Model) -> (r: Vec<String>)
    ensures
        strictly_sorted(names_of(r@)),
        forall|n: Seq<char>| #[trigger] contains_name(r@, n) == (contains_name(extra@, n)
            || model_mentions(*model, n)),
{
    let mut keys = extra;
    let mk = model_variable_keys(model);
    push_all(&mut keys, &mk);
    normalize_keys(keys)
}

/// The runner variables the SOP runner reads.
pub open spec fn sop_runner_own_key(sp_id: Seq<char>, n: Seq<char>) -> bool {
    n == sp_id + "_sop_state"@ || n == sp_id + "_sop_enabled"@ || n == sp_id + "_sop_id"@ || n
        == sp_id + "_dashboard_command"@
}

/// The runner variables the plan runner reads.
pub open spec fn plan_runner_own_key(sp_id: Seq<char>, n: Seq<char>) -> bool {
    n == sp_id + "_planner_state"@ || n == sp_id + "_current_goal_state"@ || n == sp_id
        + "_plan_state"@ || n == sp_id + "_plan_current_step"@ || n == sp_id + "_plan"@ || n == sp_id
        + "_terminated_operations"@ || n == sp_id + "_dashboard_command"@
}

/// Keys the SOP runner reads on every tick: its own variables and the model's.
pub fn sop_runner_static_keys(sp_id: &str, model: &Model) -> (r: Vec<String>)
    ensures
        strictly_sorted(names_of(r@)),
        forall|n: Seq<char>| #[trigger] contains_name(r@, n) == (sop_runner_own_key(sp_id@, n)
            || model_mentions(*model, n)),
{
    let mut keys: Vec<String> = Vec::new();
    push_name(&mut keys, concat(sp_id, "_sop_state"));
    push_name(&mut keys, concat(sp_id, "_sop_enabled"));
    push_name(&mut keys, concat(sp_id, "_sop_id"));
    push_name(&mut keys, concat(sp_id, "_dashboard_command"));
    assert(forall|n: Seq<char>| !contains_name(Seq::<String>::empty(), n));
    with_model_keys(keys, model)
}

/// Keys the automatic operation runner reads on every tick: the dashboard
/// command and the model's variables.
pub fn auto_operation_runner_static_keys(sp_id: &str, model: &Model) -> (r: Vec<String>)
    ensures
        strictly_sorted(names_of(r@)),
        forall|n: Seq<char>| #[trigger] contains_name(r@, n) == (n == sp_id@ + "_dashboard_command"@
            || model_mentions(*model, n)),
{
    let mut keys: Vec<String> = Vec::new();
    push_name(&mut keys, concat(sp_id, "_dashboard_command"));
    assert(forall|n: Seq<char>| !contains_name(Seq::<String>::empty(), n));
    with_model_keys(keys, model)
}

/// Keys the plan runner reads on every tick: its own variables and the model's.
pub fn plan_runner_static_keys(sp_id: &str, model: &Model) -> (r: Vec<String>)
    ensures
        strictly_sorted(names_of(r@)),
        forall|n: Seq<char>| #[trigger] contains_name(r@, n) == (plan_runner_own_key(sp_id@, n)
            || model_mentions(*model, n)),
{
    let mut keys: Vec<String> = Vec::new();
    push_name(&mut keys, concat(sp_id, "_planner_state"));
    push_name(&mut keys, concat(sp_id, "_current_goal_state"));
    push_name(&mut keys, concat(sp_id, "_plan_state"));
    push_name(&mut keys, concat(sp_id, "_plan_current_step"));
    push_name(&mut keys, concat(sp_id, "_plan"));
    push_name(&mut keys, concat(sp_id, "_terminated_operations"));
    push_name(&mut keys, concat(sp_id, "_dashboard_command"));
    assert(forall|n: Seq<char>| !contains_name(Seq::<String>::empty(), n));
    with_model_keys(keys, model)
}


/// Whether a configured text asks for the whole state to be read every
/// tick: once trimmed and with its ASCII letters made small, it reads `1`
/// or `true`.
pub open spec fn asks_full_state(text: Seq<char>) -> bool {
    let t = ascii_lowered(trimmed(text));
    t == "1"@ || t == "true"@
}

/// Whether the runners read the whole state every tick rather than their
/// key sets; off unless the configured text is `1` or `true` (in any case,
/// with white space around it allowed).
pub fn read_full_state_enabled(configured: Option<&str>) -> (r: bool)
    ensures
        r == match configured {
            Some(text) => asks_full_state(text@),
            None => false,
        },
{
    match configured {
        Some(text) => {
            let t = trim(text);
            lowered_equals(t, "1") || lowered_equals(t, "true")
        },
        None => false,
    }
}


/// An operation added to a list is referred to by its name and its
/// transitions' variables, and the list's are kept.
pub proof fn lemma_ops_mention_push(s: Seq<OperationView>, o: OperationView, n: Seq<char>)
    ensures
        ops_mention(s.push(o), n) == (ops_mention(s, n) || o.name == n || op_mentions(o, n)),
{
    let t = s.push(o);
    if ops_mention(t, n) {
        let j = choose|j: int| 0 <= j < t.len() && (#[trigger] t[j].name == n || op_mentions(t[j], n));
        if j < s.len() {
            assert(t[j] == s[j]);
            assert(s[j].name == n || op_mentions(s[j], n));
        } else {
            assert(t[j] == o);
        }
    }
    if ops_mention(s, n) {
        let j = choose|j: int| 0 <= j < s.len() && (#[trigger] s[j].name == n || op_mentions(s[j], n));
        assert(t[j] == s[j]);
        assert(t[j].name == n || op_mentions(t[j], n));
    }
    if o.name == n || op_mentions(o, n) {
        assert(t[s.len() as int] == o);
        assert(t[s.len() as int].name == n || op_mentions(t[s.len() as int], n));
    }
}


// ----------------------------------------------------------------------------
// Initialisation covers what the runners read.
/// Whether one of the operations' transitions refers to `n`.
pub open spec fn ops_read(s: Seq<OperationView>, n: Seq<char>) -> bool {
    exists|i: int| 0 <= i < s.len() && op_mentions(#[trigger] s[i], n)
}

/// Whether a guard or an action of the model refers to `n`: a transition of
/// a planned, automatic or mutually exclusive operation, an automatic
/// transition, or a transition of an operation inside a SOP.
pub open spec fn model_reads(model: Model, n: Seq<char>) -> bool {
    ||| ops_read(operation_views(model.operations@), n)
    ||| ops_read(operation_views(model.auto_operations@), n)
    ||| ops_read(operation_views(model.mutexed_auto_operations@), n)
    ||| exists|i: int| 0 <= i < model.auto_transitions.len() && transition_mentions(
        #[trigger] model.auto_transitions[i]@,
        n,
    )
    ||| exists|i: int| 0 <= i < model.sops.len() && sop_mentions(#[trigger] model.sops[i].sop@, n)
}

/// The state a controller starts from: its runner variables, the operation
/// variables of its model, then the domain, each overwriting the one before.
pub open spec fn initial_state(
    sp_id: Seq<char>,
    timers: nat,
    model: Model,
    cov: bool,
    domain: StateMap,
) -> StateMap {
    with_entries(Map::empty(), runner_entries(sp_id, timers)).union_prefer_right(
        operation_variables(model, cov),
    ).union_prefer_right(domain)
}

/// An entry added to a map is in it, whatever is added after it.
proof fn lemma_entry_kept(m: StateMap, s: Seq<(Seq<char>, SPValueView)>, i: int)
    requires
        0 <= i < s.len(),
    ensures
        with_entries(m, s).contains_key(s[i].0),
    decreases s.len(),
{
    if i < s.len() - 1 {
        lemma_entry_kept(m, s.drop_last(), i);
        assert(s.drop_last()[i] == s[i]);
    }
}

/// The runner variables hold each variable a runner of its own reads.
proof fn lemma_runner_entries_hold(sp_id: Seq<char>, timers: nat, k: Seq<char>)
    requires
        sop_runner_own_key(sp_id, k) || plan_runner_own_key(sp_id, k),
    ensures
        with_entries(Map::empty(), runner_entries(sp_id, timers)).contains_key(k),
{
    let a = seq![("empty"@, SPValueView::Bool(None))] + timer_entries(sp_id, timers);
    let h = runner_head_entries(sp_id);
    let m = runner_main_entries(sp_id);
    let t = runner_tail_entries(sp_id);
    let s = runner_entries(sp_id, timers);
    assert(s == a + h + m + t);
    let hi = a.len() as int;
    let mi = (a + h).len() as int;
    if k == sp_id + "_terminated_operations"@ {
        assert(s[hi] == h[0]);
        lemma_entry_kept(Map::empty(), s, hi);
    } else if k == sp_id + "_dashboard_command"@ {
        assert(s[hi + 2] == h[2]);
        lemma_entry_kept(Map::empty(), s, hi + 2);
    } else if k == sp_id + "_current_goal_state"@ {
        assert(s[mi + 3] == m[3]);
        lemma_entry_kept(Map::empty(), s, mi + 3);
    } else if k == sp_id + "_plan"@ {
        assert(s[mi + 4] == m[4]);
        lemma_entry_kept(Map::empty(), s, mi + 4);
    } else if k == sp_id + "_plan_state"@ {
        assert(s[mi + 8] == m[8]);
        lemma_entry_kept(Map::empty(), s, mi + 8);
    } else if k == sp_id + "_planner_state"@ {
        assert(s[mi + 9] == m[9]);
        lemma_entry_kept(Map::empty(), s, mi + 9);
    } else if k == sp_id + "_plan_current_step"@ {
        assert(s[mi + 11] == m[11]);
        lemma_entry_kept(Map::empty(), s, mi + 11);
    } else if k == sp_id + "_sop_id"@ {
        assert(s[mi + 27] == m[27]);
        lemma_entry_kept(Map::empty(), s, mi + 27);
    } else if k == sp_id + "_sop_state"@ {
        assert(s[mi + 28] == m[28]);
        lemma_entry_kept(Map::empty(), s, mi + 28);
    } else {
        assert(k == sp_id + "_sop_enabled"@);
        assert(s[mi + 30] == m[30]);
        lemma_entry_kept(Map::empty(), s, mi + 30);
    }
}

/// A variable that operations name or refer to is an operation variable
/// or is read by a guard or an action of the model.
proof fn lemma_ops_mention_covered(v: Seq<Operation>, k: Seq<char>)
    requires
        ops_mention(operation_views(v), k),
    ensures
        (exists|i: int| 0 <= i < v.len() && #[trigger] v[i].name@ == k) || ops_read(operation_views(v), k),
{
    let s = operation_views(v);
    let j = choose|j: int| 0 <= j < s.len() && (#[trigger] s[j].name == k || op_mentions(s[j], k));
    assert(s[j] == v[j]@);
    if s[j].name == k {
        assert(v[j].name@ == k);
    } else {
        assert(op_mentions(s[j], k));
    }
}

/// Initialisation creates every variable a runner reads on every tick.
///
/// Where the domain holds every variable that a guard or an action of the
/// model refers to, the state made of the runner variables, the model's
/// operation variables and the domain holds each key of
/// `sop_runner_static_keys`, `auto_operation_runner_static_keys` and
/// `plan_runner_static_keys`.
pub proof fn lemma_initialisation_covers_runner_keys(
    sp_id: Seq<char>,
    timers: nat,
    model: Model,
    cov: bool,
    domain: StateMap,
)
    requires
        forall|n: Seq<char>| #[trigger] model_reads(model, n) ==> domain.contains_key(n),
    ensures
        forall|k: Seq<char>|
            (sop_runner_own_key(sp_id, k) || plan_runner_own_key(sp_id, k) || k == sp_id
                + "_dashboard_command"@ || model_mentions(model, k)) ==> #[trigger] initial_state(
                sp_id,
                timers,
                model,
                cov,
                domain,
            ).contains_key(k),
{
    assert forall|k: Seq<char>|
        (sop_runner_own_key(sp_id, k) || plan_runner_own_key(sp_id, k) || k == sp_id
            + "_dashboard_command"@ || model_mentions(model, k)) implies #[trigger] initial_state(
            sp_id,
            timers,
            model,
            cov,
            domain,
        ).contains_key(k) by {
        let ops = operation_variables(model, cov);
        if sop_runner_own_key(sp_id, k) || plan_runner_own_key(sp_id, k) || k == sp_id
            + "_dashboard_command"@ {
            lemma_runner_entries_hold(sp_id, timers, k);
        } else if ops_mention(operation_views(model.operations@), k) {
            lemma_ops_mention_covered(model.operations@, k);
            if !model_reads(model, k) {
                assert(tracked_operation(model, k));
                assert(ops.contains_key(k));
            }
        } else if ops_mention(operation_views(model.auto_operations@), k) {
            lemma_ops_mention_covered(model.auto_operations@, k);
            if !model_reads(model, k) {
                assert(tracked_operation(model, k));
                assert(ops.contains_key(k));
            }
        } else if ops_mention(operation_views(model.mutexed_auto_operations@), k) {
            lemma_ops_mention_covered(model.mutexed_auto_operations@, k);
            if !model_reads(model, k) {
                assert(tracked_operation(model, k));
                assert(ops.contains_key(k));
            }
        } else if exists|i: int| 0 <= i < model.auto_transitions.len() && transition_mentions(
            #[trigger] model.auto_transitions[i]@,
            k,
        ) {
            assert(model_reads(model, k));
        } else {
            let i = choose|i: int| 0 <= i < model.sops.len() && (#[trigger] model.sops[i].id@
                + "_sop_information"@ == k || sop_mentions(model.sops[i].sop@, k) || ops_mention(
                sop_operations(model.sops[i].sop@),
                k,
            ));
            if model.sops[i].id@ + "_sop_information"@ == k {
                assert(sop_information_key(model, k));
                assert(ops.contains_key(k));
            } else if sop_mentions(model.sops[i].sop@, k) {
                assert(model_reads(model, k));
            } else {
                let so = sop_operations(model.sops[i].sop@);
                let j = choose|j: int| 0 <= j < so.len() && (#[trigger] so[j].name == k || op_mentions(so[j], k));
                if so[j].name == k {
                    assert(tracked_operation(model, k));
                    assert(ops.contains_key(k));
                } else {
                    assert(sop_mentions(model.sops[i].sop@, k));
                    assert(model_reads(model, k));
                }
            }
        }
    }
}

} // verus!
