//! Guards: expressions over the state that hold or do not.
//!
//! A guard compares operands, each a variable, a value, or an array or map
//! built from operands.  Evaluating a guard reads every variable it mentions,
//! so a guard is only evaluated in a state that holds all of them.
//!
//! Specifications speak of operands and guards through their views
//! ([`WrappedView`], [`PredicateView`]), in which lists are sequences.
use crate::state::{SPVariable, State};
use crate::value::{
    lemma_array_view, lemma_map_view, ArrayOrUnknown, BoolOrUnknown, MapOrUnknown, SPValue,
    SPValueView,
};
use vstd::prelude::*;

verus! {

/// An operand: a variable, a value, or an array or map of operands.
#[derive(Debug, PartialEq)]
pub enum SPWrapped {
    SPVariable(SPVariable),
    SPValue(SPValue),
    Array(Vec<SPWrapped>),
    Mapping(Vec<(SPWrapped, SPWrapped)>),
}

/// A guard.
#[derive(Debug, PartialEq)]
pub enum Predicate {
    TRUE,
    FALSE,
    NOT(Box<Predicate>),
    AND(Vec<Predicate>),
    OR(Vec<Predicate>),
    EQ(SPWrapped, SPWrapped),
    NEQ(SPWrapped, SPWrapped),
}

/// The content of an operand; a variable is seen by its name.
pub enum WrappedView {
    Variable(Seq<char>),
    Value(SPValueView),
    Array(Seq<WrappedView>),
    Mapping(Seq<(WrappedView, WrappedView)>),
}

/// The content of a guard.
pub enum PredicateView {
    TRUE,
    FALSE,
    NOT(Box<PredicateView>),
    AND(Seq<PredicateView>),
    OR(Seq<PredicateView>),
    EQ(WrappedView, WrappedView),
    NEQ(WrappedView, WrappedView),
}

/// The views of the operands `v[k..]`.
pub open spec fn wrapped_views_from(v: Vec<SPWrapped>, k: int) -> Seq<WrappedView>
    decreases v, v.len() - k,
{
    if k < 0 || k >= v.len() {
        Seq::empty()
    } else {
        proof {
            broadcast use vstd::std_specs::vec::axiom_vec_index_decreases;
        }
        seq![wrapped_view(v[k])] + wrapped_views_from(v, k + 1)
    }
}

/// The views of the operand pairs `v[k..]`.
pub open spec fn wrapped_pair_views_from(v: Vec<(SPWrapped, SPWrapped)>, k: int) -> Seq<
    (WrappedView, WrappedView),
>
    decreases v, v.len() - k,
{
    if k < 0 || k >= v.len() {
        Seq::empty()
    } else {
        proof {
            broadcast use vstd::std_specs::vec::axiom_vec_index_decreases;

            assert(decreases_to!(v[k] => v[k].0));
            assert(decreases_to!(v[k] => v[k].1));
        }
        seq![(wrapped_view(v[k].0), wrapped_view(v[k].1))] + wrapped_pair_views_from(v, k + 1)
    }
}

/// The view of an operand.
pub open spec fn wrapped_view(w: SPWrapped) -> WrappedView
    decreases w, 0int,
{
    match w {
        SPWrapped::SPVariable(v) => WrappedView::Variable(v.name@),
        SPWrapped::SPValue(x) => WrappedView::Value(x@),
        SPWrapped::Array(a) => WrappedView::Array(wrapped_views_from(a, 0)),
        SPWrapped::Mapping(p) => WrappedView::Mapping(wrapped_pair_views_from(p, 0)),
    }
}

/// The views of the guards `v[k..]`.
pub open spec fn predicate_views_from(v: Vec<Predicate>, k: int) -> Seq<PredicateView>
    decreases v, v.len() - k,
{
    if k < 0 || k >= v.len() {
        Seq::empty()
    } else {
        proof {
            broadcast use vstd::std_specs::vec::axiom_vec_index_decreases;
        }
        seq![predicate_view(v[k])] + predicate_views_from(v, k + 1)
    }
}

/// The view of a guard.
pub open spec fn predicate_view(p: Predicate) -> PredicateView
    decreases p, 0int,
{
    match p {
        Predicate::TRUE => PredicateView::TRUE,
        Predicate::FALSE => PredicateView::FALSE,
        Predicate::NOT(q) => PredicateView::NOT(Box::new(predicate_view(*q))),
        Predicate::AND(v) => PredicateView::AND(predicate_views_from(v, 0)),
        Predicate::OR(v) => PredicateView::OR(predicate_views_from(v, 0)),
        Predicate::EQ(a, b) => PredicateView::EQ(wrapped_view(a), wrapped_view(b)),
        Predicate::NEQ(a, b) => PredicateView::NEQ(wrapped_view(a), wrapped_view(b)),
    }
}

impl View for SPWrapped {
    type V = WrappedView;

    open spec fn view(&self) -> WrappedView {
        wrapped_view(*self)
    }
}

impl View for Predicate {
    type V = PredicateView;

    open spec fn view(&self) -> PredicateView {
        predicate_view(*self)
    }
}

pub proof fn lemma_wrapped_views_from(v: Vec<SPWrapped>, k: int)
    requires
        0 <= k <= v.len(),
    ensures
        wrapped_views_from(v, k).len() == v.len() - k,
        forall|j: int| k <= j < v.len() ==> #[trigger] wrapped_views_from(v, k)[j - k] == v[j]@,
    decreases v.len() - k,
{
    if k < v.len() {
        lemma_wrapped_views_from(v, k + 1);
        let tail = wrapped_views_from(v, k + 1);
        assert(wrapped_views_from(v, k) == seq![wrapped_view(v[k])] + tail);
        assert forall|j: int| k <= j < v.len() implies #[trigger] wrapped_views_from(v, k)[j - k]
            == v[j]@ by {
            if j > k {
                assert(wrapped_views_from(v, k)[j - k] == tail[j - (k + 1)]);
            }
        }
    }
}

pub proof fn lemma_wrapped_pair_views_from(v: Vec<(SPWrapped, SPWrapped)>, k: int)
    requires
        0 <= k <= v.len(),
    ensures
        wrapped_pair_views_from(v, k).len() == v.len() - k,
        forall|j: int|
            k <= j < v.len() ==> #[trigger] wrapped_pair_views_from(v, k)[j - k] == (
                v[j].0@,
                v[j].1@,
            ),
    decreases v.len() - k,
{
    if k < v.len() {
        lemma_wrapped_pair_views_from(v, k + 1);
        let tail = wrapped_pair_views_from(v, k + 1);
        assert(wrapped_pair_views_from(v, k) == seq![(wrapped_view(v[k].0), wrapped_view(v[k].1))]
            + tail);
        assert forall|j: int| k <= j < v.len() implies #[trigger] wrapped_pair_views_from(v, k)[j
            - k] == (v[j].0@, v[j].1@) by {
            if j > k {
                assert(wrapped_pair_views_from(v, k)[j - k] == tail[j - (k + 1)]);
            }
        }
    }
}

pub proof fn lemma_predicate_views_from(v: Vec<Predicate>, k: int)
    requires
        0 <= k <= v.len(),
    ensures
        predicate_views_from(v, k).len() == v.len() - k,
        forall|j: int| k <= j < v.len() ==> #[trigger] predicate_views_from(v, k)[j - k] == v[j]@,
    decreases v.len() - k,
{
    if k < v.len() {
        lemma_predicate_views_from(v, k + 1);
        let tail = predicate_views_from(v, k + 1);
        assert(predicate_views_from(v, k) == seq![predicate_view(v[k])] + tail);
        assert forall|j: int| k <= j < v.len() implies #[trigger] predicate_views_from(v, k)[j - k]
            == v[j]@ by {
            if j > k {
                assert(predicate_views_from(v, k)[j - k] == tail[j - (k + 1)]);
            }
        }
    }
}

// ----------------------------------------------------------------------------
// Which variables an operand or guard mentions.
/// Whether one of `s[k..]` mentions the variable `n`.
pub open spec fn operands_mention(s: Seq<WrappedView>, n: Seq<char>, k: int) -> bool
    decreases s, s.len() - k,
{
    if k < 0 || k >= s.len() {
        false
    } else {
        operand_mentions(s[k], n) || operands_mention(s, n, k + 1)
    }
}

/// Whether one of the pairs `s[k..]` mentions the variable `n`.
pub open spec fn operand_pairs_mention(s: Seq<(WrappedView, WrappedView)>, n: Seq<char>, k: int) -> bool
    decreases s, s.len() - k,
{
    if k < 0 || k >= s.len() {
        false
    } else {
        operand_mentions(s[k].0, n) || operand_mentions(s[k].1, n) || operand_pairs_mention(
            s,
            n,
            k + 1,
        )
    }
}

/// Whether the operand mentions the variable `n`.
pub open spec fn operand_mentions(w: WrappedView, n: Seq<char>) -> bool
    decreases w, 0int,
{
    match w {
        WrappedView::Variable(name) => name == n,
        WrappedView::Value(_) => false,
        WrappedView::Array(a) => operands_mention(a, n, 0),
        WrappedView::Mapping(p) => operand_pairs_mention(p, n, 0),
    }
}

/// Whether one of the guards `s[k..]` mentions the variable `n`.
pub open spec fn predicates_mention(s: Seq<PredicateView>, n: Seq<char>, k: int) -> bool
    decreases s, s.len() - k,
{
    if k < 0 || k >= s.len() {
        false
    } else {
        predicate_mentions(s[k], n) || predicates_mention(s, n, k + 1)
    }
}

/// Whether the guard mentions the variable `n`.
pub open spec fn predicate_mentions(p: PredicateView, n: Seq<char>) -> bool
    decreases p, 0int,
{
    match p {
        PredicateView::TRUE | PredicateView::FALSE => false,
        PredicateView::NOT(q) => predicate_mentions(*q, n),
        PredicateView::AND(v) | PredicateView::OR(v) => predicates_mention(v, n, 0),
        PredicateView::EQ(a, b) | PredicateView::NEQ(a, b) => operand_mentions(a, n)
            || operand_mentions(b, n),
    }
}

pub proof fn lemma_operands_mention(s: Seq<WrappedView>, n: Seq<char>, k: int)
    requires
        0 <= k <= s.len(),
    ensures
        operands_mention(s, n, k) == exists|j: int|
            k <= j < s.len() && #[trigger] operand_mentions(s[j], n),
    decreases s.len() - k,
{
    if k < s.len() {
        lemma_operands_mention(s, n, k + 1);
        if operand_mentions(s[k], n) {
            assert(exists|j: int| k <= j < s.len() && #[trigger] operand_mentions(s[j], n));
        }
        if exists|j: int| k <= j < s.len() && #[trigger] operand_mentions(s[j], n) {
            let j = choose|j: int| k <= j < s.len() && #[trigger] operand_mentions(s[j], n);
            if j > k {
                assert(exists|j: int| k + 1 <= j < s.len() && #[trigger] operand_mentions(s[j], n));
            }
        }
    }
}

pub proof fn lemma_operand_pairs_mention(s: Seq<(WrappedView, WrappedView)>, n: Seq<char>, k: int)
    requires
        0 <= k <= s.len(),
    ensures
        operand_pairs_mention(s, n, k) == exists|j: int|
            #![trigger s[j]]
            k <= j < s.len() && (operand_mentions(s[j].0, n) || operand_mentions(s[j].1, n)),
    decreases s.len() - k,
{
    if k < s.len() {
        lemma_operand_pairs_mention(s, n, k + 1);
        if operand_mentions(s[k].0, n) || operand_mentions(s[k].1, n) {
            assert(exists|j: int|
                #![trigger s[j]]
                k <= j < s.len() && (operand_mentions(s[j].0, n) || operand_mentions(s[j].1, n)));
        }
        if exists|j: int|
            #![trigger s[j]]
            k <= j < s.len() && (operand_mentions(s[j].0, n) || operand_mentions(s[j].1, n)) {
            let j = choose|j: int|
                #![trigger s[j]]
                k <= j < s.len() && (operand_mentions(s[j].0, n) || operand_mentions(s[j].1, n));
            if j > k {
                assert(exists|j: int|
                    #![trigger s[j]]
                    k + 1 <= j < s.len() && (operand_mentions(s[j].0, n) || operand_mentions(
                        s[j].1,
                        n,
                    )));
            }
        }
    }
}

pub proof fn lemma_predicates_mention(s: Seq<PredicateView>, n: Seq<char>, k: int)
    requires
        0 <= k <= s.len(),
    ensures
        predicates_mention(s, n, k) == exists|j: int|
            k <= j < s.len() && #[trigger] predicate_mentions(s[j], n),
    decreases s.len() - k,
{
    if k < s.len() {
        lemma_predicates_mention(s, n, k + 1);
        if predicate_mentions(s[k], n) {
            assert(exists|j: int| k <= j < s.len() && #[trigger] predicate_mentions(s[j], n));
        }
        if exists|j: int| k <= j < s.len() && #[trigger] predicate_mentions(s[j], n) {
            let j = choose|j: int| k <= j < s.len() && #[trigger] predicate_mentions(s[j], n);
            if j > k {
                assert(exists|j: int| k + 1 <= j < s.len() && #[trigger] predicate_mentions(s[j], n));
            }
        }
    }
}

/// Whether the state view holds every variable the operand mentions.
pub open spec fn operand_covered(w: WrappedView, m: Map<Seq<char>, SPValueView>) -> bool {
    forall|n: Seq<char>| #[trigger] operand_mentions(w, n) ==> m.contains_key(n)
}

/// Whether the state view holds every variable the guard mentions.
pub open spec fn predicate_covered(p: PredicateView, m: Map<Seq<char>, SPValueView>) -> bool {
    forall|n: Seq<char>| #[trigger] predicate_mentions(p, n) ==> m.contains_key(n)
}

// ----------------------------------------------------------------------------
// Values of operands and truth of guards.
/// The values of the operands `s[k..]`.
pub open spec fn operands_value(s: Seq<WrappedView>, m: Map<Seq<char>, SPValueView>, k: int) -> Seq<
    SPValueView,
>
    decreases s, s.len() - k,
{
    if k < 0 || k >= s.len() {
        Seq::empty()
    } else {
        seq![operand_value(s[k], m)] + operands_value(s, m, k + 1)
    }
}

/// The values of the operand pairs `s[k..]`.
pub open spec fn operand_pairs_value(
    s: Seq<(WrappedView, WrappedView)>,
    m: Map<Seq<char>, SPValueView>,
    k: int,
) -> Seq<(SPValueView, SPValueView)>
    decreases s, s.len() - k,
{
    if k < 0 || k >= s.len() {
        Seq::empty()
    } else {
        seq![(operand_value(s[k].0, m), operand_value(s[k].1, m))] + operand_pairs_value(
            s,
            m,
            k + 1,
        )
    }
}

/// The value of an operand in a state.
pub open spec fn operand_value(w: WrappedView, m: Map<Seq<char>, SPValueView>) -> SPValueView
    decreases w, 0int,
{
    match w {
        WrappedView::Variable(n) => m[n],
        WrappedView::Value(x) => x,
        WrappedView::Array(a) => SPValueView::Array(Some(operands_value(a, m, 0))),
        WrappedView::Mapping(p) => SPValueView::Mapping(Some(operand_pairs_value(p, m, 0))),
    }
}

/// Whether all of the guards `s[k..]` hold.
pub open spec fn all_hold(s: Seq<PredicateView>, m: Map<Seq<char>, SPValueView>, k: int) -> bool
    decreases s, s.len() - k,
{
    if k < 0 || k >= s.len() {
        true
    } else {
        holds(s[k], m) && all_hold(s, m, k + 1)
    }
}

/// Whether some of the guards `s[k..]` holds.
pub open spec fn any_holds(s: Seq<PredicateView>, m: Map<Seq<char>, SPValueView>, k: int) -> bool
    decreases s, s.len() - k,
{
    if k < 0 || k >= s.len() {
        false
    } else {
        holds(s[k], m) || any_holds(s, m, k + 1)
    }
}

/// Whether the guard holds in a state.
pub open spec fn holds(p: PredicateView, m: Map<Seq<char>, SPValueView>) -> bool
    decreases p, 0int,
{
    match p {
        PredicateView::TRUE => true,
        PredicateView::FALSE => false,
        PredicateView::NOT(q) => !holds(*q, m),
        PredicateView::AND(v) => all_hold(v, m, 0),
        PredicateView::OR(v) => any_holds(v, m, 0),
        PredicateView::EQ(a, b) => operand_value(a, m) == operand_value(b, m),
        PredicateView::NEQ(a, b) => operand_value(a, m) != operand_value(b, m),
    }
}

pub proof fn lemma_operands_value(s: Seq<WrappedView>, m: Map<Seq<char>, SPValueView>, k: int)
    requires
        0 <= k <= s.len(),
    ensures
        operands_value(s, m, k).len() == s.len() - k,
        forall|j: int|
            k <= j < s.len() ==> #[trigger] operands_value(s, m, k)[j - k] == operand_value(
                s[j],
                m,
            ),
    decreases s.len() - k,
{
    if k < s.len() {
        lemma_operands_value(s, m, k + 1);
        let tail = operands_value(s, m, k + 1);
        assert(operands_value(s, m, k) == seq![operand_value(s[k], m)] + tail);
        assert forall|j: int| k <= j < s.len() implies #[trigger] operands_value(s, m, k)[j - k]
            == operand_value(s[j], m) by {
            if j > k {
                assert(operands_value(s, m, k)[j - k] == tail[j - (k + 1)]);
            }
        }
    }
}

pub proof fn lemma_operand_pairs_value(
    s: Seq<(WrappedView, WrappedView)>,
    m: Map<Seq<char>, SPValueView>,
    k: int,
)
    requires
        0 <= k <= s.len(),
    ensures
        operand_pairs_value(s, m, k).len() == s.len() - k,
        forall|j: int|
            k <= j < s.len() ==> #[trigger] operand_pairs_value(s, m, k)[j - k] == (
                operand_value(s[j].0, m),
                operand_value(s[j].1, m),
            ),
    decreases s.len() - k,
{
    if k < s.len() {
        lemma_operand_pairs_value(s, m, k + 1);
        let tail = operand_pairs_value(s, m, k + 1);
        assert(operand_pairs_value(s, m, k) == seq![
            (operand_value(s[k].0, m), operand_value(s[k].1, m)),
        ] + tail);
        assert forall|j: int| k <= j < s.len() implies #[trigger] operand_pairs_value(s, m, k)[j
            - k] == (operand_value(s[j].0, m), operand_value(s[j].1, m)) by {
            if j > k {
                assert(operand_pairs_value(s, m, k)[j - k] == tail[j - (k + 1)]);
            }
        }
    }
}

// ----------------------------------------------------------------------------
// Executable operations.
/// Evaluates the operands `v[k..]`.
fn eval_operands(v: &Vec<SPWrapped>, state: &State, k: usize) -> (r: Vec<SPValue>)
    requires
        k <= v.len(),
        forall|n: Seq<char>| operands_mention(wrapped_views_from(*v, 0), n, 0) ==> state@.contains_key(n),
    ensures
        r.len() == v.len() - k,
        forall|j: int| 0 <= j < r.len() ==> #[trigger] r[j]@ == operand_value(v[k + j]@, state@),
    decreases *v, 0int,
{
    proof {
        lemma_wrapped_views_from(*v, 0);
    }
    let mut out: Vec<SPValue> = Vec::new();
    let mut i: usize = k;
    while i < v.len()
        invariant
            k <= i <= v.len(),
            out.len() == i - k,
            wrapped_views_from(*v, 0).len() == v.len(),
            forall|j: int| 0 <= j < v.len() ==> #[trigger] wrapped_views_from(*v, 0)[j - 0] == v[j]@,
            forall|n: Seq<char>| operands_mention(wrapped_views_from(*v, 0), n, 0) ==> state@.contains_key(n),
            forall|j: int| 0 <= j < out.len() ==> #[trigger] out[j]@ == operand_value(v[k + j]@, state@),
        decreases v.len() - i,
    {
        proof {
            broadcast use vstd::std_specs::vec::axiom_vec_index_decreases;

            assert(decreases_to!(*v => v[i as int]));
            assert forall|n: Seq<char>| #[trigger] operand_mentions(v[i as int]@, n) implies state@.contains_key(n) by {
                lemma_operands_mention(wrapped_views_from(*v, 0), n, 0);
                assert(wrapped_views_from(*v, 0)[i as int - 0] == v[i as int]@);
            }
        }
        let a = v[i].value_in(state);
        out.push(a);
        i += 1;
    }
    out
}

/// Evaluates the operand pairs `v[k..]`.
fn eval_operand_pairs(v: &Vec<(SPWrapped, SPWrapped)>, state: &State, k: usize) -> (r: Vec<
    (SPValue, SPValue),
>)
    requires
        k <= v.len(),
        forall|n: Seq<char>| operand_pairs_mention(wrapped_pair_views_from(*v, 0), n, 0) ==> state@.contains_key(n),
    ensures
        r.len() == v.len() - k,
        forall|j: int|
            0 <= j < r.len() ==> #[trigger] r[j].0@ == operand_value(v[k + j].0@, state@) && r[j].1@
                == operand_value(v[k + j].1@, state@),
    decreases *v, 0int,
{
    proof {
        lemma_wrapped_pair_views_from(*v, 0);
    }
    let mut out: Vec<(SPValue, SPValue)> = Vec::new();
    let mut i: usize = k;
    while i < v.len()
        invariant
            k <= i <= v.len(),
            out.len() == i - k,
            wrapped_pair_views_from(*v, 0).len() == v.len(),
            forall|j: int| 0 <= j < v.len() ==> #[trigger] wrapped_pair_views_from(*v, 0)[j - 0] == (v[j].0@, v[j].1@),
            forall|n: Seq<char>| operand_pairs_mention(wrapped_pair_views_from(*v, 0), n, 0) ==> state@.contains_key(n),
            forall|j: int|
                0 <= j < out.len() ==> #[trigger] out[j].0@ == operand_value(v[k + j].0@, state@)
                    && out[j].1@ == operand_value(v[k + j].1@, state@),
        decreases v.len() - i,
    {
        proof {
            broadcast use vstd::std_specs::vec::axiom_vec_index_decreases;

            assert(decreases_to!(*v => v[i as int]));
            assert(decreases_to!(v[i as int] => v[i as int].0));
            assert(decreases_to!(v[i as int] => v[i as int].1));
            assert forall|n: Seq<char>| #[trigger] operand_mentions(v[i as int].0@, n) implies state@.contains_key(n) by {
                lemma_operand_pairs_mention(wrapped_pair_views_from(*v, 0), n, 0);
                assert(wrapped_pair_views_from(*v, 0)[i as int - 0] == (v[i as int].0@, v[i as int].1@));
            }
            assert forall|n: Seq<char>| #[trigger] operand_mentions(v[i as int].1@, n) implies state@.contains_key(n) by {
                lemma_operand_pairs_mention(wrapped_pair_views_from(*v, 0), n, 0);
                assert(wrapped_pair_views_from(*v, 0)[i as int - 0] == (v[i as int].0@, v[i as int].1@));
            }
        }
        let a = v[i].0.value_in(state);
        let b = v[i].1.value_in(state);
        out.push((a, b));
        i += 1;
    }
    out
}

impl SPWrapped {
    /// The value of the operand in `state`.
    pub fn value_in(&self, state: &State) -> (r: SPValue)
        requires
            operand_covered(self@, state@),
        ensures
            r@ == operand_value(self@, state@),
        decreases *self, 1int,
    {
        match self {
            SPWrapped::SPVariable(v) => {
                assert(operand_mentions(self@, v.name@));
                match state.get_value(v.name.as_str(), "") {
                    Some(x) => x,
                    None => SPValue::Bool(BoolOrUnknown::UNKNOWN),
                }
            },
            SPWrapped::SPValue(x) => x.duplicate(),
            SPWrapped::Array(a) => {
                proof {
                    assert(decreases_to!(*self => self->Array_0));
                    assert forall|n: Seq<char>| operands_mention(wrapped_views_from(*a, 0), n, 0) implies state@.contains_key(n) by {
                        assert(operand_mentions(self@, n));
                    }
                }
                let vals = eval_operands(a, state, 0);
                proof {
                    lemma_array_view(vals);
                    lemma_wrapped_views_from(*a, 0);
                    lemma_operands_value(wrapped_views_from(*a, 0), state@, 0);
                    assert(Seq::new(vals.len() as nat, |j: int| vals[j]@) =~= operands_value(
                        wrapped_views_from(*a, 0),
                        state@,
                        0,
                    )) by {
                        assert forall|j: int| 0 <= j < vals.len() implies vals[j]@ == operands_value(wrapped_views_from(*a, 0), state@, 0)[j] by {
                            assert(operands_value(wrapped_views_from(*a, 0), state@, 0)[j - 0] == operand_value(wrapped_views_from(*a, 0)[j], state@));
                            assert(wrapped_views_from(*a, 0)[j - 0] == a[j]@);
                            assert(vals[j]@ == operand_value(a[0 + j]@, state@));
                        }
                    }
                }
                SPValue::Array(ArrayOrUnknown::Array(vals))
            },
            SPWrapped::Mapping(p) => {
                proof {
                    assert(decreases_to!(*self => self->Mapping_0));
                    assert forall|n: Seq<char>| operand_pairs_mention(wrapped_pair_views_from(*p, 0), n, 0) implies state@.contains_key(n) by {
                        assert(operand_mentions(self@, n));
                    }
                }
                let vals = eval_operand_pairs(p, state, 0);
                proof {
                    lemma_map_view(vals);
                    lemma_wrapped_pair_views_from(*p, 0);
                    lemma_operand_pairs_value(wrapped_pair_views_from(*p, 0), state@, 0);
                    assert(Seq::new(vals.len() as nat, |j: int| (vals[j].0@, vals[j].1@)) =~= operand_pairs_value(
                        wrapped_pair_views_from(*p, 0),
                        state@,
                        0,
                    )) by {
                        assert forall|j: int| 0 <= j < vals.len() implies (vals[j].0@, vals[j].1@) == operand_pairs_value(wrapped_pair_views_from(*p, 0), state@, 0)[j] by {
                            assert(operand_pairs_value(wrapped_pair_views_from(*p, 0), state@, 0)[j - 0] == (operand_value(wrapped_pair_views_from(*p, 0)[j].0, state@), operand_value(wrapped_pair_views_from(*p, 0)[j].1, state@)));
                            assert(wrapped_pair_views_from(*p, 0)[j - 0] == (p[j].0@, p[j].1@));
                            assert(vals[j].0@ == operand_value(p[0 + j].0@, state@));
                        }
                    }
                }
                SPValue::Mapping(MapOrUnknown::Mapping(vals))
            },
        }
    }
}


/// Whether some string of `v` holds the characters `n`.
pub open spec fn contains_name(v: Seq<String>, n: Seq<char>) -> bool {
    exists|i: int| 0 <= i < v.len() && #[trigger] v[i]@ == n
}

/// Appends `n` to `out`.
pub fn push_name(out: &mut Vec<String>, n: String)
    ensures
        final(out)@ == old(out)@.push(n),
        forall|x: Seq<char>| #[trigger] contains_name(final(out)@, x) == (contains_name(old(out)@, x) || x == n@),
{
    let ghost o = out@;
    out.push(n);
    proof {
        assert forall|x: Seq<char>| #[trigger] contains_name(out@, x) == (contains_name(o, x) || x == out@[o.len() as int]@) by {
            if contains_name(out@, x) {
                let i = choose|i: int| 0 <= i < out@.len() && #[trigger] out@[i]@ == x;
                if i < o.len() {
                    assert(o[i]@ == x);
                }
            }
            if contains_name(o, x) {
                let i = choose|i: int| 0 <= i < o.len() && #[trigger] o[i]@ == x;
                assert(out@[i]@ == x);
            }
        }
    }
}

/// Whether all of the guards `v[k..]` hold.
fn eval_all(v: &Vec<Predicate>, state: &State, k: usize) -> (r: bool)
    requires
        k <= v.len(),
        forall|n: Seq<char>| predicates_mention(predicate_views_from(*v, 0), n, 0) ==> state@.contains_key(n),
    ensures
        r == all_hold(predicate_views_from(*v, 0), state@, k as int),
    decreases *v, v.len() - k,
{
    proof {
        lemma_predicate_views_from(*v, 0);
    }
    if k >= v.len() {
        true
    } else {
        proof {
            broadcast use vstd::std_specs::vec::axiom_vec_index_decreases;

            assert(decreases_to!(*v => v[k as int]));
            assert(predicate_views_from(*v, 0)[k as int - 0] == v[k as int]@);
            assert forall|n: Seq<char>| #[trigger] predicate_mentions(v[k as int]@, n) implies state@.contains_key(n) by {
                lemma_predicates_mention(predicate_views_from(*v, 0), n, 0);
            }
        }
        if !v[k].eval(state, "") {
            false
        } else {
            eval_all(v, state, k + 1)
        }
    }
}

/// Whether some of the guards `v[k..]` holds.
fn eval_any(v: &Vec<Predicate>, state: &State, k: usize) -> (r: bool)
    requires
        k <= v.len(),
        forall|n: Seq<char>| predicates_mention(predicate_views_from(*v, 0), n, 0) ==> state@.contains_key(n),
    ensures
        r == any_holds(predicate_views_from(*v, 0), state@, k as int),
    decreases *v, v.len() - k,
{
    proof {
        lemma_predicate_views_from(*v, 0);
    }
    if k >= v.len() {
        false
    } else {
        proof {
            broadcast use vstd::std_specs::vec::axiom_vec_index_decreases;

            assert(decreases_to!(*v => v[k as int]));
            assert(predicate_views_from(*v, 0)[k as int - 0] == v[k as int]@);
            assert forall|n: Seq<char>| #[trigger] predicate_mentions(v[k as int]@, n) implies state@.contains_key(n) by {
                lemma_predicates_mention(predicate_views_from(*v, 0), n, 0);
            }
        }
        if v[k].eval(state, "") {
            true
        } else {
            eval_any(v, state, k + 1)
        }
    }
}

/// Copies of the operands `v`.
fn duplicate_operands(v: &Vec<SPWrapped>) -> (r: Vec<SPWrapped>)
    ensures
        wrapped_views_from(r, 0) == wrapped_views_from(*v, 0),
    decreases *v, 0int,
{
    let mut out: Vec<SPWrapped> = Vec::new();
    let mut i: usize = 0;
    while i < v.len()
        invariant
            i <= v.len(),
            out.len() == i,
            forall|j: int| 0 <= j < i ==> #[trigger] out[j]@ == v[j]@,
        decreases v.len() - i,
    {
        proof {
            broadcast use vstd::std_specs::vec::axiom_vec_index_decreases;

            assert(decreases_to!(*v => v[i as int]));
        }
        let e = v[i].duplicate();
        let ghost o = out@;
        out.push(e);
        assert(forall|j: int| 0 <= j < i ==> out[j] == o[j]);
        i += 1;
    }
    proof {
        lemma_wrapped_views_from(out, 0);
        lemma_wrapped_views_from(*v, 0);
        assert forall|j: int| 0 <= j < v.len() implies wrapped_views_from(out, 0)[j] == wrapped_views_from(*v, 0)[j] by {
            assert(wrapped_views_from(out, 0)[j - 0] == out[j]@);
            assert(wrapped_views_from(*v, 0)[j - 0] == v[j]@);
        }
        assert(wrapped_views_from(out, 0) =~= wrapped_views_from(*v, 0));
    }
    out
}

/// Copies of the operand pairs `v`.
fn duplicate_operand_pairs(v: &Vec<(SPWrapped, SPWrapped)>) -> (r: Vec<(SPWrapped, SPWrapped)>)
    ensures
        wrapped_pair_views_from(r, 0) == wrapped_pair_views_from(*v, 0),
    decreases *v, 0int,
{
    let mut out: Vec<(SPWrapped, SPWrapped)> = Vec::new();
    let mut i: usize = 0;
    while i < v.len()
        invariant
            i <= v.len(),
            out.len() == i,
            forall|j: int| 0 <= j < i ==> #[trigger] out[j].0@ == v[j].0@ && out[j].1@ == v[j].1@,
        decreases v.len() - i,
    {
        proof {
            broadcast use vstd::std_specs::vec::axiom_vec_index_decreases;

            assert(decreases_to!(*v => v[i as int]));
            assert(decreases_to!(v[i as int] => v[i as int].0));
            assert(decreases_to!(v[i as int] => v[i as int].1));
        }
        let a = v[i].0.duplicate();
        let b = v[i].1.duplicate();
        let ghost o = out@;
        out.push((a, b));
        assert(forall|j: int| 0 <= j < i ==> out[j] == o[j]);
        i += 1;
    }
    proof {
        lemma_wrapped_pair_views_from(out, 0);
        lemma_wrapped_pair_views_from(*v, 0);
        assert forall|j: int| 0 <= j < v.len() implies wrapped_pair_views_from(out, 0)[j] == wrapped_pair_views_from(*v, 0)[j] by {
            assert(wrapped_pair_views_from(out, 0)[j - 0] == (out[j].0@, out[j].1@));
            assert(wrapped_pair_views_from(*v, 0)[j - 0] == (v[j].0@, v[j].1@));
        }
        assert(wrapped_pair_views_from(out, 0) =~= wrapped_pair_views_from(*v, 0));
    }
    out
}

/// Copies of the guards `v`.
fn duplicate_predicates(v: &Vec<Predicate>) -> (r: Vec<Predicate>)
    ensures
        predicate_views_from(r, 0) == predicate_views_from(*v, 0),
    decreases *v, 0int,
{
    let mut out: Vec<Predicate> = Vec::new();
    let mut i: usize = 0;
    while i < v.len()
        invariant
            i <= v.len(),
            out.len() == i,
            forall|j: int| 0 <= j < i ==> #[trigger] out[j]@ == v[j]@,
        decreases v.len() - i,
    {
        proof {
            broadcast use vstd::std_specs::vec::axiom_vec_index_decreases;

            assert(decreases_to!(*v => v[i as int]));
        }
        let e = v[i].duplicate();
        let ghost o = out@;
        out.push(e);
        assert(forall|j: int| 0 <= j < i ==> out[j] == o[j]);
        i += 1;
    }
    proof {
        lemma_predicate_views_from(out, 0);
        lemma_predicate_views_from(*v, 0);
        assert forall|j: int| 0 <= j < v.len() implies predicate_views_from(out, 0)[j] == predicate_views_from(*v, 0)[j] by {
            assert(predicate_views_from(out, 0)[j - 0] == out[j]@);
            assert(predicate_views_from(*v, 0)[j - 0] == v[j]@);
        }
        assert(predicate_views_from(out, 0) =~= predicate_views_from(*v, 0));
    }
    out
}

impl SPWrapped {
    /// A copy of the operand.
    pub fn duplicate(&self) -> (r: SPWrapped)
        ensures
            r@ == self@,
        decreases *self, 1int,
    {
        match self {
            SPWrapped::SPVariable(v) => SPWrapped::SPVariable(
                SPVariable { name: v.name.clone(), value_type: v.value_type },
            ),
            SPWrapped::SPValue(x) => SPWrapped::SPValue(x.duplicate()),
            SPWrapped::Array(a) => {
                proof {
                    assert(decreases_to!(*self => self->Array_0));
                }
                SPWrapped::Array(duplicate_operands(a))
            },
            SPWrapped::Mapping(p) => {
                proof {
                    assert(decreases_to!(*self => self->Mapping_0));
                }
                SPWrapped::Mapping(duplicate_operand_pairs(p))
            },
        }
    }

    /// Appends to `out` the name of every variable the operand mentions.
    pub fn collect_var_keys(&self, out: &mut Vec<String>)
        ensures
            forall|n: Seq<char>| #[trigger] contains_name(final(out)@, n) == (contains_name(old(out)@, n) || operand_mentions(self@, n)),
        decreases *self, 1int,
    {
        match self {
            SPWrapped::SPVariable(v) => {
                push_name(out, v.name.clone());
            },
            SPWrapped::SPValue(_) => {},
            SPWrapped::Array(a) => {
                let ghost start = out@;
                proof {
                    lemma_wrapped_views_from(*a, 0);
                }
                let mut i: usize = 0;
                while i < a.len()
                    invariant
                        i <= a.len(),
                        *self == SPWrapped::Array(*a),
                        wrapped_views_from(*a, 0).len() == a.len(),
                        forall|j: int| 0 <= j < a.len() ==> #[trigger] wrapped_views_from(*a, 0)[j - 0] == a[j]@,
                        forall|n: Seq<char>| #[trigger] contains_name(out@, n) == (contains_name(start, n) || exists|j: int| 0 <= j < i && #[trigger] operand_mentions(a[j]@, n)),
                    decreases a.len() - i,
                {
                    proof {
                        broadcast use vstd::std_specs::vec::axiom_vec_index_decreases;

                        assert(decreases_to!(*self => self->Array_0));
                        assert(decreases_to!(*a => a[i as int]));
                    }
                    let ghost before = out@;
                    a[i].collect_var_keys(out);
                    proof {
                        assert forall|n: Seq<char>| #[trigger] contains_name(out@, n) == (contains_name(start, n) || exists|j: int| 0 <= j < i + 1 && #[trigger] operand_mentions(a[j]@, n)) by {
                            if operand_mentions(a[i as int]@, n) {
                                assert(exists|j: int| 0 <= j < i + 1 && #[trigger] operand_mentions(a[j]@, n));
                            }
                            if exists|j: int| 0 <= j < i + 1 && #[trigger] operand_mentions(a[j]@, n) {
                                let j = choose|j: int| 0 <= j < i + 1 && #[trigger] operand_mentions(a[j]@, n);
                                if j < i {
                                    assert(exists|j: int| 0 <= j < i && #[trigger] operand_mentions(a[j]@, n));
                                }
                            }
                        }
                    }
                    i += 1;
                }
                proof {
                    assert forall|n: Seq<char>| #[trigger] contains_name(out@, n) == (contains_name(start, n) || operand_mentions(self@, n)) by {
                        let s = wrapped_views_from(*a, 0);
                        lemma_wrapped_views_from(*a, 0);
                        lemma_operands_mention(s, n, 0);
                        if exists|j: int| 0 <= j < a.len() && #[trigger] operand_mentions(a[j]@, n) {
                            let j = choose|j: int| 0 <= j < a.len() && #[trigger] operand_mentions(a[j]@, n);
                            assert(s[j - 0] == a[j]@);
                        }
                        if exists|j: int| 0 <= j < s.len() && #[trigger] operand_mentions(s[j], n) {
                            let j = choose|j: int| 0 <= j < s.len() && #[trigger] operand_mentions(s[j], n);
                            assert(s[j - 0] == a[j]@);
                        }
                    }
                }
            },
            SPWrapped::Mapping(p) => {
                let ghost start = out@;
                proof {
                    lemma_wrapped_pair_views_from(*p, 0);
                }
                let mut i: usize = 0;
                while i < p.len()
                    invariant
                        i <= p.len(),
                        *self == SPWrapped::Mapping(*p),
                        wrapped_pair_views_from(*p, 0).len() == p.len(),
                        forall|j: int| 0 <= j < p.len() ==> #[trigger] wrapped_pair_views_from(*p, 0)[j - 0] == (p[j].0@, p[j].1@),
                        forall|n: Seq<char>| #[trigger] contains_name(out@, n) == (contains_name(start, n) || exists|j: int| #![trigger p[j]] 0 <= j < i && (operand_mentions(p[j].0@, n) || operand_mentions(p[j].1@, n))),
                    decreases p.len() - i,
                {
                    proof {
                        broadcast use vstd::std_specs::vec::axiom_vec_index_decreases;

                        assert(decreases_to!(*self => self->Mapping_0));
                        assert(decreases_to!(*p => p[i as int]));
                        assert(decreases_to!(p[i as int] => p[i as int].0));
                        assert(decreases_to!(p[i as int] => p[i as int].1));
                    }
                    p[i].0.collect_var_keys(out);
                    p[i].1.collect_var_keys(out);
                    proof {
                        assert forall|n: Seq<char>| #[trigger] contains_name(out@, n) == (contains_name(start, n) || exists|j: int| #![trigger p[j]] 0 <= j < i + 1 && (operand_mentions(p[j].0@, n) || operand_mentions(p[j].1@, n))) by {
                            if operand_mentions(p[i as int].0@, n) || operand_mentions(p[i as int].1@, n) {
                                assert(exists|j: int| #![trigger p[j]] 0 <= j < i + 1 && (operand_mentions(p[j].0@, n) || operand_mentions(p[j].1@, n)));
                            }
                            if exists|j: int| #![trigger p[j]] 0 <= j < i + 1 && (operand_mentions(p[j].0@, n) || operand_mentions(p[j].1@, n)) {
                                let j = choose|j: int| #![trigger p[j]] 0 <= j < i + 1 && (operand_mentions(p[j].0@, n) || operand_mentions(p[j].1@, n));
                                if j < i {
                                    assert(exists|j: int| #![trigger p[j]] 0 <= j < i && (operand_mentions(p[j].0@, n) || operand_mentions(p[j].1@, n)));
                                }
                            }
                        }
                    }
                    i += 1;
                }
                proof {
                    assert forall|n: Seq<char>| #[trigger] contains_name(out@, n) == (contains_name(start, n) || operand_mentions(self@, n)) by {
                        let s = wrapped_pair_views_from(*p, 0);
                        lemma_operand_pairs_mention(s, n, 0);
                        if exists|j: int| #![trigger p[j]] 0 <= j < p.len() && (operand_mentions(p[j].0@, n) || operand_mentions(p[j].1@, n)) {
                            let j = choose|j: int| #![trigger p[j]] 0 <= j < p.len() && (operand_mentions(p[j].0@, n) || operand_mentions(p[j].1@, n));
                            assert(s[j - 0] == (p[j].0@, p[j].1@));
                        }
                        if exists|j: int| #![trigger s[j]] 0 <= j < s.len() && (operand_mentions(s[j].0, n) || operand_mentions(s[j].1, n)) {
                            let j = choose|j: int| #![trigger s[j]] 0 <= j < s.len() && (operand_mentions(s[j].0, n) || operand_mentions(s[j].1, n));
                            assert(s[j - 0] == (p[j].0@, p[j].1@));
                        }
                    }
                }
            },
        }
    }
}

impl Predicate {
    /// Whether the guard holds in `state`.
    pub fn eval(&self, state: &State, log_target: &str) -> (r: bool)
        requires
            predicate_covered(self@, state@),
        ensures
            r == holds(self@, state@),
        decreases *self, 1int,
    {
        match self {
            Predicate::TRUE => true,
            Predicate::FALSE => false,
            Predicate::NOT(q) => {
                proof {
                    assert forall|n: Seq<char>| #[trigger] predicate_mentions(q@, n) implies state@.contains_key(n) by {
                        assert(predicate_mentions(self@, n));
                    }
                }
                !q.eval(state, log_target)
            },
            Predicate::AND(v) => {
                proof {
                    assert(decreases_to!(*self => self->AND_0));
                    assert forall|n: Seq<char>| predicates_mention(predicate_views_from(*v, 0), n, 0) implies state@.contains_key(n) by {
                        assert(predicate_mentions(self@, n));
                    }
                }
                eval_all(v, state, 0)
            },
            Predicate::OR(v) => {
                proof {
                    assert(decreases_to!(*self => self->OR_0));
                    assert forall|n: Seq<char>| predicates_mention(predicate_views_from(*v, 0), n, 0) implies state@.contains_key(n) by {
                        assert(predicate_mentions(self@, n));
                    }
                }
                eval_any(v, state, 0)
            },
            Predicate::EQ(a, b) => {
                proof {
                    assert forall|n: Seq<char>| #[trigger] operand_mentions(a@, n) implies state@.contains_key(n) by {
                        assert(predicate_mentions(self@, n));
                    }
                    assert forall|n: Seq<char>| #[trigger] operand_mentions(b@, n) implies state@.contains_key(n) by {
                        assert(predicate_mentions(self@, n));
                    }
                }
                let x = a.value_in(state);
                let y = b.value_in(state);
                x.equals(&y)
            },
            Predicate::NEQ(a, b) => {
                proof {
                    assert forall|n: Seq<char>| #[trigger] operand_mentions(a@, n) implies state@.contains_key(n) by {
                        assert(predicate_mentions(self@, n));
                    }
                    assert forall|n: Seq<char>| #[trigger] operand_mentions(b@, n) implies state@.contains_key(n) by {
                        assert(predicate_mentions(self@, n));
                    }
                }
                let x = a.value_in(state);
                let y = b.value_in(state);
                !x.equals(&y)
            },
        }
    }

    /// A copy of the guard.
    pub fn duplicate(&self) -> (r: Predicate)
        ensures
            r@ == self@,
        decreases *self, 1int,
    {
        match self {
            Predicate::TRUE => Predicate::TRUE,
            Predicate::FALSE => Predicate::FALSE,
            Predicate::NOT(q) => Predicate::NOT(Box::new(q.duplicate())),
            Predicate::AND(v) => {
                proof {
                    assert(decreases_to!(*self => self->AND_0));
                }
                Predicate::AND(duplicate_predicates(v))
            },
            Predicate::OR(v) => {
                proof {
                    assert(decreases_to!(*self => self->OR_0));
                }
                Predicate::OR(duplicate_predicates(v))
            },
            Predicate::EQ(a, b) => Predicate::EQ(a.duplicate(), b.duplicate()),
            Predicate::NEQ(a, b) => Predicate::NEQ(a.duplicate(), b.duplicate()),
        }
    }

    /// Appends to `out` the name of every variable the guard mentions.
    pub fn collect_var_keys(&self, out: &mut Vec<String>)
        ensures
            forall|n: Seq<char>| #[trigger] contains_name(final(out)@, n) == (contains_name(old(out)@, n) || predicate_mentions(self@, n)),
        decreases *self, 1int,
    {
        match self {
            Predicate::TRUE | Predicate::FALSE => {},
            Predicate::NOT(q) => {
                q.collect_var_keys(out);
            },
            Predicate::AND(v) | Predicate::OR(v) => {
                let ghost start = out@;
                proof {
                    lemma_predicate_views_from(*v, 0);
                }
                let mut i: usize = 0;
                while i < v.len()
                    invariant
                        i <= v.len(),
                        *self == Predicate::AND(*v) || *self == Predicate::OR(*v),
                        predicate_views_from(*v, 0).len() == v.len(),
                        forall|j: int| 0 <= j < v.len() ==> #[trigger] predicate_views_from(*v, 0)[j - 0] == v[j]@,
                        forall|n: Seq<char>| #[trigger] contains_name(out@, n) == (contains_name(start, n) || exists|j: int| 0 <= j < i && #[trigger] predicate_mentions(v[j]@, n)),
                    decreases v.len() - i,
                {
                    proof {
                        broadcast use vstd::std_specs::vec::axiom_vec_index_decreases;

                        if *self == Predicate::AND(*v) {
                            assert(decreases_to!(*self => self->AND_0));
                        } else {
                            assert(decreases_to!(*self => self->OR_0));
                        }
                        assert(decreases_to!(*v => v[i as int]));
                    }
                    v[i].collect_var_keys(out);
                    proof {
                        assert forall|n: Seq<char>| #[trigger] contains_name(out@, n) == (contains_name(start, n) || exists|j: int| 0 <= j < i + 1 && #[trigger] predicate_mentions(v[j]@, n)) by {
                            if predicate_mentions(v[i as int]@, n) {
                                assert(exists|j: int| 0 <= j < i + 1 && #[trigger] predicate_mentions(v[j]@, n));
                            }
                            if exists|j: int| 0 <= j < i + 1 && #[trigger] predicate_mentions(v[j]@, n) {
                                let j = choose|j: int| 0 <= j < i + 1 && #[trigger] predicate_mentions(v[j]@, n);
                                if j < i {
                                    assert(exists|j: int| 0 <= j < i && #[trigger] predicate_mentions(v[j]@, n));
                                }
                            }
                        }
                    }
                    i += 1;
                }
                proof {
                    assert forall|n: Seq<char>| #[trigger] contains_name(out@, n) == (contains_name(start, n) || predicate_mentions(self@, n)) by {
                        let s = predicate_views_from(*v, 0);
                        lemma_predicates_mention(s, n, 0);
                        if exists|j: int| 0 <= j < v.len() && #[trigger] predicate_mentions(v[j]@, n) {
                            let j = choose|j: int| 0 <= j < v.len() && #[trigger] predicate_mentions(v[j]@, n);
                            assert(s[j - 0] == v[j]@);
                        }
                        if exists|j: int| 0 <= j < s.len() && #[trigger] predicate_mentions(s[j], n) {
                            let j = choose|j: int| 0 <= j < s.len() && #[trigger] predicate_mentions(s[j], n);
                            assert(s[j - 0] == v[j]@);
                        }
                    }
                }
            },
            Predicate::EQ(a, b) | Predicate::NEQ(a, b) => {
                a.collect_var_keys(out);
                b.collect_var_keys(out);
            },
        }
    }
}

impl Clone for SPWrapped {
    fn clone(&self) -> (r: SPWrapped)
        ensures
            r@ == self@,
    {
        self.duplicate()
    }
}

impl Clone for Predicate {
    fn clone(&self) -> (r: Predicate)
        ensures
            r@ == self@,
    {
        self.duplicate()
    }
}

} // verus!
