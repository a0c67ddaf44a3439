//! Variables, assignments and the state they form.
//!
//! A [`State`] maps variable names to values; no name occurs twice.  In
//! specifications a state is seen as a `Map` from the name's characters to
//! the view of its value.
use crate::text::str_eq;
use crate::value::{
    lemma_array_view, ArrayOrUnknown, BoolOrUnknown, IntOrUnknown, SPValue, SPValueType, SPValueView,
    StringOrUnknown,
};
use vstd::prelude::*;

verus! {

/// A named, typed state variable.
#[derive(Debug, Clone, PartialEq)]
pub struct SPVariable {
    pub name: String,
    pub value_type: SPValueType,
}

impl SPVariable {
    pub fn new(name: &str, value_type: SPValueType) -> (v: SPVariable)
        ensures
            v.name@ == name@,
            v.value_type == value_type,
    {
        SPVariable { name: String::from_str(name), value_type }
    }
}

/// A variable together with its current value.
#[derive(Debug, Clone, PartialEq)]
pub struct SPAssignment {
    pub var: SPVariable,
    pub val: SPValue,
}

impl SPAssignment {
    pub fn new(var: SPVariable, val: SPValue) -> (a: SPAssignment)
        ensures
            a.var == var,
            a.val == val,
    {
        SPAssignment { var, val }
    }
}

/// An assignment of `value` to the variable `key`, of the value's kind.
pub fn create_assignment(key: &str, value: SPValue) -> (a: SPAssignment)
    ensures
        a.var.name@ == key@,
        a.var.value_type == value@.kind(),
        a.val@ == value@,
{
    let t = value.has_type();
    SPAssignment::new(SPVariable::new(key, t), value)
}

/// A set of assignments, at most one per variable name.
#[derive(Debug)]
pub struct State {
    state: Vec<SPAssignment>,
}

/// The value a string lookup yields: the string, or `"UNKNOWN"` when the
/// variable is missing, unknown or not a string.
pub open spec fn string_or_unknown(m: Map<Seq<char>, SPValueView>, k: Seq<char>) -> Seq<char> {
    if m.contains_key(k) {
        match m[k] {
            SPValueView::String(Some(s)) => s,
            _ => "UNKNOWN"@,
        }
    } else {
        "UNKNOWN"@
    }
}

/// The value an integer lookup yields: the integer, or `0`.
pub open spec fn int_or_zero(m: Map<Seq<char>, SPValueView>, k: Seq<char>) -> i64 {
    if m.contains_key(k) {
        match m[k] {
            SPValueView::Int64(Some(i)) => i,
            _ => 0,
        }
    } else {
        0
    }
}

/// The value a boolean lookup yields: the boolean, or `false`.
pub open spec fn bool_or_false(m: Map<Seq<char>, SPValueView>, k: Seq<char>) -> bool {
    if m.contains_key(k) {
        match m[k] {
            SPValueView::Bool(Some(b)) => b,
            _ => false,
        }
    } else {
        false
    }
}

/// The value an array lookup yields: the elements, or none.
pub open spec fn array_or_empty(m: Map<Seq<char>, SPValueView>, k: Seq<char>) -> Seq<
    SPValueView,
> {
    if m.contains_key(k) {
        match m[k] {
            SPValueView::Array(Some(a)) => a,
            _ => Seq::empty(),
        }
    } else {
        Seq::empty()
    }
}

impl State {
    #[verifier::type_invariant]
    closed spec fn names_unique(self) -> bool {
        forall|i: int, j: int|
            0 <= i < j < self.state.len() ==> self.state[i].var.name@ != self.state[j].var.name@
    }

    /// The assignments in storage order.
    pub closed spec fn entries(self) -> Seq<SPAssignment> {
        self.state@
    }

    /// Whether some assignment has the name `k`.
    pub closed spec fn has(self, k: Seq<char>) -> bool {
        exists|i: int| 0 <= i < self.state.len() && #[trigger] self.state[i].var.name@ == k
    }

    /// The position of the assignment named `k`.
    closed spec fn position(self, k: Seq<char>) -> int {
        choose|i: int| 0 <= i < self.state.len() && #[trigger] self.state[i].var.name@ == k
    }

    /// The number of variables.
    pub closed spec fn size(self) -> nat {
        self.state.len() as nat
    }

    /// The declared type of the variable named `k`.
    pub closed spec fn declared_type(self, k: Seq<char>) -> SPValueType {
        self.state[self.position(k)].var.value_type
    }

    proof fn lemma_position(self, i: int)
        requires
            self.names_unique(),
            0 <= i < self.state.len(),
        ensures
            self.has(self.state[i].var.name@),
            self.position(self.state[i].var.name@) == i,
    {
        let k = self.state[i].var.name@;
        assert(self.has(k));
        let p = self.position(k);
        if p != i {
            if p < i {
                assert(self.state[p].var.name@ != self.state[i].var.name@);
            } else {
                assert(self.state[i].var.name@ != self.state[p].var.name@);
            }
        }
    }

    /// A state with no variables.
    pub fn new() -> (s: State)
        ensures
            s@ == Map::<Seq<char>, SPValueView>::empty(),
            s.size() == 0,
    {
        let s = State { state: Vec::new() };
        assert(s@ =~= Map::<Seq<char>, SPValueView>::empty());
        s
    }

    /// The state holding the given variables, a later one replacing an
    /// earlier one of the same name.
    pub fn from_vec(vec: &Vec<(SPVariable, SPValue)>) -> (s: State)
        ensures
            forall|k: Seq<char>| #[trigger] s@.contains_key(k) <==> exists|i: int|
                0 <= i < vec.len() && #[trigger] vec[i].0.name@ == k,
            forall|i: int| 0 <= i < vec.len() && (forall|j: int| i < j < vec.len() ==> vec[j].0.name@ != vec[i].0.name@)
                ==> #[trigger] s@[vec[i].0.name@] == vec[i].1@,
    {
        let mut s = State::new();
        let mut i: usize = 0;
        while i < vec.len()
            invariant
                i <= vec.len(),
                forall|k: Seq<char>| #[trigger] s@.contains_key(k) <==> exists|j: int|
                    0 <= j < i && #[trigger] vec[j].0.name@ == k,
                forall|a: int| 0 <= a < i && (forall|j: int| a < j < i ==> vec[j].0.name@ != vec[a].0.name@)
                    ==> #[trigger] s@[vec[a].0.name@] == vec[a].1@,
            decreases vec.len() - i,
        {
            let var = SPVariable { name: vec[i].0.name.clone(), value_type: vec[i].0.value_type };
            s.add_mut(SPAssignment::new(var, vec[i].1.duplicate()), "");
            proof {
                assert forall|k: Seq<char>| #[trigger] s@.contains_key(k) <==> exists|j: int|
                    0 <= j < i + 1 && #[trigger] vec[j].0.name@ == k by {
                    if exists|j: int| 0 <= j < i + 1 && #[trigger] vec[j].0.name@ == k {
                        let j = choose|j: int| 0 <= j < i + 1 && #[trigger] vec[j].0.name@ == k;
                        if j < i {
                            assert(exists|j: int| 0 <= j < i && #[trigger] vec[j].0.name@ == k);
                        }
                    }
                    if k == vec[i as int].0.name@ {
                        assert(exists|j: int| 0 <= j < i + 1 && #[trigger] vec[j].0.name@ == k);
                    }
                }
            }
            i += 1;
        }
        s
    }

    /// The number of variables.
    pub fn len(&self) -> (n: usize)
        ensures
            n == self.size(),
    {
        self.state.len()
    }

    fn find(&self, key: &str) -> (r: Option<usize>)
        ensures
            match r {
                Some(i) => i < self.state.len() && self.state[i as int].var.name@ == key@
                    && self.position(key@) == i,
                None => !self.has(key@),
            },
    {
        proof {
            use_type_invariant(self);
        }
        let mut i: usize = 0;
        while i < self.state.len()
            invariant
                i <= self.state.len(),
                self.names_unique(),
                forall|j: int| 0 <= j < i ==> self.state[j].var.name@ != key@,
            decreases self.state.len() - i,
        {
            if str_eq(self.state[i].var.name.as_str(), key) {
                proof {
                    self.lemma_position(i as int);
                }
                return Some(i);
            }
            i += 1;
        }
        None
    }

    /// Whether the state holds a variable named `key`.
    pub fn contains(&self, key: &str) -> (b: bool)
        ensures
            b == self@.contains_key(key@),
    {
        self.find(key).is_some()
    }

    /// The value of the variable named `key`, if there is one.
    pub fn get_value(&self, key: &str, log_target: &str) -> (r: Option<SPValue>)
        ensures
            match r {
                Some(v) => self@.contains_key(key@) && v@ == self@[key@],
                None => !self@.contains_key(key@),
            },
    {
        match self.find(key) {
            Some(i) => Some(self.state[i].val.duplicate()),
            None => None,
        }
    }

    /// The variables of `new` that this state lacks or holds with another
    /// value, with their values and kinds in `new`.
    pub fn get_diff_partial_state_and_add_missing(&self, new: &State) -> (r: State)
        ensures
            r@ == changed_entries(self@, new@),
    {
        proof {
            use_type_invariant(new);
        }
        let ghost m0 = self@;
        let ghost m1 = new@;
        let mut r = State::new();
        let mut i: usize = 0;
        assert(r@ =~= Map::new(
            |k: Seq<char>| (exists|j: int| 0 <= j < 0 && #[trigger] new.state[j].var.name@ == k) && (!m0.contains_key(k) || m0[k] != m1[k]),
            |k: Seq<char>| m1[k],
        ));
        while i < new.state.len()
            invariant
                i <= new.state.len(),
                new.names_unique(),
                m0 == self@,
                m1 == new@,
                r@ == Map::new(
                    |k: Seq<char>| (exists|j: int| 0 <= j < i && #[trigger] new.state[j].var.name@ == k) && (!m0.contains_key(k) || m0[k] != m1[k]),
                    |k: Seq<char>| m1[k],
                ),
            decreases new.state.len() - i,
        {
            let a = &new.state[i];
            proof {
                new.lemma_position(i as int);
                assert(m1.contains_key(a.var.name@));
                assert(m1[a.var.name@] == a.val@);
            }
            let differs = if self.contains(a.var.name.as_str()) {
                !self.value_of(a.var.name.as_str()).equals(&a.val)
            } else {
                true
            };
            let ghost before = r@;
            if differs {
                r.add_mut(
                    SPAssignment { var: SPVariable { name: a.var.name.clone(), value_type: a.var.value_type }, val: a.val.duplicate() },
                    "",
                );
            }
            proof {
                let k0 = a.var.name@;
                assert forall|k: Seq<char>| #![trigger r@.contains_key(k)]
                    r@.contains_key(k) == ((exists|j: int| 0 <= j < i + 1 && #[trigger] new.state[j].var.name@ == k) && (!m0.contains_key(k) || m0[k] != m1[k])) by {
                    if k == k0 {
                        assert(new.state[i as int].var.name@ == k);
                    } else {
                        if exists|j: int| 0 <= j < i + 1 && #[trigger] new.state[j].var.name@ == k {
                            let j = choose|j: int| 0 <= j < i + 1 && #[trigger] new.state[j].var.name@ == k;
                            assert(j < i);
                        }
                    }
                }
                assert(r@ =~= Map::new(
                    |k: Seq<char>| (exists|j: int| 0 <= j < i + 1 && #[trigger] new.state[j].var.name@ == k) && (!m0.contains_key(k) || m0[k] != m1[k]),
                    |k: Seq<char>| m1[k],
                ));
            }
            i += 1;
        }
        proof {
            assert forall|k: Seq<char>| m1.contains_key(k) == (exists|j: int| 0 <= j < new.state.len() && #[trigger] new.state[j].var.name@ == k) by {
                if m1.contains_key(k) {
                    assert(new.has(k));
                }
            }
        }
        assert(r@ =~= changed_entries(m0, m1));
        r
    }

    /// The names of all variables, each once, in storage order.
    pub fn names(&self) -> (r: Vec<String>)
        ensures
            r.len() == self.size(),
            forall|k: Seq<char>| #[trigger] self@.contains_key(k) <==> exists|i: int|
                0 <= i < r.len() && #[trigger] r[i]@ == k,
            forall|i: int, j: int| 0 <= i < j < r.len() ==> r[i]@ != r[j]@,
    {
        proof {
            use_type_invariant(self);
        }
        let mut r: Vec<String> = Vec::new();
        let mut i: usize = 0;
        while i < self.state.len()
            invariant
                i <= self.state.len(),
                self.names_unique(),
                r.len() == i,
                forall|j: int| 0 <= j < i ==> #[trigger] r[j]@ == self.state[j].var.name@,
            decreases self.state.len() - i,
        {
            r.push(self.state[i].var.name.clone());
            i += 1;
        }
        proof {
            assert forall|k: Seq<char>| #[trigger] self@.contains_key(k) <==> exists|i: int|
                0 <= i < r.len() && #[trigger] r[i]@ == k by {
                if self@.contains_key(k) {
                    assert(self.has(k));
                    let i = choose|i: int| 0 <= i < self.state.len() && #[trigger] self.state[i].var.name@ == k;
                    assert(r[i]@ == k);
                }
                if exists|i: int| 0 <= i < r.len() && #[trigger] r[i]@ == k {
                    let i = choose|i: int| 0 <= i < r.len() && #[trigger] r[i]@ == k;
                    assert(self.state[i].var.name@ == k);
                    assert(self.has(k));
                }
            }
        }
        r
    }

    /// The value of the variable named `key`, which the state holds.
    pub fn value_of(&self, key: &str) -> (r: SPValue)
        requires
            self@.contains_key(key@),
        ensures
            r@ == self@[key@],
    {
        self.get_value(key, "").unwrap()
    }

    /// The declared type of the variable named `key`, if there is one.
    pub fn get_type(&self, key: &str) -> (r: Option<SPValueType>)
        ensures
            match r {
                Some(t) => self@.contains_key(key@) && t == self.declared_type(key@),
                None => !self@.contains_key(key@),
            },
    {
        match self.find(key) {
            Some(i) => Some(self.state[i].var.value_type),
            None => None,
        }
    }

    /// Adds an assignment, replacing the variable of the same name if there is one.
    pub fn add_mut(&mut self, assignment: SPAssignment, log_target: &str)
        ensures
            final(self)@ == old(self)@.insert(assignment.var.name@, assignment.val@),
            final(self).has(assignment.var.name@),
            final(self).declared_type(assignment.var.name@) == assignment.var.value_type,
            forall|k: Seq<char>|
                k != assignment.var.name@ && old(self).has(k) ==> #[trigger] final(self).declared_type(k)
                    == old(self).declared_type(k),
            old(self).has(assignment.var.name@) ==> final(self).size() == old(self).size(),
            !old(self).has(assignment.var.name@) ==> final(self).size() == old(self).size() + 1,
    {
        proof {
            use_type_invariant(&*self);
        }
        let key = assignment.var.name.clone();
        let ghost old_s = *self;
        match self.find(key.as_str()) {
            Some(i) => {
                let mut v: Vec<SPAssignment> = Vec::new();
                std::mem::swap(&mut v, &mut self.state);
                v.set(i, assignment);
                self.state = v;
                proof {
                    assert forall|k: Seq<char>|
                        #![trigger self@.contains_key(k)]
                        self@.contains_key(k) == old_s@.insert(key@, self.state[i as int].val@).contains_key(k)
                    by {
                        if k == key@ {
                            assert(self.has(k) == (exists|j: int| 0 <= j < self.state.len() && #[trigger] self.state[j].var.name@ == k));
                            assert(self.state[i as int].var.name@ == k);
                        } else {
                            if self.has(k) {
                                let j = self.position(k);
                                assert(old_s.state[j].var.name@ == k);
                            }
                            if old_s.has(k) {
                                let j = old_s.position(k);
                                assert(self.state[j].var.name@ == k);
                            }
                        }
                    }
                    assert forall|k: Seq<char>| #![trigger self.declared_type(k)] self.has(k) ==> self@[k] == old_s@.insert(key@, self.state[i as int].val@)[k]
                        && (k != key@ ==> self.declared_type(k) == old_s.declared_type(k)) by {
                        if self.has(k) {
                            self.lemma_position(self.position(k));
                            let j = self.position(k);
                            if k != key@ {
                                old_s.lemma_position(j);
                            } else {
                                self.lemma_position(i as int);
                            }
                        }
                    }
                    self.lemma_position(i as int);
                    assert forall|k: Seq<char>| k != key@ && old_s.has(k) implies #[trigger] self.declared_type(k) == old_s.declared_type(k) by {
                        let j = old_s.position(k);
                        assert(self.state[j].var.name@ == k);
                        assert(self.has(k));
                    }
                    assert(self@ =~= old_s@.insert(key@, self.state[i as int].val@));
                }
            },
            None => {
                let mut v: Vec<SPAssignment> = Vec::new();
                std::mem::swap(&mut v, &mut self.state);
                v.push(assignment);
                self.state = v;
                proof {
                    let n = old_s.state.len() as int;
                    assert forall|a: int, b: int|
                        0 <= a < b < self.state.len() implies self.state[a].var.name@
                        != self.state[b].var.name@ by {
                        if b == n {
                            assert(old_s.state[a].var.name@ == self.state[a].var.name@);
                        }
                    }
                    assert(self.names_unique());
                    assert forall|k: Seq<char>|
                        #![trigger self@.contains_key(k)]
                        self@.contains_key(k) == old_s@.insert(key@, self.state[n].val@).contains_key(k)
                    by {
                        if k == key@ {
                            assert(self.state[n].var.name@ == k);
                        } else {
                            if self.has(k) {
                                let j = self.position(k);
                                assert(old_s.state[j].var.name@ == k);
                            }
                            if old_s.has(k) {
                                let j = old_s.position(k);
                                assert(self.state[j].var.name@ == k);
                            }
                        }
                    }
                    assert forall|k: Seq<char>| #![trigger self.declared_type(k)] self.has(k) ==> self@[k] == old_s@.insert(key@, self.state[n].val@)[k]
                        && (k != key@ ==> self.declared_type(k) == old_s.declared_type(k)) by {
                        if self.has(k) {
                            self.lemma_position(self.position(k));
                            let j = self.position(k);
                            if k != key@ {
                                old_s.lemma_position(j);
                            } else {
                                self.lemma_position(n);
                            }
                        }
                    }
                    self.lemma_position(n);
                    assert forall|k: Seq<char>| k != key@ && old_s.has(k) implies #[trigger] self.declared_type(k) == old_s.declared_type(k) by {
                        let j = old_s.position(k);
                        assert(self.state[j].var.name@ == k);
                        assert(self.has(k));
                    }
                    assert(self@ =~= old_s@.insert(key@, self.state[n].val@));
                }
            },
        }
    }

    /// Sets the value of an existing variable.
    pub fn update_mut(&mut self, key: &str, value: SPValue)
        requires
            old(self)@.contains_key(key@),
        ensures
            final(self)@ == old(self)@.insert(key@, value@),
            final(self).size() == old(self).size(),
            forall|k: Seq<char>| old(self).has(k) ==> #[trigger] final(self).declared_type(k) == old(self).declared_type(k),
    {
        proof {
            use_type_invariant(&*self);
        }
        let i = self.find(key).unwrap();
        let t = self.state[i].var.value_type;
        let var = SPVariable { name: String::from_str(key), value_type: t };
        self.add_mut(SPAssignment::new(var, value), "");
    }

    /// This state with the value of an existing variable replaced.
    pub fn update(&self, key: &str, value: SPValue) -> (s: State)
        requires
            self@.contains_key(key@),
        ensures
            s@ == self@.insert(key@, value@),
            s.size() == self.size(),
    {
        let mut s = self.duplicate();
        s.update_mut(key, value);
        s
    }

    /// A copy of the state.
    pub fn duplicate(&self) -> (s: State)
        ensures
            s@ == self@,
            s.size() == self.size(),
            forall|k: Seq<char>| self.has(k) ==> #[trigger] s.declared_type(k) == self.declared_type(k),
    {
        proof {
            use_type_invariant(self);
        }
        let mut v: Vec<SPAssignment> = Vec::new();
        let mut i: usize = 0;
        while i < self.state.len()
            invariant
                i <= self.state.len(),
                v.len() == i,
                forall|j: int|
                    #![trigger v[j]]
                    0 <= j < i ==> v[j].var.name@ == self.state[j].var.name@ && v[j].val@
                        == self.state[j].val@ && v[j].var.value_type == self.state[j].var.value_type,
            decreases self.state.len() - i,
        {
            let a = &self.state[i];
            let e = SPAssignment {
                var: SPVariable { name: a.var.name.clone(), value_type: a.var.value_type },
                val: a.val.duplicate(),
            };
            assert(e.var.name@ == self.state[i as int].var.name@);
            let ghost v0 = v@;
            v.push(e);
            assert(forall|j: int| 0 <= j < i ==> v[j] == v0[j]);
            assert(v[i as int] == e);
            assert(v[i as int].val@ == self.state[i as int].val@);
            i += 1;
        }
        proof {
            assert forall|a: int, b: int| 0 <= a < b < v.len() implies v[a].var.name@ != v[b].var.name@ by {
                assert(v[a].var.name@ == self.state[a].var.name@);
                assert(v[b].var.name@ == self.state[b].var.name@);
            }
        }
        let s = State { state: v };
        proof {
            assert forall|k: Seq<char>| #![trigger s.has(k)] s.has(k) == self.has(k) by {
                if s.has(k) {
                    let j = s.position(k);
                    assert(self.state[j].var.name@ == k);
                }
                if self.has(k) {
                    let j = self.position(k);
                    assert(s.state[j].var.name@ == k);
                }
            }
            assert forall|k: Seq<char>| #![trigger s.declared_type(k)] s.has(k) ==> s@[k] == self@[k] && s.declared_type(k) == self.declared_type(k) by {
                if s.has(k) {
                    let j = s.position(k);
                    s.lemma_position(j);
                    self.lemma_position(j);
                }
            }
            assert(s@ =~= self@);
        }
        s
    }

    /// The text of a string variable, or `"UNKNOWN"` when the variable is
    /// missing, unknown or not a string.
    pub fn get_string_or_default_to_unknown(&self, key: &str, log_target: &str) -> (r: String)
        ensures
            r@ == string_or_unknown(self@, key@),
    {
        match self.find(key) {
            Some(i) => match &self.state[i].val {
                SPValue::String(StringOrUnknown::String(s)) => s.clone(),
                _ => String::from_str("UNKNOWN"),
            },
            None => String::from_str("UNKNOWN"),
        }
    }

    /// The value of an integer variable, or `0`.
    pub fn get_int_or_default_to_zero(&self, key: &str, log_target: &str) -> (r: i64)
        ensures
            r == int_or_zero(self@, key@),
    {
        match self.find(key) {
            Some(i) => match &self.state[i].val {
                SPValue::Int64(IntOrUnknown::Int64(v)) => *v,
                _ => 0,
            },
            None => 0,
        }
    }

    /// The value of a boolean variable, or `false`.
    pub fn get_bool_or_default_to_false(&self, key: &str, log_target: &str) -> (r: bool)
        ensures
            r == bool_or_false(self@, key@),
    {
        match self.find(key) {
            Some(i) => match &self.state[i].val {
                SPValue::Bool(BoolOrUnknown::Bool(b)) => *b,
                _ => false,
            },
            None => false,
        }
    }

    /// The elements of an array variable, or none.
    pub fn get_array_or_default_to_empty(&self, key: &str, log_target: &str) -> (r: Vec<SPValue>)
        ensures
            r.len() == array_or_empty(self@, key@).len(),
            forall|j: int| 0 <= j < r.len() ==> #[trigger] r[j]@ == array_or_empty(self@, key@)[j],
    {
        match self.find(key) {
            Some(i) => match &self.state[i].val {
                SPValue::Array(ArrayOrUnknown::Array(a)) => {
                    let v = SPValue::Array(ArrayOrUnknown::Array(Vec::new()));
                    let c = self.state[i].val.duplicate();
                    proof {
                        lemma_array_view(*a);
                    }
                    match c {
                        SPValue::Array(ArrayOrUnknown::Array(ca)) => {
                            proof {
                                lemma_array_view(ca);
                                assert(Seq::new(ca.len() as nat, |j: int| ca[j]@)
                                    == Seq::new(a.len() as nat, |j: int| a[j]@));
                                assert(Seq::new(ca.len() as nat, |j: int| ca[j]@).len() == ca.len());
                                assert forall|j: int| 0 <= j < ca.len() implies #[trigger] ca[j]@ == array_or_empty(self@, key@)[j] by {
                                    assert(Seq::new(ca.len() as nat, |j: int| ca[j]@)[j] == ca[j]@);
                                }
                            }
                            ca
                        },
                        _ => Vec::new(),
                    }
                },
                _ => Vec::new(),
            },
            None => Vec::new(),
        }
    }

    /// Adds every variable of `other`. With `overwrite`, the values of `other`
    /// win where both states hold a variable; without it, this state's do.
    pub fn extend_mut(&mut self, other: State, overwrite: bool)
        ensures
            overwrite ==> final(self)@ == old(self)@.union_prefer_right(other@),
            !overwrite ==> final(self)@ == other@.union_prefer_right(old(self)@),
    {
        proof {
            use_type_invariant(&other);
        }
        let ghost start = self@;
        let mut i: usize = 0;
        while i < other.state.len()
            invariant
                i <= other.state.len(),
                other.names_unique(),
                overwrite ==> self@ == start.union_prefer_right(
                    Map::new(
                        |k: Seq<char>| exists|j: int| 0 <= j < i && #[trigger] other.state[j].var.name@ == k,
                        |k: Seq<char>| other@[k],
                    ),
                ),
                !overwrite ==> self@ == Map::new(
                    |k: Seq<char>| exists|j: int| 0 <= j < i && #[trigger] other.state[j].var.name@ == k,
                    |k: Seq<char>| other@[k],
                ).union_prefer_right(start),
            decreases other.state.len() - i,
        {
            let a = &other.state[i];
            proof {
                other.lemma_position(i as int);
            }
            let ghost before = self@;
            if overwrite || !self.contains(a.var.name.as_str()) {
                let copy = SPAssignment {
                    var: SPVariable { name: a.var.name.clone(), value_type: a.var.value_type },
                    val: a.val.duplicate(),
                };
                self.add_mut(copy, "");
            }
            proof {
                let ki = other.state[i as int].var.name@;
                let prev = Map::new(
                    |k: Seq<char>| exists|j: int| 0 <= j < i && #[trigger] other.state[j].var.name@ == k,
                    |k: Seq<char>| other@[k],
                );
                let next = Map::new(
                    |k: Seq<char>| exists|j: int| 0 <= j < i + 1 && #[trigger] other.state[j].var.name@ == k,
                    |k: Seq<char>| other@[k],
                );
                assert(!prev.contains_key(ki)) by {
                    if prev.contains_key(ki) {
                        let j = choose|j: int| 0 <= j < i && #[trigger] other.state[j].var.name@ == ki;
                        assert(other.state[j].var.name@ != other.state[i as int].var.name@);
                    }
                }
                assert(next =~= prev.insert(ki, other@[ki])) by {
                    assert forall|k: Seq<char>| next.contains_key(k) == prev.insert(ki, other@[ki]).contains_key(k) by {
                        if next.contains_key(k) && k != ki {
                            let j = choose|j: int| 0 <= j < i + 1 && #[trigger] other.state[j].var.name@ == k;
                            assert(j < i);
                        }
                        if k == ki {
                            assert(other.state[i as int].var.name@ == k);
                        }
                    }
                }
                if overwrite {
                    assert(self@ =~= start.union_prefer_right(next));
                } else {
                    assert(self@ =~= next.union_prefer_right(start));
                }
            }
            i += 1;
        }
        proof {
            let all = Map::new(
                |k: Seq<char>| exists|j: int| 0 <= j < other.state.len() && #[trigger] other.state[j].var.name@ == k,
                |k: Seq<char>| other@[k],
            );
            assert(all =~= other@);
        }
    }
}

impl Clone for State {
    fn clone(&self) -> (s: State)
        ensures
            s@ == self@,
    {
        self.duplicate()
    }
}

/// The variables of `new` that `old` lacks or holds with another value,
/// with their values in `new`: what writing `new` over `old` changes.
pub open spec fn changed_entries(old: Map<Seq<char>, SPValueView>, new: Map<Seq<char>, SPValueView>) -> Map<
    Seq<char>,
    SPValueView,
> {
    Map::new(
        |k: Seq<char>| new.contains_key(k) && (!old.contains_key(k) || old[k] != new[k]),
        |k: Seq<char>| new[k],
    )
}

impl View for State {
    type V = Map<Seq<char>, SPValueView>;

    closed spec fn view(&self) -> Map<Seq<char>, SPValueView> {
        Map::new(|k: Seq<char>| self.has(k), |k: Seq<char>| self.state[self.position(k)].val@)
    }
}

} // verus!
