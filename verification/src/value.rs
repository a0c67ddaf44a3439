//! The values a state variable can hold.
//!
//! Every kind of value carries its own "unknown": a variable that exists but
//! whose value has not been observed yet.  In specifications a value is seen
//! through [`SPValueView`], where the unknown case is `None` and strings and
//! arrays are sequences.
use vstd::prelude::*;

verus! {

/// The kind of a state variable.
#[derive(Debug, Clone, Copy, PartialEq, Eq)]
pub enum SPValueType {
    Bool,
    Float64,
    Int64,
    String,
    Time,
    Array,
    Mapping,
    Transform,
}

/// A boolean that may be unknown.
#[derive(Debug, Clone, PartialEq)]
pub enum BoolOrUnknown {
    Bool(bool),
    UNKNOWN,
}

/// A floating point number, held as its IEEE-754 bit pattern, that may be unknown.
#[derive(Debug, Clone, PartialEq)]
pub enum FloatOrUnknown {
    Float64(u64),
    UNKNOWN,
}

/// An integer that may be unknown.
#[derive(Debug, Clone, PartialEq)]
pub enum IntOrUnknown {
    Int64(i64),
    UNKNOWN,
}

/// A string that may be unknown.
#[derive(Debug, Clone, PartialEq)]
pub enum StringOrUnknown {
    String(String),
    UNKNOWN,
}

/// A point in time, in milliseconds since the Unix epoch, that may be unknown.
#[derive(Debug, Clone, PartialEq)]
pub enum TimeOrUnknown {
    Time(i64),
    UNKNOWN,
}

/// An array of values that may be unknown.
#[derive(Debug, Clone, PartialEq)]
pub enum ArrayOrUnknown {
    Array(Vec<SPValue>),
    UNKNOWN,
}

/// A list of key/value pairs that may be unknown.
#[derive(Debug, Clone, PartialEq)]
pub enum MapOrUnknown {
    Mapping(Vec<(SPValue, SPValue)>),
    UNKNOWN,
}

/// A rigid transform: translation and rotation quaternion, each component held
/// as its IEEE-754 bit pattern.
#[derive(Debug, Clone, Copy, PartialEq)]
pub struct SPTransform {
    pub translation_x: u64,
    pub translation_y: u64,
    pub translation_z: u64,
    pub rotation_x: u64,
    pub rotation_y: u64,
    pub rotation_z: u64,
    pub rotation_w: u64,
}

/// A transform between two frames, with the time it was recorded.
#[derive(Debug, Clone, PartialEq)]
pub struct SPTransformStamped {
    pub active_transform: bool,
    pub enable_transform: bool,
    pub time_stamp: i64,
    pub parent_frame_id: String,
    pub child_frame_id: String,
    pub transform: SPTransform,
}

/// A transform that may be unknown.
#[derive(Debug, Clone, PartialEq)]
pub enum TransformOrUnknown {
    Transform(SPTransformStamped),
    UNKNOWN,
}

/// The value of a state variable.
#[derive(Debug, PartialEq)]
pub enum SPValue {
    Bool(BoolOrUnknown),
    Float64(FloatOrUnknown),
    Int64(IntOrUnknown),
    String(StringOrUnknown),
    Time(TimeOrUnknown),
    Array(ArrayOrUnknown),
    Mapping(MapOrUnknown),
    Transform(TransformOrUnknown),
}

/// The mathematical content of a transform.
pub struct TransformView {
    pub active_transform: bool,
    pub enable_transform: bool,
    pub time_stamp: i64,
    pub parent_frame_id: Seq<char>,
    pub child_frame_id: Seq<char>,
    pub transform: SPTransform,
}

/// The mathematical content of a value; `None` stands for unknown.
pub enum SPValueView {
    Bool(Option<bool>),
    Float64(Option<u64>),
    Int64(Option<i64>),
    String(Option<Seq<char>>),
    Time(Option<i64>),
    Array(Option<Seq<SPValueView>>),
    Mapping(Option<Seq<(SPValueView, SPValueView)>>),
    Transform(Option<TransformView>),
}

impl SPValueView {
    /// The kind of the value.
    pub open spec fn kind(self) -> SPValueType {
        match self {
            SPValueView::Bool(_) => SPValueType::Bool,
            SPValueView::Float64(_) => SPValueType::Float64,
            SPValueView::Int64(_) => SPValueType::Int64,
            SPValueView::String(_) => SPValueType::String,
            SPValueView::Time(_) => SPValueType::Time,
            SPValueView::Array(_) => SPValueType::Array,
            SPValueView::Mapping(_) => SPValueType::Mapping,
            SPValueView::Transform(_) => SPValueType::Transform,
        }
    }
}

/// The unknown value of a kind.
pub open spec fn unknown_view(t: SPValueType) -> SPValueView {
    match t {
        SPValueType::Bool => SPValueView::Bool(None),
        SPValueType::Float64 => SPValueView::Float64(None),
        SPValueType::Int64 => SPValueView::Int64(None),
        SPValueType::String => SPValueView::String(None),
        SPValueType::Time => SPValueView::Time(None),
        SPValueType::Array => SPValueView::Array(None),
        SPValueType::Mapping => SPValueView::Mapping(None),
        SPValueType::Transform => SPValueView::Transform(None),
    }
}

/// A known string value.
pub open spec fn string_view(s: Seq<char>) -> SPValueView {
    SPValueView::String(Some(s))
}

/// A known boolean value.
pub open spec fn bool_view(b: bool) -> SPValueView {
    SPValueView::Bool(Some(b))
}

/// A known integer value.
pub open spec fn int_view(i: i64) -> SPValueView {
    SPValueView::Int64(Some(i))
}

/// The views of `v[k..]`.
pub open spec fn array_view_from(v: Vec<SPValue>, k: int) -> Seq<SPValueView>
    decreases v, v.len() - k,
{
    if k < 0 || k >= v.len() {
        Seq::empty()
    } else {
        proof {
            broadcast use vstd::std_specs::vec::axiom_vec_index_decreases;
        }
        seq![value_view(v[k])] + array_view_from(v, k + 1)
    }
}

/// The views of the pairs `v[k..]`.
pub open spec fn map_view_from(v: Vec<(SPValue, SPValue)>, k: int) -> Seq<(SPValueView, SPValueView)>
    decreases v, v.len() - k,
{
    if k < 0 || k >= v.len() {
        Seq::empty()
    } else {
        proof {
            broadcast use vstd::std_specs::vec::axiom_vec_index_decreases;
            assert(decreases_to!(v[k] => v[k].0));
            assert(decreases_to!(v[k] => v[k].1));
        }
        seq![(value_view(v[k].0), value_view(v[k].1))] + map_view_from(v, k + 1)
    }
}

/// The view of a value.
pub open spec fn value_view(v: SPValue) -> SPValueView
    decreases v, 0int,
{
    match v {
        SPValue::Bool(BoolOrUnknown::Bool(b)) => SPValueView::Bool(Some(b)),
        SPValue::Bool(BoolOrUnknown::UNKNOWN) => SPValueView::Bool(None),
        SPValue::Float64(FloatOrUnknown::Float64(f)) => SPValueView::Float64(Some(f)),
        SPValue::Float64(FloatOrUnknown::UNKNOWN) => SPValueView::Float64(None),
        SPValue::Int64(IntOrUnknown::Int64(i)) => SPValueView::Int64(Some(i)),
        SPValue::Int64(IntOrUnknown::UNKNOWN) => SPValueView::Int64(None),
        SPValue::String(StringOrUnknown::String(s)) => SPValueView::String(Some(s@)),
        SPValue::String(StringOrUnknown::UNKNOWN) => SPValueView::String(None),
        SPValue::Time(TimeOrUnknown::Time(t)) => SPValueView::Time(Some(t)),
        SPValue::Time(TimeOrUnknown::UNKNOWN) => SPValueView::Time(None),
        SPValue::Array(ArrayOrUnknown::Array(a)) => SPValueView::Array(Some(array_view_from(a, 0))),
        SPValue::Array(ArrayOrUnknown::UNKNOWN) => SPValueView::Array(None),
        SPValue::Mapping(MapOrUnknown::Mapping(m)) => SPValueView::Mapping(Some(map_view_from(m, 0))),
        SPValue::Mapping(MapOrUnknown::UNKNOWN) => SPValueView::Mapping(None),
        SPValue::Transform(TransformOrUnknown::Transform(t)) => SPValueView::Transform(
            Some(
                TransformView {
                    active_transform: t.active_transform,
                    enable_transform: t.enable_transform,
                    time_stamp: t.time_stamp,
                    parent_frame_id: t.parent_frame_id@,
                    child_frame_id: t.child_frame_id@,
                    transform: t.transform,
                },
            ),
        ),
        SPValue::Transform(TransformOrUnknown::UNKNOWN) => SPValueView::Transform(None),
    }
}

impl View for SPValue {
    type V = SPValueView;

    open spec fn view(&self) -> SPValueView {
        value_view(*self)
    }
}

/// `array_view_from(v, k)` has one view per element of `v[k..]`, in order.
pub proof fn lemma_array_view_from(v: Vec<SPValue>, k: int)
    requires
        0 <= k <= v.len(),
    ensures
        array_view_from(v, k).len() == v.len() - k,
        forall|j: int| k <= j < v.len() ==> #[trigger] array_view_from(v, k)[j - k] == v[j]@,
    decreases v.len() - k,
{
    if k < v.len() {
        lemma_array_view_from(v, k + 1);
        let tail = array_view_from(v, k + 1);
        assert(array_view_from(v, k) == seq![value_view(v[k])] + tail);
        assert forall|j: int| k <= j < v.len() implies #[trigger] array_view_from(v, k)[j - k]
            == v[j]@ by {
            if j > k {
                assert(array_view_from(v, k)[j - k] == tail[j - (k + 1)]);
            }
        }
    }
}

/// `map_view_from(v, k)` has one pair of views per pair of `v[k..]`, in order.
pub proof fn lemma_map_view_from(v: Vec<(SPValue, SPValue)>, k: int)
    requires
        0 <= k <= v.len(),
    ensures
        map_view_from(v, k).len() == v.len() - k,
        forall|j: int|
            k <= j < v.len() ==> #[trigger] map_view_from(v, k)[j - k] == (v[j].0@, v[j].1@),
    decreases v.len() - k,
{
    if k < v.len() {
        lemma_map_view_from(v, k + 1);
        let tail = map_view_from(v, k + 1);
        assert(map_view_from(v, k) == seq![(value_view(v[k].0), value_view(v[k].1))] + tail);
        assert forall|j: int| k <= j < v.len() implies #[trigger] map_view_from(v, k)[j - k] == (
        v[j].0@, v[j].1@) by {
            if j > k {
                assert(map_view_from(v, k)[j - k] == tail[j - (k + 1)]);
            }
        }
    }
}

/// The array value whose elements have the given views.
pub proof fn lemma_array_view(v: Vec<SPValue>)
    ensures
        SPValue::Array(ArrayOrUnknown::Array(v))@ == SPValueView::Array(
            Some(Seq::new(v.len() as nat, |j: int| v[j]@)),
        ),
{
    lemma_array_view_from(v, 0);
    let s = array_view_from(v, 0);
    assert forall|j: int| 0 <= j < v.len() implies s[j] == v[j]@ by {
        assert(s[j - 0] == v[j]@);
    }
    assert(s =~= Seq::new(v.len() as nat, |j: int| v[j]@));
}

/// The map value whose pairs have the given views.
pub proof fn lemma_map_view(v: Vec<(SPValue, SPValue)>)
    ensures
        SPValue::Mapping(MapOrUnknown::Mapping(v))@ == SPValueView::Mapping(
            Some(Seq::new(v.len() as nat, |j: int| (v[j].0@, v[j].1@))),
        ),
{
    lemma_map_view_from(v, 0);
    let s = map_view_from(v, 0);
    assert forall|j: int| 0 <= j < v.len() implies s[j] == (v[j].0@, v[j].1@) by {
        assert(s[j - 0] == (v[j].0@, v[j].1@));
    }
    assert(s =~= Seq::new(v.len() as nat, |j: int| (v[j].0@, v[j].1@)));
}

/// A copy of an array whose elements are copies of its elements.
fn duplicate_array(v: &Vec<SPValue>) -> (r: Vec<SPValue>)
    ensures
        r.len() == v.len(),
        forall|j: int| 0 <= j < v.len() ==> #[trigger] r[j]@ == v[j]@,
    decreases *v, 0int,
{
    let mut r: Vec<SPValue> = Vec::new();
    let mut i: usize = 0;
    while i < v.len()
        invariant
            i <= v.len(),
            r.len() == i,
            forall|j: int| 0 <= j < i ==> #[trigger] r[j]@ == v[j]@,
        decreases v.len() - i,
    {
        proof {
            broadcast use vstd::std_specs::vec::axiom_vec_index_decreases;

            assert(decreases_to!(*v => v[i as int]));
        }
        let e = v[i].duplicate();
        r.push(e);
        i += 1;
    }
    r
}

/// A copy of a list of pairs whose components are copies of its components.
fn duplicate_pairs(v: &Vec<(SPValue, SPValue)>) -> (r: Vec<(SPValue, SPValue)>)
    ensures
        r.len() == v.len(),
        forall|j: int| 0 <= j < v.len() ==> #[trigger] r[j].0@ == v[j].0@ && r[j].1@ == v[j].1@,
    decreases *v, 0int,
{
    let mut r: Vec<(SPValue, SPValue)> = Vec::new();
    let mut i: usize = 0;
    while i < v.len()
        invariant
            i <= v.len(),
            r.len() == i,
            forall|j: int| 0 <= j < i ==> #[trigger] r[j].0@ == v[j].0@ && r[j].1@ == v[j].1@,
        decreases v.len() - i,
    {
        proof {
            broadcast use vstd::std_specs::vec::axiom_vec_index_decreases;

            assert(decreases_to!(*v => v[i as int]));
            assert(decreases_to!(v[i as int] => v[i as int].0));
            assert(decreases_to!(v[i as int] => v[i as int].1));
        }
        let a = v[i].0.duplicate();
        let b = v[i].1.duplicate();
        r.push((a, b));
        i += 1;
    }
    r
}

/// Whether `a[k..]` and `b[k..]` hold values with equal views.
fn arrays_equal_from(a: &Vec<SPValue>, b: &Vec<SPValue>, k: usize) -> (r: bool)
    requires
        a.len() == b.len(),
        k <= a.len(),
    ensures
        r == (forall|j: int| k <= j < a.len() ==> #[trigger] a[j]@ == b[j]@),
    decreases *a, a.len() - k,
{
    if k >= a.len() {
        true
    } else {
        proof {
            broadcast use vstd::std_specs::vec::axiom_vec_index_decreases;

            assert(decreases_to!(*a => a[k as int]));
        }
        if !a[k].equals(&b[k]) {
            false
        } else {
            arrays_equal_from(a, b, k + 1)
        }
    }
}

/// Whether the pairs `a[k..]` and `b[k..]` have equal views.
fn pairs_equal_from(a: &Vec<(SPValue, SPValue)>, b: &Vec<(SPValue, SPValue)>, k: usize) -> (r: bool)
    requires
        a.len() == b.len(),
        k <= a.len(),
    ensures
        r == (forall|j: int|
            #![trigger a[j]]
            k <= j < a.len() ==> (a[j].0@, a[j].1@) == (b[j].0@, b[j].1@)),
    decreases *a, a.len() - k,
{
    if k >= a.len() {
        true
    } else {
        proof {
            broadcast use vstd::std_specs::vec::axiom_vec_index_decreases;

            assert(decreases_to!(*a => a[k as int]));
            assert(decreases_to!(a[k as int] => a[k as int].0));
            assert(decreases_to!(a[k as int] => a[k as int].1));
        }
        if !a[k].0.equals(&b[k].0) {
            false
        } else if !a[k].1.equals(&b[k].1) {
            false
        } else {
            pairs_equal_from(a, b, k + 1)
        }
    }
}

impl SPValue {
    /// The kind of the value.
    pub fn has_type(&self) -> (t: SPValueType)
        ensures
            t == self@.kind(),
    {
        match self {
            SPValue::Bool(_) => SPValueType::Bool,
            SPValue::Float64(_) => SPValueType::Float64,
            SPValue::Int64(_) => SPValueType::Int64,
            SPValue::String(_) => SPValueType::String,
            SPValue::Time(_) => SPValueType::Time,
            SPValue::Array(_) => SPValueType::Array,
            SPValue::Mapping(_) => SPValueType::Mapping,
            SPValue::Transform(_) => SPValueType::Transform,
        }
    }

    /// The unknown value of a kind.
    pub fn unknown_of(t: SPValueType) -> (v: SPValue)
        ensures
            v@ == unknown_view(t),
    {
        match t {
            SPValueType::Bool => SPValue::Bool(BoolOrUnknown::UNKNOWN),
            SPValueType::Float64 => SPValue::Float64(FloatOrUnknown::UNKNOWN),
            SPValueType::Int64 => SPValue::Int64(IntOrUnknown::UNKNOWN),
            SPValueType::String => SPValue::String(StringOrUnknown::UNKNOWN),
            SPValueType::Time => SPValue::Time(TimeOrUnknown::UNKNOWN),
            SPValueType::Array => SPValue::Array(ArrayOrUnknown::UNKNOWN),
            SPValueType::Mapping => SPValue::Mapping(MapOrUnknown::UNKNOWN),
            SPValueType::Transform => SPValue::Transform(TransformOrUnknown::UNKNOWN),
        }
    }

    /// Whether the value is a known string.
    pub fn is_string(&self) -> (b: bool)
        ensures
            b == (self@ matches SPValueView::String(Some(_))),
    {
        match self {
            SPValue::String(StringOrUnknown::String(_)) => true,
            _ => false,
        }
    }

    /// A copy of the value.
    pub fn duplicate(&self) -> (r: SPValue)
        ensures
            r@ == self@,
        decreases *self, 1int,
    {
        match self {
            SPValue::Bool(BoolOrUnknown::Bool(b)) => SPValue::Bool(BoolOrUnknown::Bool(*b)),
            SPValue::Bool(BoolOrUnknown::UNKNOWN) => SPValue::Bool(BoolOrUnknown::UNKNOWN),
            SPValue::Float64(FloatOrUnknown::Float64(f)) => SPValue::Float64(
                FloatOrUnknown::Float64(*f),
            ),
            SPValue::Float64(FloatOrUnknown::UNKNOWN) => SPValue::Float64(FloatOrUnknown::UNKNOWN),
            SPValue::Int64(IntOrUnknown::Int64(i)) => SPValue::Int64(IntOrUnknown::Int64(*i)),
            SPValue::Int64(IntOrUnknown::UNKNOWN) => SPValue::Int64(IntOrUnknown::UNKNOWN),
            SPValue::String(StringOrUnknown::String(s)) => SPValue::String(
                StringOrUnknown::String(s.clone()),
            ),
            SPValue::String(StringOrUnknown::UNKNOWN) => SPValue::String(StringOrUnknown::UNKNOWN),
            SPValue::Time(TimeOrUnknown::Time(t)) => SPValue::Time(TimeOrUnknown::Time(*t)),
            SPValue::Time(TimeOrUnknown::UNKNOWN) => SPValue::Time(TimeOrUnknown::UNKNOWN),
            SPValue::Array(ArrayOrUnknown::Array(a)) => {
                proof {
                    assert(decreases_to!(*self => self->Array_0));
                    assert(decreases_to!(self->Array_0 => self->Array_0->Array_0));
                }
                let c = duplicate_array(a);
                proof {
                    lemma_array_view(*a);
                    lemma_array_view(c);
                    assert(Seq::new(c.len() as nat, |j: int| c[j]@) =~= Seq::new(
                        a.len() as nat,
                        |j: int| a[j]@,
                    ));
                }
                SPValue::Array(ArrayOrUnknown::Array(c))
            },
            SPValue::Array(ArrayOrUnknown::UNKNOWN) => SPValue::Array(ArrayOrUnknown::UNKNOWN),
            SPValue::Mapping(MapOrUnknown::Mapping(m)) => {
                proof {
                    assert(decreases_to!(*self => self->Mapping_0));
                    assert(decreases_to!(self->Mapping_0 => self->Mapping_0->Mapping_0));
                }
                let c = duplicate_pairs(m);
                proof {
                    lemma_map_view(*m);
                    lemma_map_view(c);
                    assert(Seq::new(c.len() as nat, |j: int| (c[j].0@, c[j].1@)) =~= Seq::new(
                        m.len() as nat,
                        |j: int| (m[j].0@, m[j].1@),
                    ));
                }
                SPValue::Mapping(MapOrUnknown::Mapping(c))
            },
            SPValue::Mapping(MapOrUnknown::UNKNOWN) => SPValue::Mapping(MapOrUnknown::UNKNOWN),
            SPValue::Transform(TransformOrUnknown::Transform(t)) => SPValue::Transform(
                TransformOrUnknown::Transform(
                    SPTransformStamped {
                        active_transform: t.active_transform,
                        enable_transform: t.enable_transform,
                        time_stamp: t.time_stamp,
                        parent_frame_id: t.parent_frame_id.clone(),
                        child_frame_id: t.child_frame_id.clone(),
                        transform: t.transform,
                    },
                ),
            ),
            SPValue::Transform(TransformOrUnknown::UNKNOWN) => SPValue::Transform(
                TransformOrUnknown::UNKNOWN,
            ),
        }
    }

    /// Whether two values are the same value.
    pub fn equals(&self, other: &SPValue) -> (r: bool)
        ensures
            r == (self@ == other@),
        decreases *self, 1int,
    {
        match (self, other) {
            (SPValue::Bool(BoolOrUnknown::Bool(a)), SPValue::Bool(BoolOrUnknown::Bool(b))) => *a
                == *b,
            (SPValue::Bool(BoolOrUnknown::UNKNOWN), SPValue::Bool(BoolOrUnknown::UNKNOWN)) => true,
            (
                SPValue::Float64(FloatOrUnknown::Float64(a)),
                SPValue::Float64(FloatOrUnknown::Float64(b)),
            ) => *a == *b,
            (
                SPValue::Float64(FloatOrUnknown::UNKNOWN),
                SPValue::Float64(FloatOrUnknown::UNKNOWN),
            ) => true,
            (SPValue::Int64(IntOrUnknown::Int64(a)), SPValue::Int64(IntOrUnknown::Int64(b))) => *a
                == *b,
            (SPValue::Int64(IntOrUnknown::UNKNOWN), SPValue::Int64(IntOrUnknown::UNKNOWN)) => true,
            (
                SPValue::String(StringOrUnknown::String(a)),
                SPValue::String(StringOrUnknown::String(b)),
            ) => *a == *b,
            (
                SPValue::String(StringOrUnknown::UNKNOWN),
                SPValue::String(StringOrUnknown::UNKNOWN),
            ) => true,
            (SPValue::Time(TimeOrUnknown::Time(a)), SPValue::Time(TimeOrUnknown::Time(b))) => *a
                == *b,
            (SPValue::Time(TimeOrUnknown::UNKNOWN), SPValue::Time(TimeOrUnknown::UNKNOWN)) => true,
            (SPValue::Array(ArrayOrUnknown::Array(a)), SPValue::Array(ArrayOrUnknown::Array(b))) => {
                proof {
                    lemma_array_view(*a);
                    lemma_array_view(*b);
                }
                if a.len() != b.len() {
                    assert(Seq::new(a.len() as nat, |j: int| a[j]@).len() != Seq::new(
                        b.len() as nat,
                        |j: int| b[j]@,
                    ).len());
                    return false;
                }
                proof {
                    assert(decreases_to!(*self => self->Array_0));
                    assert(decreases_to!(self->Array_0 => self->Array_0->Array_0));
                }
                let r = arrays_equal_from(a, b, 0);
                proof {
                    if r {
                        assert(Seq::new(a.len() as nat, |j: int| a[j]@) =~= Seq::new(
                            b.len() as nat,
                            |j: int| b[j]@,
                        ));
                    } else {
                        let j = choose|j: int| 0 <= j < a.len() && !(#[trigger] a[j]@ == b[j]@);
                        assert(Seq::new(a.len() as nat, |j: int| a[j]@)[j] != Seq::new(
                            b.len() as nat,
                            |j: int| b[j]@,
                        )[j]);
                    }
                }
                r
            },
            (SPValue::Array(ArrayOrUnknown::UNKNOWN), SPValue::Array(ArrayOrUnknown::UNKNOWN)) => {
                true
            },
            (SPValue::Mapping(MapOrUnknown::Mapping(a)), SPValue::Mapping(MapOrUnknown::Mapping(b))) => {
                proof {
                    lemma_map_view(*a);
                    lemma_map_view(*b);
                }
                if a.len() != b.len() {
                    assert(Seq::new(a.len() as nat, |j: int| (a[j].0@, a[j].1@)).len() != Seq::new(
                        b.len() as nat,
                        |j: int| (b[j].0@, b[j].1@),
                    ).len());
                    return false;
                }
                proof {
                    assert(decreases_to!(*self => self->Mapping_0));
                    assert(decreases_to!(self->Mapping_0 => self->Mapping_0->Mapping_0));
                }
                let r = pairs_equal_from(a, b, 0);
                proof {
                    if r {
                        assert(Seq::new(a.len() as nat, |j: int| (a[j].0@, a[j].1@)) =~= Seq::new(
                            b.len() as nat,
                            |j: int| (b[j].0@, b[j].1@),
                        ));
                    } else {
                        let j = choose|j: int|
                            #![trigger a[j]]
                            0 <= j < a.len() && !((a[j].0@, a[j].1@) == (b[j].0@, b[j].1@));
                        assert(Seq::new(a.len() as nat, |j: int| (a[j].0@, a[j].1@))[j]
                            != Seq::new(b.len() as nat, |j: int| (b[j].0@, b[j].1@))[j]);
                    }
                }
                r
            },
            (SPValue::Mapping(MapOrUnknown::UNKNOWN), SPValue::Mapping(MapOrUnknown::UNKNOWN)) => true,
            (
                SPValue::Transform(TransformOrUnknown::Transform(a)),
                SPValue::Transform(TransformOrUnknown::Transform(b)),
            ) => {
                a.active_transform == b.active_transform && a.enable_transform
                    == b.enable_transform && a.time_stamp == b.time_stamp && a.parent_frame_id
                    == b.parent_frame_id && a.child_frame_id == b.child_frame_id
                    && a.transform.translation_x == b.transform.translation_x
                    && a.transform.translation_y == b.transform.translation_y
                    && a.transform.translation_z == b.transform.translation_z
                    && a.transform.rotation_x == b.transform.rotation_x
                    && a.transform.rotation_y == b.transform.rotation_y
                    && a.transform.rotation_z == b.transform.rotation_z
                    && a.transform.rotation_w == b.transform.rotation_w
            },
            (
                SPValue::Transform(TransformOrUnknown::UNKNOWN),
                SPValue::Transform(TransformOrUnknown::UNKNOWN),
            ) => true,
            _ => false,
        }
    }
}

impl Clone for SPValue {
    fn clone(&self) -> (r: SPValue)
        ensures
            r@ == self@,
    {
        self.duplicate()
    }
}

/// Conversion of plain values into state values.
pub trait ToSPValue {
    fn to_spvalue(&self) -> SPValue;
}

impl ToSPValue for bool {
    fn to_spvalue(&self) -> (v: SPValue)
        ensures
            v@ == bool_view(*self),
    {
        SPValue::Bool(BoolOrUnknown::Bool(*self))
    }
}

impl ToSPValue for i64 {
    fn to_spvalue(&self) -> (v: SPValue)
        ensures
            v@ == int_view(*self),
    {
        SPValue::Int64(IntOrUnknown::Int64(*self))
    }
}

impl ToSPValue for str {
    fn to_spvalue(&self) -> (v: SPValue)
        ensures
            v@ == string_view(self@),
    {
        SPValue::String(StringOrUnknown::String(String::from_str(self)))
    }
}

impl ToSPValue for String {
    fn to_spvalue(&self) -> (v: SPValue)
        ensures
            v@ == string_view(self@),
    {
        SPValue::String(StringOrUnknown::String(self.clone()))
    }
}

impl ToSPValue for Vec<SPValue> {
    fn to_spvalue(&self) -> (v: SPValue)
        ensures
            v@ == SPValueView::Array(Some(Seq::new(self.len() as nat, |j: int| self[j]@))),
    {
        let c = duplicate_array(self);
        proof {
            lemma_array_view(c);
            assert(Seq::new(c.len() as nat, |j: int| c[j]@) =~= Seq::new(
                self.len() as nat,
                |j: int| self[j]@,
            ));
        }
        SPValue::Array(ArrayOrUnknown::Array(c))
    }
}

impl ToSPValue for Vec<String> {
    fn to_spvalue(&self) -> (v: SPValue)
        ensures
            v@ == SPValueView::Array(
                Some(Seq::new(self.len() as nat, |j: int| string_view(self[j]@))),
            ),
    {
        let mut c: Vec<SPValue> = Vec::new();
        let mut i: usize = 0;
        while i < self.len()
            invariant
                i <= self.len(),
                c.len() == i,
                forall|j: int| 0 <= j < i ==> #[trigger] c[j]@ == string_view(self[j]@),
            decreases self.len() - i,
        {
            c.push(SPValue::String(StringOrUnknown::String(self[i].clone())));
            i += 1;
        }
        proof {
            lemma_array_view(c);
            assert(Seq::new(c.len() as nat, |j: int| c[j]@) =~= Seq::new(
                self.len() as nat,
                |j: int| string_view(self[j]@),
            ));
        }
        SPValue::Array(ArrayOrUnknown::Array(c))
    }
}

impl ToSPValue for Vec<(SPValue, SPValue)> {
    fn to_spvalue(&self) -> (v: SPValue)
        ensures
            v@ == SPValueView::Mapping(
                Some(Seq::new(self.len() as nat, |j: int| (self[j].0@, self[j].1@))),
            ),
    {
        let c = duplicate_pairs(self);
        proof {
            lemma_map_view(c);
            assert(Seq::new(c.len() as nat, |j: int| (c[j].0@, c[j].1@)) =~= Seq::new(
                self.len() as nat,
                |j: int| (self[j].0@, self[j].1@),
            ));
        }
        SPValue::Mapping(MapOrUnknown::Mapping(c))
    }
}

} // verus!
