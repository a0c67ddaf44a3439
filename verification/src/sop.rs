//! Sequences of operations (SOPs) and the model that holds everything.
//!
//! A SOP is a tree: a leaf is an operation, an inner node runs its children
//! one after the other, side by side, or as alternatives.  Specifications see
//! a SOP through [`SOPView`], in which the children are a sequence.
use crate::operation::{op_mentions, operation_views, Operation, OperationView};
use crate::predicate::{contains_name, push_name};
use crate::text::concat;
use crate::transition::Transition;
use vstd::prelude::*;

verus! {

/// A SOP tree.
#[derive(Debug, PartialEq)]
pub enum SOP {
    Operation(Box<Operation>),
    Sequence(Vec<SOP>),
    Parallel(Vec<SOP>),
    Alternative(Vec<SOP>),
}

/// The content of a SOP tree.
pub enum SOPView {
    Operation(OperationView),
    Sequence(Seq<SOPView>),
    Parallel(Seq<SOPView>),
    Alternative(Seq<SOPView>),
}

/// The views of the trees `v[k..]`.
pub open spec fn sop_views_from(v: Vec<SOP>, k: int) -> Seq<SOPView>
    decreases v, v.len() - k,
{
    if k < 0 || k >= v.len() {
        Seq::empty()
    } else {
        proof {
            broadcast use vstd::std_specs::vec::axiom_vec_index_decreases;
        }
        seq![sop_view(v[k])] + sop_views_from(v, k + 1)
    }
}

/// The view of a tree.
pub open spec fn sop_view(s: SOP) -> SOPView
    decreases s, 0int,
{
    match s {
        SOP::Operation(o) => SOPView::Operation(o@),
        SOP::Sequence(v) => SOPView::Sequence(sop_views_from(v, 0)),
        SOP::Parallel(v) => SOPView::Parallel(sop_views_from(v, 0)),
        SOP::Alternative(v) => SOPView::Alternative(sop_views_from(v, 0)),
    }
}

impl View for SOP {
    type V = SOPView;

    open spec fn view(&self) -> SOPView {
        sop_view(*self)
    }
}

pub proof fn lemma_sop_views_from(v: Vec<SOP>, k: int)
    requires
        0 <= k <= v.len(),
    ensures
        sop_views_from(v, k).len() == v.len() - k,
        forall|j: int| k <= j < v.len() ==> #[trigger] sop_views_from(v, k)[j - k] == v[j]@,
    decreases v.len() - k,
{
    if k < v.len() {
        lemma_sop_views_from(v, k + 1);
        assert forall|j: int| k <= j < v.len() implies #[trigger] sop_views_from(v, k)[j - k]
            == v[j]@ by {
            if j > k {
                assert(sop_views_from(v, k)[j - k] == sop_views_from(v, k + 1)[j - (k + 1)]);
            }
        }
    }
}

/// The operations of the trees `s[k..]`, leaves from left to right.
pub open spec fn sops_operations(s: Seq<SOPView>, k: int) -> Seq<OperationView>
    decreases s, s.len() - k,
{
    if k < 0 || k >= s.len() {
        Seq::empty()
    } else {
        sop_operations(s[k]) + sops_operations(s, k + 1)
    }
}

/// The operations of a tree, leaves from left to right.
pub open spec fn sop_operations(s: SOPView) -> Seq<OperationView>
    decreases s, 0int,
{
    match s {
        SOPView::Operation(o) => seq![o],
        SOPView::Sequence(v) | SOPView::Parallel(v) | SOPView::Alternative(v) => sops_operations(
            v,
            0,
        ),
    }
}

/// Whether an operation of the tree mentions the variable `n`.
pub open spec fn sop_mentions(s: SOPView, n: Seq<char>) -> bool {
    exists|i: int| 0 <= i < sop_operations(s).len() && op_mentions(#[trigger] sop_operations(s)[i], n)
}

/// The names of the operations of a tree, leaves from left to right.
pub open spec fn sop_leaf_names(s: SOPView) -> Seq<Seq<char>> {
    Seq::new(sop_operations(s).len(), |i: int| sop_operations(s)[i].name)
}

/// Appends the operations of the trees `v[k..]`, leaves from left to right.
fn collect_operations_from(v: &Vec<SOP>, k: usize, ops: &mut Vec<Operation>)
    requires
        k <= v.len(),
    ensures
        operation_views(final(ops)@) == operation_views(old(ops)@) + sops_operations(
            sop_views_from(*v, 0),
            k as int,
        ),
    decreases *v, v.len() - k,
{
    proof {
        lemma_sop_views_from(*v, 0);
    }
    if k < v.len() {
        proof {
            broadcast use vstd::std_specs::vec::axiom_vec_index_decreases;

            assert(decreases_to!(*v => v[k as int]));
        }
        let ghost before = operation_views(ops@);
        get_all_operations_recursive(&v[k], ops);
        let ghost mid = operation_views(ops@);
        collect_operations_from(v, k + 1, ops);
        proof {
            assert(sop_views_from(*v, 0)[k as int - 0] == v[k as int]@);
            assert(operation_views(ops@) =~= before + sops_operations(sop_views_from(*v, 0), k as int));
        }
    } else {
        assert(operation_views(ops@) =~= operation_views(ops@) + Seq::<OperationView>::empty());
    }
}

/// Appends the operations of the tree, leaves from left to right.
pub fn get_all_operations_recursive(sop: &SOP, ops: &mut Vec<Operation>)
    ensures
        operation_views(final(ops)@) == operation_views(old(ops)@) + sop_operations(sop@),
    decreases *sop, 1int,
{
    match sop {
        SOP::Operation(op) => {
            let ghost before = ops@;
            ops.push(op.duplicate());
            assert(operation_views(ops@) =~= operation_views(before) + seq![op@]);
        },
        SOP::Sequence(v) => {
            proof {
                assert(decreases_to!(*sop => sop->Sequence_0));
            }
            collect_operations_from(v, 0, ops);
        },
        SOP::Parallel(v) => {
            proof {
                assert(decreases_to!(*sop => sop->Parallel_0));
            }
            collect_operations_from(v, 0, ops);
        },
        SOP::Alternative(v) => {
            proof {
                assert(decreases_to!(*sop => sop->Alternative_0));
            }
            collect_operations_from(v, 0, ops);
        },
    }
}

/// A copy of each of the trees.
fn duplicate_sops(v: &Vec<SOP>) -> (r: Vec<SOP>)
    ensures
        sop_views_from(r, 0) == sop_views_from(*v, 0),
    decreases *v, 0int,
{
    let mut out: Vec<SOP> = Vec::new();
    let mut i: usize = 0;
    while i < v.len()
        invariant
            i <= v.len(),
            out.len() == i,
            forall|j: int| 0 <= j < i ==> #[trigger] out[j]@ == v[j]@,
        decreases v.len() - i,
    {
        proof {
            broadcast use vstd::std_specs::vec::axiom_vec_index_decreases;

            assert(decreases_to!(*v => v[i as int]));
        }
        out.push(v[i].duplicate());
        i += 1;
    }
    proof {
        lemma_sop_views_from(out, 0);
        lemma_sop_views_from(*v, 0);
        assert forall|j: int| 0 <= j < v.len() implies sop_views_from(out, 0)[j] == sop_views_from(
            *v,
            0,
        )[j] by {
            assert(sop_views_from(out, 0)[j - 0] == out[j]@);
            assert(sop_views_from(*v, 0)[j - 0] == v[j]@);
        }
        assert(sop_views_from(out, 0) =~= sop_views_from(*v, 0));
    }
    out
}

impl SOP {
    /// A copy of the tree.
    pub fn duplicate(&self) -> (r: SOP)
        ensures
            r@ == self@,
        decreases *self, 1int,
    {
        match self {
            SOP::Operation(op) => SOP::Operation(Box::new(op.duplicate())),
            SOP::Sequence(v) => {
                proof {
                    assert(decreases_to!(*self => self->Sequence_0));
                }
                SOP::Sequence(duplicate_sops(v))
            },
            SOP::Parallel(v) => {
                proof {
                    assert(decreases_to!(*self => self->Parallel_0));
                }
                SOP::Parallel(duplicate_sops(v))
            },
            SOP::Alternative(v) => {
                proof {
                    assert(decreases_to!(*self => self->Alternative_0));
                }
                SOP::Alternative(duplicate_sops(v))
            },
        }
    }

    /// The names of the variables that the tree's operations mention.
    pub fn get_all_var_keys(&self) -> (r: Vec<String>)
        ensures
            forall|n: Seq<char>| #[trigger] contains_name(r@, n) == sop_mentions(self@, n),
    {
        let mut ops: Vec<Operation> = Vec::new();
        get_all_operations_recursive(self, &mut ops);
        assert(operation_views(ops@) =~= sop_operations(self@));
        let mut out: Vec<String> = Vec::new();
        let mut i: usize = 0;
        while i < ops.len()
            invariant
                i <= ops.len(),
                operation_views(ops@) == sop_operations(self@),
                forall|n: Seq<char>| #[trigger] contains_name(out@, n) == exists|j: int|
                    0 <= j < i && op_mentions(#[trigger] ops[j]@, n),
            decreases ops.len() - i,
        {
            let keys = ops[i].get_all_var_keys();
            let ghost before = out@;
            let mut k: usize = 0;
            while k < keys.len()
                invariant
                    k <= keys.len(),
                    forall|n: Seq<char>| #[trigger] contains_name(out@, n) == (contains_name(
                        before,
                        n,
                    ) || exists|j: int| 0 <= j < k && #[trigger] keys[j]@ == n),
                decreases keys.len() - k,
            {
                push_name(&mut out, keys[k].clone());
                proof {
                    assert forall|n: Seq<char>| #[trigger] contains_name(out@, n) == (contains_name(
                        before,
                        n,
                    ) || exists|j: int| 0 <= j < k + 1 && #[trigger] keys[j]@ == n) by {
                        if exists|j: int| 0 <= j < k + 1 && #[trigger] keys[j]@ == n {
                            let j = choose|j: int| 0 <= j < k + 1 && #[trigger] keys[j]@ == n;
                            if j < k {
                                assert(exists|j: int| 0 <= j < k && #[trigger] keys[j]@ == n);
                            }
                        }
                        if n == keys[k as int]@ {
                            assert(exists|j: int| 0 <= j < k + 1 && #[trigger] keys[j]@ == n);
                        }
                    }
                }
                k += 1;
            }
            proof {
                assert forall|n: Seq<char>| #[trigger] contains_name(out@, n) == exists|j: int|
                    0 <= j < i + 1 && op_mentions(#[trigger] ops[j]@, n) by {
                    if exists|j: int| 0 <= j < keys.len() && #[trigger] keys[j]@ == n {
                        assert(contains_name(keys@, n));
                    }
                    if contains_name(keys@, n) {
                        let j = choose|j: int| 0 <= j < keys@.len() && #[trigger] keys@[j]@ == n;
                        assert(keys[j]@ == n);
                    }
                    if op_mentions(ops[i as int]@, n) {
                        assert(exists|j: int| 0 <= j < i + 1 && op_mentions(#[trigger] ops[j]@, n));
                    }
                    if exists|j: int| 0 <= j < i + 1 && op_mentions(#[trigger] ops[j]@, n) {
                        let j = choose|j: int| 0 <= j < i + 1 && op_mentions(#[trigger] ops[j]@, n);
                        if j < i {
                            assert(exists|j: int| 0 <= j < i && op_mentions(#[trigger] ops[j]@, n));
                        }
                    }
                }
            }
            i += 1;
        }
        proof {
            assert forall|n: Seq<char>| #[trigger] contains_name(out@, n) == sop_mentions(self@, n) by {
                if exists|j: int| 0 <= j < ops.len() && op_mentions(#[trigger] ops[j]@, n) {
                    let j = choose|j: int| 0 <= j < ops.len() && op_mentions(#[trigger] ops[j]@, n);
                    assert(sop_operations(self@)[j] == ops[j]@);
                }
                if sop_mentions(self@, n) {
                    let j = choose|j: int| 0 <= j < sop_operations(self@).len() && op_mentions(
                        #[trigger] sop_operations(self@)[j],
                        n,
                    );
                    assert(sop_operations(self@)[j] == ops[j]@);
                }
            }
        }
        out
    }

    /// The names of the operations of the tree, leaves from left to right.
    pub fn get_all_operation_names(&self) -> (r: Vec<String>)
        ensures
            r@.len() == sop_leaf_names(self@).len(),
            forall|i: int| 0 <= i < r.len() ==> #[trigger] r[i]@ == sop_leaf_names(self@)[i],
    {
        let mut ops: Vec<Operation> = Vec::new();
        get_all_operations_recursive(self, &mut ops);
        assert(operation_views(ops@) =~= sop_operations(self@));
        let mut v: Vec<String> = Vec::new();
        let mut i: usize = 0;
        while i < ops.len()
            invariant
                i <= ops.len(),
                operation_views(ops@) == sop_operations(self@),
                v.len() == i,
                forall|j: int| 0 <= j < i ==> #[trigger] v[j]@ == sop_leaf_names(self@)[j],
            decreases ops.len() - i,
        {
            assert(operation_views(ops@)[i as int] == ops[i as int]@);
            v.push(ops[i].name.clone());
            i += 1;
        }
        v
    }
}

impl Clone for SOP {
    fn clone(&self) -> (r: SOP)
        ensures
            r@ == self@,
    {
        self.duplicate()
    }
}

/// A SOP under its template id.
#[derive(Debug, PartialEq)]
pub struct SOPStruct {
    pub id: String,
    pub sop: SOP,
}

impl SOPStruct {
    /// A copy of the SOP and its id.
    pub fn duplicate(&self) -> (r: SOPStruct)
        ensures
            r.id@ == self.id@,
            r.sop@ == self.sop@,
    {
        SOPStruct { id: self.id.clone(), sop: self.sop.duplicate() }
    }
}

/// Everything a controller runs: its name, automatic transitions, automatic
/// and mutually exclusive automatic operations, SOPs and planned operations.
#[derive(Debug, PartialEq)]
pub struct Model {
    pub name: String,
    pub auto_transitions: Vec<Transition>,
    pub auto_operations: Vec<Operation>,
    pub mutexed_auto_operations: Vec<Operation>,
    pub sops: Vec<SOPStruct>,
    pub operations: Vec<Operation>,
}

/// The operation under the model's name for it: its own name behind `op_`.
pub open spec fn prefixed(o: OperationView) -> OperationView {
    OperationView { name: "op_"@ + o.name, ..o }
}

/// Copies of the operations, each named behind `op_`.
fn prefix_operations(v: &Vec<Operation>) -> (r: Vec<Operation>)
    ensures
        r.len() == v.len(),
        forall|i: int| 0 <= i < v.len() ==> #[trigger] r[i]@ == prefixed(v[i]@),
{
    let mut out: Vec<Operation> = Vec::new();
    let mut i: usize = 0;
    while i < v.len()
        invariant
            i <= v.len(),
            out.len() == i,
            forall|j: int| 0 <= j < i ==> #[trigger] out[j]@ == prefixed(v[j]@),
        decreases v.len() - i,
    {
        let name = concat("op_", v[i].name.as_str());
        out.push(v[i].renamed(name));
        i += 1;
    }
    out
}

impl Model {
    /// A model; the planned, automatic and mutually exclusive operations are
    /// renamed to `op_` followed by their own name, the operations inside the
    /// SOPs keep theirs.
    pub fn new(
        name: &str,
        auto_transitions: Vec<Transition>,
        auto_operations: Vec<Operation>,
        mutexed_auto_operations: Vec<Operation>,
        sops: Vec<SOPStruct>,
        operations: Vec<Operation>,
    ) -> (m: Model)
        ensures
            m.name@ == name@,
            m.auto_transitions == auto_transitions,
            m.sops == sops,
            m.auto_operations.len() == auto_operations.len(),
            forall|i: int| 0 <= i < auto_operations.len() ==> #[trigger] m.auto_operations[i]@
                == prefixed(auto_operations[i]@),
            m.mutexed_auto_operations.len() == mutexed_auto_operations.len(),
            forall|i: int| 0 <= i < mutexed_auto_operations.len() ==> #[trigger] m.mutexed_auto_operations[i]@
                == prefixed(mutexed_auto_operations[i]@),
            m.operations.len() == operations.len(),
            forall|i: int| 0 <= i < operations.len() ==> #[trigger] m.operations[i]@ == prefixed(
                operations[i]@,
            ),
    {
        Model {
            name: String::from_str(name),
            auto_transitions,
            auto_operations: prefix_operations(&auto_operations),
            mutexed_auto_operations: prefix_operations(&mutexed_auto_operations),
            sops,
            operations: prefix_operations(&operations),
        }
    }
}

} // verus!
