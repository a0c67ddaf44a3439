//! Guards rendered as text, for the messages the runners report.
//!
//! A guard renders infix: `x = v`, `x != v`, `(a && b)`, `(a || b)`,
//! `!(a)`, `TRUE`, `FALSE`.  Variables render as their names; known
//! booleans, integers and strings as themselves; other known values as the
//! name of their kind; unknown values as `UNKNOWN`.
//!
//! A SOP tree renders one node per line, indented two spaces per level: a
//! leaf as its operation's name, an inner node as `sequence`, `parallel`
//! or `alternative` with its children below it.
use crate::predicate::{
    lemma_predicate_views_from, lemma_wrapped_pair_views_from, lemma_wrapped_views_from,
    predicate_views_from, wrapped_pair_views_from, wrapped_views_from, Predicate, PredicateView,
    SPWrapped, WrappedView,
};
use crate::sop::{lemma_sop_views_from, sop_views_from, SOPView, SOP};
use crate::text::{i64_to_decimal, int_decimal};
use crate::value::{BoolOrUnknown, IntOrUnknown, SPValue, SPValueView, StringOrUnknown};
use vstd::prelude::*;

verus! {

/// The text of a value.
pub open spec fn value_text(v: SPValueView) -> Seq<char> {
    match v {
        SPValueView::Bool(Some(b)) => if b {
            "true"@
        } else {
            "false"@
        },
        SPValueView::Int64(Some(i)) => int_decimal(i as int),
        SPValueView::String(Some(s)) => s,
        SPValueView::Float64(Some(_)) => "float"@,
        SPValueView::Time(Some(_)) => "time"@,
        SPValueView::Array(Some(_)) => "array"@,
        SPValueView::Mapping(Some(_)) => "map"@,
        SPValueView::Transform(Some(_)) => "transform"@,
        _ => "UNKNOWN"@,
    }
}

/// The texts of the operands `s[k..]`, separated by commas.
pub open spec fn operands_text(s: Seq<WrappedView>, k: int) -> Seq<char>
    decreases s, s.len() - k,
{
    if k < 0 || k >= s.len() {
        Seq::empty()
    } else if k + 1 == s.len() {
        operand_text(s[k])
    } else {
        operand_text(s[k]) + ", "@ + operands_text(s, k + 1)
    }
}

/// The texts of the pairs `s[k..]`, each `key: value`, separated by commas.
pub open spec fn operand_pairs_text(s: Seq<(WrappedView, WrappedView)>, k: int) -> Seq<char>
    decreases s, s.len() - k,
{
    if k < 0 || k >= s.len() {
        Seq::empty()
    } else if k + 1 == s.len() {
        operand_text(s[k].0) + ": "@ + operand_text(s[k].1)
    } else {
        operand_text(s[k].0) + ": "@ + operand_text(s[k].1) + ", "@ + operand_pairs_text(s, k + 1)
    }
}

/// The text of an operand.
pub open spec fn operand_text(w: WrappedView) -> Seq<char>
    decreases w, 0int,
{
    match w {
        WrappedView::Variable(n) => n,
        WrappedView::Value(v) => value_text(v),
        WrappedView::Array(a) => "["@ + operands_text(a, 0) + "]"@,
        WrappedView::Mapping(p) => "{"@ + operand_pairs_text(p, 0) + "}"@,
    }
}

/// The texts of the guards `s[k..]`, separated by `sep`.
pub open spec fn predicates_text(s: Seq<PredicateView>, k: int, sep: Seq<char>) -> Seq<char>
    decreases s, s.len() - k,
{
    if k < 0 || k >= s.len() {
        Seq::empty()
    } else if k + 1 == s.len() {
        predicate_text(s[k])
    } else {
        predicate_text(s[k]) + sep + predicates_text(s, k + 1, sep)
    }
}

/// The text of a guard.
pub open spec fn predicate_text(p: PredicateView) -> Seq<char>
    decreases p, 0int,
{
    match p {
        PredicateView::TRUE => "TRUE"@,
        PredicateView::FALSE => "FALSE"@,
        PredicateView::NOT(q) => "!("@ + predicate_text(*q) + ")"@,
        PredicateView::AND(v) => "("@ + predicates_text(v, 0, " && "@) + ")"@,
        PredicateView::OR(v) => "("@ + predicates_text(v, 0, " || "@) + ")"@,
        PredicateView::EQ(a, b) => operand_text(a) + " = "@ + operand_text(b),
        PredicateView::NEQ(a, b) => operand_text(a) + " != "@ + operand_text(b),
    }
}

/// The text of a value.
pub fn value_to_text(v: &SPValue) -> (r: String)
    ensures
        r@ == value_text(v@),
{
    match v {
        SPValue::Bool(BoolOrUnknown::Bool(b)) => if *b {
            String::from_str("true")
        } else {
            String::from_str("false")
        },
        SPValue::Int64(IntOrUnknown::Int64(i)) => i64_to_decimal(*i),
        SPValue::String(StringOrUnknown::String(s)) => s.clone(),
        SPValue::Float64(crate::value::FloatOrUnknown::Float64(_)) => String::from_str("float"),
        SPValue::Time(crate::value::TimeOrUnknown::Time(_)) => String::from_str("time"),
        SPValue::Array(crate::value::ArrayOrUnknown::Array(_)) => String::from_str("array"),
        SPValue::Mapping(crate::value::MapOrUnknown::Mapping(_)) => String::from_str("map"),
        SPValue::Transform(crate::value::TransformOrUnknown::Transform(_)) => String::from_str(
            "transform",
        ),
        _ => String::from_str("UNKNOWN"),
    }
}

/// The texts of the operands `v[k..]`, separated by commas.
fn operands_to_text(v: &Vec<SPWrapped>, k: usize) -> (r: String)
    requires
        k <= v.len(),
    ensures
        r@ == operands_text(wrapped_views_from(*v, 0), k as int),
    decreases *v, v.len() - k,
{
    proof {
        lemma_wrapped_views_from(*v, 0);
    }
    if k >= v.len() {
        String::new()
    } else {
        proof {
            broadcast use vstd::std_specs::vec::axiom_vec_index_decreases;

            assert(decreases_to!(*v => v[k as int]));
            assert(wrapped_views_from(*v, 0)[k as int - 0] == v[k as int]@);
        }
        let mut s = operand_to_text(&v[k]);
        if k + 1 < v.len() {
            s.append(", ");
            let rest = operands_to_text(v, k + 1);
            s.append(rest.as_str());
        }
        s
    }
}

/// The texts of the pairs `v[k..]`.
fn operand_pairs_to_text(v: &Vec<(SPWrapped, SPWrapped)>, k: usize) -> (r: String)
    requires
        k <= v.len(),
    ensures
        r@ == operand_pairs_text(wrapped_pair_views_from(*v, 0), k as int),
    decreases *v, v.len() - k,
{
    proof {
        lemma_wrapped_pair_views_from(*v, 0);
    }
    if k >= v.len() {
        String::new()
    } else {
        proof {
            broadcast use vstd::std_specs::vec::axiom_vec_index_decreases;

            assert(decreases_to!(*v => v[k as int]));
            assert(decreases_to!(v[k as int] => v[k as int].0));
            assert(decreases_to!(v[k as int] => v[k as int].1));
            assert(wrapped_pair_views_from(*v, 0)[k as int - 0] == (v[k as int].0@, v[k as int].1@));
        }
        let mut s = operand_to_text(&v[k].0);
        s.append(": ");
        let val = operand_to_text(&v[k].1);
        s.append(val.as_str());
        if k + 1 < v.len() {
            s.append(", ");
            let rest = operand_pairs_to_text(v, k + 1);
            s.append(rest.as_str());
        }
        s
    }
}

/// The text of an operand.
pub fn operand_to_text(w: &SPWrapped) -> (r: String)
    ensures
        r@ == operand_text(w@),
    decreases *w, 1int,
{
    match w {
        SPWrapped::SPVariable(v) => v.name.clone(),
        SPWrapped::SPValue(x) => value_to_text(x),
        SPWrapped::Array(a) => {
            proof {
                assert(decreases_to!(*w => w->Array_0));
            }
            let mut s = String::from_str("[");
            let inner = operands_to_text(a, 0);
            s.append(inner.as_str());
            s.append("]");
            s
        },
        SPWrapped::Mapping(p) => {
            proof {
                assert(decreases_to!(*w => w->Mapping_0));
            }
            let mut s = String::from_str("{");
            let inner = operand_pairs_to_text(p, 0);
            s.append(inner.as_str());
            s.append("}");
            s
        },
    }
}

/// The texts of the guards `v[k..]`, separated by `sep`.
fn predicates_to_text(v: &Vec<Predicate>, k: usize, sep: &str) -> (r: String)
    requires
        k <= v.len(),
    ensures
        r@ == predicates_text(predicate_views_from(*v, 0), k as int, sep@),
    decreases *v, v.len() - k,
{
    proof {
        lemma_predicate_views_from(*v, 0);
    }
    if k >= v.len() {
        String::new()
    } else {
        proof {
            broadcast use vstd::std_specs::vec::axiom_vec_index_decreases;

            assert(decreases_to!(*v => v[k as int]));
            assert(predicate_views_from(*v, 0)[k as int - 0] == v[k as int]@);
        }
        let mut s = predicate_to_text(&v[k]);
        if k + 1 < v.len() {
            s.append(sep);
            let rest = predicates_to_text(v, k + 1, sep);
            s.append(rest.as_str());
        }
        s
    }
}

/// The text of a guard.
pub fn predicate_to_text(p: &Predicate) -> (r: String)
    ensures
        r@ == predicate_text(p@),
    decreases *p, 1int,
{
    match p {
        Predicate::TRUE => String::from_str("TRUE"),
        Predicate::FALSE => String::from_str("FALSE"),
        Predicate::NOT(q) => {
            let mut s = String::from_str("!(");
            let inner = predicate_to_text(q);
            s.append(inner.as_str());
            s.append(")");
            s
        },
        Predicate::AND(v) => {
            proof {
                assert(decreases_to!(*p => p->AND_0));
            }
            let mut s = String::from_str("(");
            let inner = predicates_to_text(v, 0, " && ");
            s.append(inner.as_str());
            s.append(")");
            s
        },
        Predicate::OR(v) => {
            proof {
                assert(decreases_to!(*p => p->OR_0));
            }
            let mut s = String::from_str("(");
            let inner = predicates_to_text(v, 0, " || ");
            s.append(inner.as_str());
            s.append(")");
            s
        },
        Predicate::EQ(a, b) => {
            let mut s = operand_to_text(a);
            s.append(" = ");
            let r = operand_to_text(b);
            s.append(r.as_str());
            s
        },
        Predicate::NEQ(a, b) => {
            let mut s = operand_to_text(a);
            s.append(" != ");
            let r = operand_to_text(b);
            s.append(r.as_str());
            s
        },
    }
}


/// The lines of the trees `s[k..]`, each behind `pre`.
pub open spec fn sops_text(s: Seq<SOPView>, k: int, pre: Seq<char>) -> Seq<char>
    decreases s, s.len() - k,
{
    if k < 0 || k >= s.len() {
        Seq::empty()
    } else {
        sop_text(s[k], pre) + sops_text(s, k + 1, pre)
    }
}

/// The lines of a tree whose root is behind `pre`; each level below is
/// indented two more spaces.
pub open spec fn sop_text(s: SOPView, pre: Seq<char>) -> Seq<char>
    decreases s, 0int,
{
    match s {
        SOPView::Operation(o) => pre + o.name + "\n"@,
        SOPView::Sequence(v) => pre + "sequence\n"@ + sops_text(v, 0, pre + "  "@),
        SOPView::Parallel(v) => pre + "parallel\n"@ + sops_text(v, 0, pre + "  "@),
        SOPView::Alternative(v) => pre + "alternative\n"@ + sops_text(v, 0, pre + "  "@),
    }
}

/// Appends the lines of the trees `v[k..]`.
fn write_sops(out: &mut String, v: &Vec<SOP>, k: usize, pre: &str)
    requires
        k <= v.len(),
    ensures
        final(out)@ == old(out)@ + sops_text(sop_views_from(*v, 0), k as int, pre@),
    decreases *v, v.len() - k,
{
    proof {
        lemma_sop_views_from(*v, 0);
    }
    if k < v.len() {
        proof {
            broadcast use vstd::std_specs::vec::axiom_vec_index_decreases;

            assert(decreases_to!(*v => v[k as int]));
            assert(sop_views_from(*v, 0)[k as int - 0] == v[k as int]@);
        }
        let ghost before = out@;
        write_sop(out, &v[k], pre);
        write_sops(out, v, k + 1, pre);
        assert(out@ =~= before + sops_text(sop_views_from(*v, 0), k as int, pre@));
    } else {
        assert(out@ =~= old(out)@ + sops_text(sop_views_from(*v, 0), k as int, pre@));
    }
}

/// Appends an inner node's line and its children's lines.
fn write_node(out: &mut String, kind: &str, v: &Vec<SOP>, pre: &str)
    ensures
        final(out)@ == old(out)@ + pre@ + kind@ + sops_text(sop_views_from(*v, 0), 0, pre@ + "  "@),
    decreases *v, v.len() + 1,
{
    let ghost before = out@;
    out.append(pre);
    out.append(kind);
    let deeper = crate::text::concat(pre, "  ");
    write_sops(out, v, 0, deeper.as_str());
    assert(out@ =~= before + pre@ + kind@ + sops_text(sop_views_from(*v, 0), 0, pre@ + "  "@));
}

/// Appends the lines of a tree whose root is behind `pre`.
fn write_sop(out: &mut String, sop: &SOP, pre: &str)
    ensures
        final(out)@ == old(out)@ + sop_text(sop@, pre@),
    decreases *sop, 1int,
{
    let ghost before = out@;
    proof {
        reveal_strlit("sequence\n");
        reveal_strlit("parallel\n");
        reveal_strlit("alternative\n");
    }
    match sop {
        SOP::Operation(o) => {
            out.append(pre);
            out.append(o.name.as_str());
            out.append("\n");
            assert(out@ =~= before + sop_text(sop@, pre@));
        },
        SOP::Sequence(v) => {
            proof {
                assert(decreases_to!(*sop => sop->Sequence_0));
            }
            write_node(out, "sequence\n", v, pre);
            assert(out@ =~= before + sop_text(sop@, pre@));
        },
        SOP::Parallel(v) => {
            proof {
                assert(decreases_to!(*sop => sop->Parallel_0));
            }
            write_node(out, "parallel\n", v, pre);
            assert(out@ =~= before + sop_text(sop@, pre@));
        },
        SOP::Alternative(v) => {
            proof {
                assert(decreases_to!(*sop => sop->Alternative_0));
            }
            write_node(out, "alternative\n", v, pre);
            assert(out@ =~= before + sop_text(sop@, pre@));
        },
    }
}

/// A SOP tree as text, one node per line.
pub fn visualize_sop(sop: &SOP) -> (r: String)
    ensures
        r@ == sop_text(sop@, Seq::empty()),
{
    let mut out = String::new();
    write_sop(&mut out, sop, "");
    proof {
        reveal_strlit("");
    }
    assert(out@ =~= sop_text(sop@, Seq::empty()));
    out
}

} // verus!
