//! The set engine: symbolic descriptions of subsets of the plane.
//!
//! A `SetExpr` denotes where an expression is real-valued: empty, universal,
//! finite unions and intersections, comparisons of two expressions under one
//! of six operators, and one-dimensional intervals.  The engine's only
//! obligations are the structural reductions of `basic_simplify` and the
//! pointwise comparison of encoded values.
//!
//! Membership of a point is settled by the atoms: comparisons and intervals.
//! Whether a comparison holds at a point needs the two sides evaluated,
//! which is floating-point work done by the caller, so membership is
//! specified against an arbitrary truth assignment for the atoms
//! (`sat_set`); simplification preserves membership under every coherent
//! assignment (`law_simplify_preserves_membership`).

use crate::expr::{spec_simplify, view_expr, Exp, Expression};
use crate::ieee::{eq_bits, le_bits, lt_bits, bits_eq, bits_le, bits_lt};
use vstd::prelude::*;

verus! {

broadcast use vstd::std_specs::vec::group_vec_axioms, vstd::seq::group_seq_axioms;

/// The six comparison operators an equation can relate its sides with.
#[derive(Clone, Copy, PartialEq, Eq, Structural, Debug)]
pub enum ComparisonOperator {
    LessThan,
    LessThanOrEqual,
    Equal,
    GreaterThanOrEqual,
    GreaterThan,
    NotEqual,
}

/// The truth of `a op b` on two encoded binary64 values, under the IEEE
/// comparison semantics of `ieee`: no order involves a NaN, the two zeros
/// are equal, and `NotEqual` is the negation of `Equal` (so it holds of a
/// NaN).
pub open spec fn spec_compare(a: u64, b: u64, op: ComparisonOperator) -> bool {
    match op {
        ComparisonOperator::LessThan => lt_bits(a, b),
        ComparisonOperator::LessThanOrEqual => le_bits(a, b),
        ComparisonOperator::Equal => eq_bits(a, b),
        ComparisonOperator::GreaterThanOrEqual => le_bits(b, a),
        ComparisonOperator::GreaterThan => lt_bits(b, a),
        ComparisonOperator::NotEqual => !eq_bits(a, b),
    }
}

/// Compares two encoded values under the given operator.
pub fn compare_values(a: u64, b: u64, op: ComparisonOperator) -> (r: bool)
    ensures
        r == spec_compare(a, b, op),
{
    match op {
        ComparisonOperator::LessThan => bits_lt(a, b),
        ComparisonOperator::LessThanOrEqual => bits_le(a, b),
        ComparisonOperator::Equal => bits_eq(a, b),
        ComparisonOperator::GreaterThanOrEqual => bits_le(b, a),
        ComparisonOperator::GreaterThan => bits_lt(b, a),
        ComparisonOperator::NotEqual => !bits_eq(a, b),
    }
}

/// A comparison of two expressions: the equation `left op right`, read as a
/// set of points.  This is also the input form of the grapher.
#[derive(Debug)]
pub struct Equation {
    pub left: Expression,
    pub right: Expression,
    pub operator: ComparisonOperator,
}

impl Equation {
    /// An equation from its two sides and operator.
    pub fn new(left: Expression, right: Expression, operator: ComparisonOperator) -> (r: Equation)
        ensures
            r.left@ == left@,
            r.right@ == right@,
            r.operator == operator,
    {
        Equation { left, right, operator }
    }
}

/// A one-dimensional interval constraint on a named variable.
#[derive(Debug)]
pub struct Interval {
    pub variable: String,
    pub lower: u64,
    pub upper: u64,
    pub lower_inclusive: bool,
    pub upper_inclusive: bool,
}

/// The encoded value lies in the interval, each end compared strictly or
/// not as the interval's inclusivity flags say.
pub open spec fn spec_interval_contains(
    lower: u64,
    upper: u64,
    lower_inclusive: bool,
    upper_inclusive: bool,
    value: u64,
) -> bool {
    (if lower_inclusive {
        le_bits(lower, value)
    } else {
        lt_bits(lower, value)
    }) && (if upper_inclusive {
        le_bits(value, upper)
    } else {
        lt_bits(value, upper)
    })
}

impl Interval {
    /// Whether the given value of the interval's variable lies in the
    /// interval.
    pub fn contains(&self, value: u64) -> (r: bool)
        ensures
            r == spec_interval_contains(
                self.lower,
                self.upper,
                self.lower_inclusive,
                self.upper_inclusive,
                value,
            ),
    {
        let low_ok = if self.lower_inclusive {
            bits_le(self.lower, value)
        } else {
            bits_lt(self.lower, value)
        };
        let high_ok = if self.upper_inclusive {
            bits_le(value, self.upper)
        } else {
            bits_lt(value, self.upper)
        };
        low_ok && high_ok
    }
}

/// The ghost model of a set expression.
pub enum SetExp {
    Empty,
    Full,
    Union(Seq<SetExp>),
    Intersection(Seq<SetExp>),
    Comparison(Box<Exp>, Box<Exp>, ComparisonOperator),
    Interval(Seq<char>, u64, u64, bool, bool),
}

/// A symbolic subset of the plane.
#[derive(Debug)]
pub enum SetExpr {
    /// The empty set.
    Empty,
    /// The universal set.
    Full,
    /// A finite union of sets.
    Union(Vec<SetExpr>),
    /// A finite intersection of sets.
    Intersection(Vec<SetExpr>),
    /// The set of points at which the equation holds.
    Comparison(Equation),
    /// A one-dimensional interval constraint.
    Interval(Interval),
}

/// The marker of the empty set; its constructor builds the `SetExpr`.
pub struct EmptySet;

impl EmptySet {
    /// The empty set.
    pub fn new() -> (r: SetExpr)
        ensures
            r@ == SetExp::Empty,
    {
        SetExpr::Empty
    }
}

/// The marker of the universal set; its constructor builds the `SetExpr`.
pub struct FullSet;

impl FullSet {
    /// The universal set.
    pub fn new() -> (r: SetExpr)
        ensures
            r@ == SetExp::Full,
    {
        SetExpr::Full
    }
}

/// The model of a sequence of set expressions.
pub open spec fn view_set_seq(s: Seq<SetExpr>) -> Seq<SetExp>
    decreases s,
{
    if s.len() == 0 {
        Seq::empty()
    } else {
        view_set_seq(s.drop_last()).push(view_set(s.last()))
    }
}

/// The model of a set expression.
pub open spec fn view_set(s: SetExpr) -> SetExp
    decreases s,
{
    match s {
        SetExpr::Empty => SetExp::Empty,
        SetExpr::Full => SetExp::Full,
        SetExpr::Union(ss) => SetExp::Union(view_set_seq(ss@)),
        SetExpr::Intersection(ss) => SetExp::Intersection(view_set_seq(ss@)),
        SetExpr::Comparison(eq) => SetExp::Comparison(
            Box::new(view_expr(eq.left)),
            Box::new(view_expr(eq.right)),
            eq.operator,
        ),
        SetExpr::Interval(iv) => SetExp::Interval(
            iv.variable@,
            iv.lower,
            iv.upper,
            iv.lower_inclusive,
            iv.upper_inclusive,
        ),
    }
}

impl View for SetExpr {
    type V = SetExp;

    open spec fn view(&self) -> SetExp {
        view_set(*self)
    }
}

/// The model of a sequence is the pointwise model of its elements.
pub proof fn lemma_view_set_seq(s: Seq<SetExpr>)
    ensures
        view_set_seq(s).len() == s.len(),
        forall|i: int| 0 <= i < s.len() ==> view_set_seq(s)[i] == view_set(#[trigger] s[i]),
    decreases s,
{
    if s.len() > 0 {
        lemma_view_set_seq(s.drop_last());
        assert forall|i: int| 0 <= i < s.len() implies view_set_seq(s)[i] == view_set(
            #[trigger] s[i],
        ) by {
            if i < s.len() - 1 {
                assert(view_set_seq(s)[i] == view_set_seq(s.drop_last())[i]);
                assert(s.drop_last()[i] == s[i]);
            } else {
                assert(s.last() == s[i]);
            }
        }
    }
}

/// Membership of a point in the set, relative to a truth assignment `t` for
/// the atoms (comparisons and intervals): a union holds where some member
/// holds, an intersection where all members hold.
pub open spec fn sat_set(s: SetExp, t: spec_fn(SetExp) -> bool) -> bool
    decreases s,
{
    match s {
        SetExp::Empty => false,
        SetExp::Full => true,
        SetExp::Union(ss) => sat_any(ss, t),
        SetExp::Intersection(ss) => sat_all(ss, t),
        SetExp::Comparison(_, _, _) => t(s),
        SetExp::Interval(_, _, _, _, _) => t(s),
    }
}

/// Some member of the sequence holds at the point.
pub open spec fn sat_any(ss: Seq<SetExp>, t: spec_fn(SetExp) -> bool) -> bool
    decreases ss,
{
    if ss.len() == 0 {
        false
    } else {
        sat_set(ss.last(), t) || sat_any(ss.drop_last(), t)
    }
}

/// Every member of the sequence holds at the point.
pub open spec fn sat_all(ss: Seq<SetExp>, t: spec_fn(SetExp) -> bool) -> bool
    decreases ss,
{
    if ss.len() == 0 {
        true
    } else {
        sat_set(ss.last(), t) && sat_all(ss.drop_last(), t)
    }
}

/// One level of union flattening: each member that is itself a union is
/// replaced by its own members, in place.
pub open spec fn flatten_unions(ss: Seq<SetExp>) -> Seq<SetExp>
    decreases ss,
{
    if ss.len() == 0 {
        Seq::empty()
    } else {
        flatten_unions(ss.drop_last()) + (match ss.last() {
            SetExp::Union(inner) => inner,
            e => seq![e],
        })
    }
}

/// One level of intersection flattening.
pub open spec fn flatten_intersections(ss: Seq<SetExp>) -> Seq<SetExp>
    decreases ss,
{
    if ss.len() == 0 {
        Seq::empty()
    } else {
        flatten_intersections(ss.drop_last()) + (match ss.last() {
            SetExp::Intersection(inner) => inner,
            e => seq![e],
        })
    }
}

/// Some member is the universal set.
pub open spec fn has_full(ss: Seq<SetExp>) -> bool
    decreases ss,
{
    if ss.len() == 0 {
        false
    } else {
        ss.last() is Full || has_full(ss.drop_last())
    }
}

/// Some member is the empty set.
pub open spec fn has_empty(ss: Seq<SetExp>) -> bool
    decreases ss,
{
    if ss.len() == 0 {
        false
    } else {
        ss.last() is Empty || has_empty(ss.drop_last())
    }
}

/// The sequence with every empty set removed.
pub open spec fn drop_empty(ss: Seq<SetExp>) -> Seq<SetExp>
    decreases ss,
{
    if ss.len() == 0 {
        Seq::empty()
    } else {
        drop_empty(ss.drop_last()) + (if ss.last() is Empty {
            Seq::empty()
        } else {
            seq![ss.last()]
        })
    }
}

/// The sequence with every universal set removed.
pub open spec fn drop_full(ss: Seq<SetExp>) -> Seq<SetExp>
    decreases ss,
{
    if ss.len() == 0 {
        Seq::empty()
    } else {
        drop_full(ss.drop_last()) + (if ss.last() is Full {
            Seq::empty()
        } else {
            seq![ss.last()]
        })
    }
}

/// The simplification of a union with already-simplified members: nested
/// unions are flattened one level; a universal member collapses the union
/// to universal; empty members are dropped; an empty list yields the empty
/// set and a one-member list its member.
pub open spec fn simplify_union(ss: Seq<SetExp>) -> SetExp {
    let flat = flatten_unions(ss);
    if has_full(flat) {
        SetExp::Full
    } else {
        let kept = drop_empty(flat);
        if kept.len() == 0 {
            SetExp::Empty
        } else if kept.len() == 1 {
            kept[0]
        } else {
            SetExp::Union(kept)
        }
    }
}

/// The simplification of an intersection, dual to `simplify_union`.
pub open spec fn simplify_intersection(ss: Seq<SetExp>) -> SetExp {
    let flat = flatten_intersections(ss);
    if has_empty(flat) {
        SetExp::Empty
    } else {
        let kept = drop_full(flat);
        if kept.len() == 0 {
            SetExp::Full
        } else if kept.len() == 1 {
            kept[0]
        } else {
            SetExp::Intersection(kept)
        }
    }
}

/// The pointwise simplification of a sequence of set expressions.
pub open spec fn simplify_set_seq(ss: Seq<SetExp>) -> Seq<SetExp>
    decreases ss,
{
    if ss.len() == 0 {
        Seq::empty()
    } else {
        simplify_set_seq(ss.drop_last()).push(spec_simplify_set(ss.last()))
    }
}

/// The structural simplification of a set expression, bottom up: unions and
/// intersections flatten, collapse on an absorbing member and drop identity
/// members; a comparison whose two sides simplify to constants collapses to
/// the universal or the empty set by the truth of the comparison on those
/// constants; atoms are otherwise kept as they are.
pub open spec fn spec_simplify_set(s: SetExp) -> SetExp
    decreases s,
{
    match s {
        SetExp::Empty => s,
        SetExp::Full => s,
        SetExp::Union(ss) => simplify_union(simplify_set_seq(ss)),
        SetExp::Intersection(ss) => simplify_intersection(simplify_set_seq(ss)),
        SetExp::Comparison(l, r, op) => {
            let sl = spec_simplify(*l);
            let sr = spec_simplify(*r);
            if sl is Const && sr is Const {
                if spec_compare(sl->Const_0, sr->Const_0, op) {
                    SetExp::Full
                } else {
                    SetExp::Empty
                }
            } else {
                s
            }
        },
        SetExp::Interval(_, _, _, _, _) => s,
    }
}

/// A comparison whose two sides simplify to constants collapses exactly to
/// the truth of the comparison on those constants: the universal set where
/// it holds, the empty set where it does not.
pub proof fn law_comparison_collapse(l: Exp, r: Exp, op: ComparisonOperator, a: u64, b: u64)
    requires
        spec_simplify(l) == Exp::Const(a),
        spec_simplify(r) == Exp::Const(b),
    ensures
        spec_simplify_set(SetExp::Comparison(Box::new(l), Box::new(r), op)) == (if spec_compare(
            a,
            b,
            op,
        ) {
            SetExp::Full
        } else {
            SetExp::Empty
        }),
{
}

/// The truth assignment respects the constants: a comparison whose sides
/// simplify to constants is assigned the truth of the comparison on them.
pub open spec fn coherent(t: spec_fn(SetExp) -> bool) -> bool {
    forall|l: Exp, r: Exp, op: ComparisonOperator|
        (spec_simplify(l) is Const && spec_simplify(r) is Const) ==> #[trigger] t(
            SetExp::Comparison(Box::new(l), Box::new(r), op),
        ) == spec_compare(spec_simplify(l)->Const_0, spec_simplify(r)->Const_0, op)
}

proof fn lemma_sat_any_concat(s1: Seq<SetExp>, s2: Seq<SetExp>, t: spec_fn(SetExp) -> bool)
    ensures
        sat_any(s1 + s2, t) == (sat_any(s1, t) || sat_any(s2, t)),
    decreases s2,
{
    if s2.len() == 0 {
        assert(s1 + s2 =~= s1);
    } else {
        assert((s1 + s2).drop_last() =~= s1 + s2.drop_last());
        assert((s1 + s2).last() == s2.last());
        lemma_sat_any_concat(s1, s2.drop_last(), t);
    }
}

proof fn lemma_sat_all_concat(s1: Seq<SetExp>, s2: Seq<SetExp>, t: spec_fn(SetExp) -> bool)
    ensures
        sat_all(s1 + s2, t) == (sat_all(s1, t) && sat_all(s2, t)),
    decreases s2,
{
    if s2.len() == 0 {
        assert(s1 + s2 =~= s1);
    } else {
        assert((s1 + s2).drop_last() =~= s1 + s2.drop_last());
        assert((s1 + s2).last() == s2.last());
        lemma_sat_all_concat(s1, s2.drop_last(), t);
    }
}

proof fn lemma_flatten_unions_sat(ss: Seq<SetExp>, t: spec_fn(SetExp) -> bool)
    ensures
        sat_any(flatten_unions(ss), t) == sat_any(ss, t),
    decreases ss,
{
    if ss.len() > 0 {
        lemma_flatten_unions_sat(ss.drop_last(), t);
        assert(sat_any(ss, t) == (sat_set(ss.last(), t) || sat_any(ss.drop_last(), t)));
        match ss.last() {
            SetExp::Union(inner) => {
                assert(flatten_unions(ss) == flatten_unions(ss.drop_last()) + inner);
                assert(sat_set(ss.last(), t) == sat_any(inner, t));
                lemma_sat_any_concat(flatten_unions(ss.drop_last()), inner, t);
            },
            e => {
                assert(flatten_unions(ss) == flatten_unions(ss.drop_last()) + seq![e]);
                lemma_sat_any_concat(flatten_unions(ss.drop_last()), seq![e], t);
                assert(seq![e].drop_last() =~= Seq::<SetExp>::empty());
                assert(!sat_any(Seq::<SetExp>::empty(), t));
                assert(sat_any(seq![e], t) == sat_set(e, t));
            },
        }
    }
}

proof fn lemma_flatten_intersections_sat(ss: Seq<SetExp>, t: spec_fn(SetExp) -> bool)
    ensures
        sat_all(flatten_intersections(ss), t) == sat_all(ss, t),
    decreases ss,
{
    if ss.len() > 0 {
        lemma_flatten_intersections_sat(ss.drop_last(), t);
        assert(sat_all(ss, t) == (sat_set(ss.last(), t) && sat_all(ss.drop_last(), t)));
        match ss.last() {
            SetExp::Intersection(inner) => {
                assert(flatten_intersections(ss) == flatten_intersections(ss.drop_last()) + inner);
                assert(sat_set(ss.last(), t) == sat_all(inner, t));
                lemma_sat_all_concat(flatten_intersections(ss.drop_last()), inner, t);
            },
            e => {
                assert(flatten_intersections(ss) == flatten_intersections(ss.drop_last())
                    + seq![e]);
                lemma_sat_all_concat(flatten_intersections(ss.drop_last()), seq![e], t);
                assert(seq![e].drop_last() =~= Seq::<SetExp>::empty());
                assert(sat_all(Seq::<SetExp>::empty(), t));
                assert(sat_all(seq![e], t) == sat_set(e, t));
            },
        }
    }
}

proof fn lemma_drop_empty_sat(ss: Seq<SetExp>, t: spec_fn(SetExp) -> bool)
    ensures
        sat_any(drop_empty(ss), t) == sat_any(ss, t),
    decreases ss,
{
    if ss.len() > 0 {
        lemma_drop_empty_sat(ss.drop_last(), t);
        assert(sat_any(ss, t) == (sat_set(ss.last(), t) || sat_any(ss.drop_last(), t)));
        if ss.last() is Empty {
            assert(drop_empty(ss) =~= drop_empty(ss.drop_last()));
        } else {
            lemma_sat_any_concat(drop_empty(ss.drop_last()), seq![ss.last()], t);
            assert(seq![ss.last()].drop_last() =~= Seq::<SetExp>::empty());
            assert(!sat_any(Seq::<SetExp>::empty(), t));
            assert(sat_any(seq![ss.last()], t) == sat_set(ss.last(), t));
        }
    }
}

proof fn lemma_drop_full_sat(ss: Seq<SetExp>, t: spec_fn(SetExp) -> bool)
    ensures
        sat_all(drop_full(ss), t) == sat_all(ss, t),
    decreases ss,
{
    if ss.len() > 0 {
        lemma_drop_full_sat(ss.drop_last(), t);
        assert(sat_all(ss, t) == (sat_set(ss.last(), t) && sat_all(ss.drop_last(), t)));
        if ss.last() is Full {
            assert(drop_full(ss) =~= drop_full(ss.drop_last()));
        } else {
            lemma_sat_all_concat(drop_full(ss.drop_last()), seq![ss.last()], t);
            assert(seq![ss.last()].drop_last() =~= Seq::<SetExp>::empty());
            assert(sat_all(Seq::<SetExp>::empty(), t));
            assert(sat_all(seq![ss.last()], t) == sat_set(ss.last(), t));
        }
    }
}

proof fn lemma_has_full_sat(ss: Seq<SetExp>, t: spec_fn(SetExp) -> bool)
    requires
        has_full(ss),
    ensures
        sat_any(ss, t),
    decreases ss,
{
    assert(ss.len() > 0);
    assert(sat_any(ss, t) == (sat_set(ss.last(), t) || sat_any(ss.drop_last(), t)));
    if ss.last() is Full {
        assert(sat_set(ss.last(), t));
    } else {
        lemma_has_full_sat(ss.drop_last(), t);
    }
}

proof fn lemma_has_empty_sat(ss: Seq<SetExp>, t: spec_fn(SetExp) -> bool)
    requires
        has_empty(ss),
    ensures
        !sat_all(ss, t),
    decreases ss,
{
    assert(ss.len() > 0);
    assert(sat_all(ss, t) == (sat_set(ss.last(), t) && sat_all(ss.drop_last(), t)));
    if ss.last() is Empty {
        assert(!sat_set(ss.last(), t));
    } else {
        lemma_has_empty_sat(ss.drop_last(), t);
    }
}

proof fn lemma_seq_simplify_sat_any(ss: Seq<SetExp>, t: spec_fn(SetExp) -> bool)
    requires
        coherent(t),
    ensures
        sat_any(simplify_set_seq(ss), t) == sat_any(ss, t),
    decreases ss,
{
    if ss.len() > 0 {
        lemma_seq_simplify_sat_any(ss.drop_last(), t);
        law_simplify_preserves_membership(ss.last(), t);
        assert(simplify_set_seq(ss).drop_last() =~= simplify_set_seq(ss.drop_last()));
        assert(simplify_set_seq(ss).last() == spec_simplify_set(ss.last()));
    }
}

proof fn lemma_seq_simplify_sat_all(ss: Seq<SetExp>, t: spec_fn(SetExp) -> bool)
    requires
        coherent(t),
    ensures
        sat_all(simplify_set_seq(ss), t) == sat_all(ss, t),
    decreases ss,
{
    if ss.len() > 0 {
        lemma_seq_simplify_sat_all(ss.drop_last(), t);
        law_simplify_preserves_membership(ss.last(), t);
        assert(simplify_set_seq(ss).drop_last() =~= simplify_set_seq(ss.drop_last()));
        assert(simplify_set_seq(ss).last() == spec_simplify_set(ss.last()));
    }
}

/// Simplification preserves membership: at any point (any truth assignment
/// for the atoms that respects constant comparisons), the simplified set
/// contains the point exactly when the original does.
pub proof fn law_simplify_preserves_membership(s: SetExp, t: spec_fn(SetExp) -> bool)
    requires
        coherent(t),
    ensures
        sat_set(spec_simplify_set(s), t) == sat_set(s, t),
    decreases s,
{
    match s {
        SetExp::Union(ss) => {
            lemma_seq_simplify_sat_any(ss, t);
            let ssimp = simplify_set_seq(ss);
            lemma_flatten_unions_sat(ssimp, t);
            let flat = flatten_unions(ssimp);
            if has_full(flat) {
                lemma_has_full_sat(flat, t);
            } else {
                lemma_drop_empty_sat(flat, t);
                let kept = drop_empty(flat);
                if kept.len() == 0 {
                    assert(!sat_any(kept, t));
                } else if kept.len() == 1 {
                    assert(kept.drop_last() =~= Seq::<SetExp>::empty());
                    assert(!sat_any(Seq::<SetExp>::empty(), t));
                    assert(kept.last() == kept[0]);
                    assert(sat_any(kept, t) == sat_set(kept[0], t));
                }
            }
        },
        SetExp::Intersection(ss) => {
            lemma_seq_simplify_sat_all(ss, t);
            let ssimp = simplify_set_seq(ss);
            lemma_flatten_intersections_sat(ssimp, t);
            let flat = flatten_intersections(ssimp);
            if has_empty(flat) {
                lemma_has_empty_sat(flat, t);
            } else {
                lemma_drop_full_sat(flat, t);
                let kept = drop_full(flat);
                if kept.len() == 0 {
                    assert(sat_all(kept, t));
                } else if kept.len() == 1 {
                    assert(kept.drop_last() =~= Seq::<SetExp>::empty());
                    assert(sat_all(Seq::<SetExp>::empty(), t));
                    assert(kept.last() == kept[0]);
                    assert(sat_all(kept, t) == sat_set(kept[0], t));
                }
            }
        },
        SetExp::Comparison(l, r, op) => {
        },
        _ => {},
    }
}

/// A deep copy of a sequence of set expressions.
#[verifier::loop_isolation(false)]
fn clone_set_seq(ss: &Vec<SetExpr>) -> (r: Vec<SetExpr>)
    ensures
        view_set_seq(r@) == view_set_seq(ss@),
        r@.len() == ss@.len(),
    decreases *ss,
{
    let mut r: Vec<SetExpr> = Vec::new();
    let mut i: usize = 0;
    proof {
        lemma_view_set_seq(ss@);
    }
    while i < ss.len()
        invariant
            0 <= i <= ss.len(),
            r@.len() == i,
            view_set_seq(r@) == view_set_seq(ss@).take(i as int),
        decreases ss.len() - i,
    {
        proof {
            vstd::seq::axiom_seq_index_decreases(ss@, i as int);
            vstd::std_specs::vec::axiom_vec_decreases_to_view(*ss);
            assert(decreases_to!(*ss => ss@[i as int]));
        }
        let c = ss[i].clone_dyn();
        let ghost pre = r@;
        r.push(c);
        proof {
            assert(r@.drop_last() =~= pre);
            lemma_view_set_seq(r@);
            assert(view_set_seq(r@) =~= view_set_seq(ss@).take(i as int + 1));
        }
        i += 1;
    }
    proof {
        assert(view_set_seq(ss@).take(i as int) =~= view_set_seq(ss@));
    }
    r
}

impl SetExpr {
    /// A deep copy of the set expression.
    pub fn clone_dyn(&self) -> (r: SetExpr)
        ensures
            r@ == self@,
        decreases *self,
    {
        match self {
            SetExpr::Empty => SetExpr::Empty,
            SetExpr::Full => SetExpr::Full,
            SetExpr::Union(ss) => SetExpr::Union(clone_set_seq(ss)),
            SetExpr::Intersection(ss) => SetExpr::Intersection(clone_set_seq(ss)),
            SetExpr::Comparison(eq) => SetExpr::Comparison(
                Equation {
                    left: eq.left.clone_dyn(),
                    right: eq.right.clone_dyn(),
                    operator: eq.operator,
                },
            ),
            SetExpr::Interval(iv) => SetExpr::Interval(
                Interval {
                    variable: iv.variable.clone(),
                    lower: iv.lower,
                    upper: iv.upper,
                    lower_inclusive: iv.lower_inclusive,
                    upper_inclusive: iv.upper_inclusive,
                },
            ),
        }
    }
}

/// The pointwise simplification of a vector of set expressions.
#[verifier::loop_isolation(false)]
fn simplify_set_vec(ss: &Vec<SetExpr>) -> (r: Vec<SetExpr>)
    ensures
        view_set_seq(r@) == simplify_set_seq(view_set_seq(ss@)),
        r@.len() == ss@.len(),
    decreases *ss,
{
    let mut r: Vec<SetExpr> = Vec::new();
    let mut i: usize = 0;
    proof {
        lemma_view_set_seq(ss@);
        lemma_simplify_set_seq(view_set_seq(ss@));
    }
    while i < ss.len()
        invariant
            0 <= i <= ss.len(),
            r@.len() == i,
            view_set_seq(r@) == simplify_set_seq(view_set_seq(ss@)).take(i as int),
        decreases ss.len() - i,
    {
        proof {
            vstd::seq::axiom_seq_index_decreases(ss@, i as int);
            vstd::std_specs::vec::axiom_vec_decreases_to_view(*ss);
            assert(decreases_to!(*ss => ss@[i as int]));
        }
        let e = ss[i].basic_simplify();
        let ghost pre = r@;
        r.push(e);
        proof {
            assert(r@.drop_last() =~= pre);
            lemma_view_set_seq(r@);
            assert(view_set_seq(r@) =~= simplify_set_seq(view_set_seq(ss@)).take(i as int + 1));
        }
        i += 1;
    }
    proof {
        assert(simplify_set_seq(view_set_seq(ss@)).take(i as int) =~= simplify_set_seq(
            view_set_seq(ss@),
        ));
    }
    r
}

/// The simplification of a sequence is the pointwise simplification of its
/// elements.
pub proof fn lemma_simplify_set_seq(ss: Seq<SetExp>)
    ensures
        simplify_set_seq(ss).len() == ss.len(),
        forall|i: int|
            0 <= i < ss.len() ==> simplify_set_seq(ss)[i] == spec_simplify_set(#[trigger] ss[i]),
    decreases ss,
{
    if ss.len() > 0 {
        lemma_simplify_set_seq(ss.drop_last());
        assert forall|i: int| 0 <= i < ss.len() implies simplify_set_seq(ss)[i]
            == spec_simplify_set(#[trigger] ss[i]) by {
            if i < ss.len() - 1 {
                assert(simplify_set_seq(ss)[i] == simplify_set_seq(ss.drop_last())[i]);
                assert(ss.drop_last()[i] == ss[i]);
            } else {
                assert(ss.last() == ss[i]);
            }
        }
    }
}

proof fn lemma_drop_empty_concat(s1: Seq<SetExp>, s2: Seq<SetExp>)
    ensures
        drop_empty(s1 + s2) == drop_empty(s1) + drop_empty(s2),
    decreases s2,
{
    if s2.len() == 0 {
        assert(s1 + s2 =~= s1);
        assert(drop_empty(s1) + drop_empty(s2) =~= drop_empty(s1));
    } else {
        assert((s1 + s2).drop_last() =~= s1 + s2.drop_last());
        assert((s1 + s2).last() == s2.last());
        lemma_drop_empty_concat(s1, s2.drop_last());
        assert(drop_empty(s1 + s2) =~= drop_empty(s1) + drop_empty(s2));
    }
}

proof fn lemma_drop_full_concat(s1: Seq<SetExp>, s2: Seq<SetExp>)
    ensures
        drop_full(s1 + s2) == drop_full(s1) + drop_full(s2),
    decreases s2,
{
    if s2.len() == 0 {
        assert(s1 + s2 =~= s1);
        assert(drop_full(s1) + drop_full(s2) =~= drop_full(s1));
    } else {
        assert((s1 + s2).drop_last() =~= s1 + s2.drop_last());
        assert((s1 + s2).last() == s2.last());
        lemma_drop_full_concat(s1, s2.drop_last());
        assert(drop_full(s1 + s2) =~= drop_full(s1) + drop_full(s2));
    }
}

proof fn lemma_has_full_concat(s1: Seq<SetExp>, s2: Seq<SetExp>)
    ensures
        has_full(s1 + s2) == (has_full(s1) || has_full(s2)),
    decreases s2,
{
    if s2.len() == 0 {
        assert(s1 + s2 =~= s1);
    } else {
        assert((s1 + s2).drop_last() =~= s1 + s2.drop_last());
        assert((s1 + s2).last() == s2.last());
        lemma_has_full_concat(s1, s2.drop_last());
    }
}

proof fn lemma_has_empty_concat(s1: Seq<SetExp>, s2: Seq<SetExp>)
    ensures
        has_empty(s1 + s2) == (has_empty(s1) || has_empty(s2)),
    decreases s2,
{
    if s2.len() == 0 {
        assert(s1 + s2 =~= s1);
    } else {
        assert((s1 + s2).drop_last() =~= s1 + s2.drop_last());
        assert((s1 + s2).last() == s2.last());
        lemma_has_empty_concat(s1, s2.drop_last());
    }
}

/// Flattens the simplified members of a union (or, with `inter` set, an
/// intersection) one level, drops the identity members, and reports whether
/// an absorbing member was seen.
#[verifier::loop_isolation(false)]
fn flatten_filter_sets(ss: Vec<SetExpr>, inter: bool) -> (r: (Vec<SetExpr>, bool))
    ensures
        !inter ==> view_set_seq(r.0@) == drop_empty(flatten_unions(view_set_seq(ss@))) && r.1
            == has_full(flatten_unions(view_set_seq(ss@))),
        inter ==> view_set_seq(r.0@) == drop_full(flatten_intersections(view_set_seq(ss@))) && r.1
            == has_empty(flatten_intersections(view_set_seq(ss@))),
{
    let ghost gss = view_set_seq(ss@);
    let mut kept: Vec<SetExpr> = Vec::new();
    let mut absorbed = false;
    let mut i: usize = 0;
    proof {
        lemma_view_set_seq(ss@);
        assert(gss.take(0) =~= Seq::<SetExp>::empty());
    }
    while i < ss.len()
        invariant
            0 <= i <= ss.len(),
            !inter ==> view_set_seq(kept@) == drop_empty(flatten_unions(gss.take(i as int)))
                && absorbed == has_full(flatten_unions(gss.take(i as int))),
            inter ==> view_set_seq(kept@) == drop_full(flatten_intersections(gss.take(i as int)))
                && absorbed == has_empty(flatten_intersections(gss.take(i as int))),
        decreases ss.len() - i,
    {
        let ghost gpre_take = gss.take(i as int);
        proof {
            assert(gss.take(i as int + 1).drop_last() =~= gss.take(i as int));
            assert(gss.take(i as int + 1).last() == gss[i as int]);
        }
        let inner_opt: Option<&Vec<SetExpr>> = if inter {
            match &ss[i] {
                SetExpr::Intersection(inner) => Some(inner),
                _ => None,
            }
        } else {
            match &ss[i] {
                SetExpr::Union(inner) => Some(inner),
                _ => None,
            }
        };
        if let Some(inner) = inner_opt {
            let ghost ginner = view_set_seq(inner@);
            proof {
                lemma_view_set_seq(inner@);
                if inter {
                    assert(flatten_intersections(gss.take(i as int + 1)) =~= flatten_intersections(
                        gpre_take,
                    ) + ginner);
                    lemma_drop_full_concat(flatten_intersections(gpre_take), ginner);
                    lemma_has_empty_concat(flatten_intersections(gpre_take), ginner);
                } else {
                    assert(flatten_unions(gss.take(i as int + 1)) =~= flatten_unions(gpre_take)
                        + ginner);
                    lemma_drop_empty_concat(flatten_unions(gpre_take), ginner);
                    lemma_has_full_concat(flatten_unions(gpre_take), ginner);
                }
            }
            let mut j: usize = 0;
            while j < inner.len()
                invariant
                    0 <= j <= inner.len(),
                    !inter ==> view_set_seq(kept@) == drop_empty(flatten_unions(gpre_take))
                        + drop_empty(ginner.take(j as int)) && absorbed == (has_full(
                        flatten_unions(gpre_take),
                    ) || has_full(ginner.take(j as int))),
                    inter ==> view_set_seq(kept@) == drop_full(flatten_intersections(gpre_take))
                        + drop_full(ginner.take(j as int)) && absorbed == (has_empty(
                        flatten_intersections(gpre_take),
                    ) || has_empty(ginner.take(j as int))),
                decreases inner.len() - j,
            {
                proof {
                    assert(ginner.take(j as int + 1).drop_last() =~= ginner.take(j as int));
                    assert(ginner.take(j as int + 1).last() == ginner[j as int]);
                }
                let e = &inner[j];
                let keep_it = if inter {
                    match e {
                        SetExpr::Empty => {
                            absorbed = true;
                            true
                        },
                        SetExpr::Full => false,
                        _ => true,
                    }
                } else {
                    match e {
                        SetExpr::Full => {
                            absorbed = true;
                            true
                        },
                        SetExpr::Empty => false,
                        _ => true,
                    }
                };
                if keep_it {
                    let ghost pre = kept@;
                    kept.push(e.clone_dyn());
                    proof {
                        assert(kept@.drop_last() =~= pre);
                        lemma_view_set_seq(kept@);
                    }
                }
                proof {
                    if inter {
                        assert(view_set_seq(kept@) =~= drop_full(flatten_intersections(gpre_take))
                            + drop_full(ginner.take(j as int + 1)));
                    } else {
                        assert(view_set_seq(kept@) =~= drop_empty(flatten_unions(gpre_take))
                            + drop_empty(ginner.take(j as int + 1)));
                    }
                }
                j += 1;
            }
            proof {
                assert(ginner.take(inner@.len() as int) =~= ginner);
            }
        } else {
            proof {
                let ghost single = seq![gss[i as int]];
                assert(single.drop_last() =~= Seq::<SetExp>::empty());
                assert(drop_empty(Seq::<SetExp>::empty()) =~= Seq::<SetExp>::empty());
                assert(drop_full(Seq::<SetExp>::empty()) =~= Seq::<SetExp>::empty());
                if inter {
                    assert(flatten_intersections(gss.take(i as int + 1)) =~= flatten_intersections(
                        gpre_take,
                    ) + single);
                    lemma_drop_full_concat(flatten_intersections(gpre_take), single);
                    lemma_has_empty_concat(flatten_intersections(gpre_take), single);
                    assert(!has_empty(Seq::<SetExp>::empty()));
                    assert(has_empty(single) == gss[i as int] is Empty);
                    assert(drop_full(single) =~= if gss[i as int] is Full {
                        Seq::<SetExp>::empty()
                    } else {
                        single
                    });
                } else {
                    assert(flatten_unions(gss.take(i as int + 1)) =~= flatten_unions(gpre_take)
                        + single);
                    lemma_drop_empty_concat(flatten_unions(gpre_take), single);
                    lemma_has_full_concat(flatten_unions(gpre_take), single);
                    assert(!has_full(Seq::<SetExp>::empty()));
                    assert(has_full(single) == gss[i as int] is Full);
                    assert(drop_empty(single) =~= if gss[i as int] is Empty {
                        Seq::<SetExp>::empty()
                    } else {
                        single
                    });
                }
            }
            let e = &ss[i];
            let keep_it = if inter {
                match e {
                    SetExpr::Empty => {
                        absorbed = true;
                        true
                    },
                    SetExpr::Full => false,
                    _ => true,
                }
            } else {
                match e {
                    SetExpr::Full => {
                        absorbed = true;
                        true
                    },
                    SetExpr::Empty => false,
                    _ => true,
                }
            };
            if keep_it {
                let ghost pre = kept@;
                kept.push(e.clone_dyn());
                proof {
                    assert(kept@.drop_last() =~= pre);
                    lemma_view_set_seq(kept@);
                }
            }
            proof {
                if inter {
                    assert(view_set_seq(kept@) =~= drop_full(
                        flatten_intersections(gss.take(i as int + 1)),
                    ));
                } else {
                    assert(view_set_seq(kept@) =~= drop_empty(
                        flatten_unions(gss.take(i as int + 1)),
                    ));
                }
            }
        }
        i += 1;
    }
    proof {
        assert(gss.take(ss@.len() as int) =~= gss);
        lemma_view_set_seq(kept@);
    }
    (kept, absorbed)
}

impl SetExpr {
    /// Structural simplification (see `spec_simplify_set`): unions and
    /// intersections flatten one level, collapse on an absorbing member and
    /// drop identity members; a comparison whose sides simplify to
    /// constants collapses by the truth of the comparison on them.
    #[verifier::loop_isolation(false)]
    pub fn basic_simplify(&self) -> (r: SetExpr)
        ensures
            r@ == spec_simplify_set(self@),
        decreases *self,
    {
        proof {
            reveal_with_fuel(view_set, 3);
            reveal_with_fuel(view_set_seq, 3);
            reveal_with_fuel(spec_simplify_set, 2);
        }
        match self {
            SetExpr::Empty => SetExpr::Empty,
            SetExpr::Full => SetExpr::Full,
            SetExpr::Union(ss) => {
                let ssimp = simplify_set_vec(ss);
                let (mut kept, saw_full) = flatten_filter_sets(ssimp, false);
                proof {
                    lemma_view_set_seq(kept@);
                }
                if saw_full {
                    SetExpr::Full
                } else if kept.len() == 0 {
                    SetExpr::Empty
                } else if kept.len() == 1 {
                    let e = kept.pop().unwrap();
                    proof {
                        assert(view_set_seq(kept@.push(e)) == view_set_seq(kept@).push(e@));
                        assert(e@ == simplify_union(simplify_set_seq(view_set_seq(ss@))));
                    }
                    e
                } else {
                    SetExpr::Union(kept)
                }
            },
            SetExpr::Intersection(ss) => {
                let ssimp = simplify_set_vec(ss);
                let (mut kept, saw_empty) = flatten_filter_sets(ssimp, true);
                proof {
                    lemma_view_set_seq(kept@);
                }
                if saw_empty {
                    SetExpr::Empty
                } else if kept.len() == 0 {
                    SetExpr::Full
                } else if kept.len() == 1 {
                    let e = kept.pop().unwrap();
                    proof {
                        assert(view_set_seq(kept@.push(e)) == view_set_seq(kept@).push(e@));
                        assert(e@ == simplify_intersection(simplify_set_seq(view_set_seq(ss@))));
                    }
                    e
                } else {
                    SetExpr::Intersection(kept)
                }
            },
            SetExpr::Comparison(eq) => {
                let sl = eq.left.basic_simplify();
                let sr = eq.right.basic_simplify();
                let collapsed: Option<bool> = match (&sl, &sr) {
                    (Expression::Constant(a), Expression::Constant(b)) => Some(
                        compare_values(*a, *b, eq.operator),
                    ),
                    _ => None,
                };
                match collapsed {
                    Some(true) => SetExpr::Full,
                    Some(false) => SetExpr::Empty,
                    None => SetExpr::Comparison(
                        Equation {
                            left: eq.left.clone_dyn(),
                            right: eq.right.clone_dyn(),
                            operator: eq.operator,
                        },
                    ),
                }
            },
            SetExpr::Interval(iv) => SetExpr::Interval(
                Interval {
                    variable: iv.variable.clone(),
                    lower: iv.lower,
                    upper: iv.upper,
                    lower_inclusive: iv.lower_inclusive,
                    upper_inclusive: iv.upper_inclusive,
                },
            ),
        }
    }
}

} // verus!

