//! The real-domain analysis of an expression.
//!
//! `get_real_domain` computes a symbolic under-approximation of the subset
//! of the plane on which an expression is real-valued: arithmetic
//! composition intersects the operand domains; a reciprocal excludes the
//! zero set of its operand; a power with a constant exponent distinguishes
//! integer exponents (every finite non-integer binary64 value is a dyadic
//! rational with an even denominator, so its power needs a non-negative
//! base, and a non-zero one when the exponent is also negative) from
//! negative integer ones (non-zero base); a power with a
//! symbolic exponent admits a positive base everywhere and a zero base only
//! where the exponent is positive; a logarithm with a valid base requires a
//! positive operand and is nowhere real otherwise.

use crate::expr::{view_expr, view_seq, Exp, Expression, lemma_view_seq};
use crate::ieee::{
    is_finite_bits, is_int_bits, is_neg_bits, lt_bits, ONE_BITS, ZERO_BITS, finite_bits, int_bits,
    neg_bits, bits_lt,
};
use crate::sets::{
    view_set, view_set_seq, ComparisonOperator, Equation, SetExp, SetExpr, lemma_view_set_seq,
};
use vstd::prelude::*;

verus! {

broadcast use vstd::std_specs::vec::group_vec_axioms, vstd::seq::group_seq_axioms;

/// The comparison `e op 0`, as a set.
pub open spec fn zero_cmp(e: Exp, op: ComparisonOperator) -> SetExp {
    SetExp::Comparison(Box::new(e), Box::new(Exp::Const(ZERO_BITS)), op)
}

/// The pointwise real domain of a sequence of expressions.
pub open spec fn domain_seq(ts: Seq<Exp>) -> Seq<SetExp>
    decreases ts,
{
    if ts.len() == 0 {
        Seq::empty()
    } else {
        domain_seq(ts.drop_last()).push(spec_real_domain(ts.last()))
    }
}

/// The symbolic real domain of an expression.
pub open spec fn spec_real_domain(e: Exp) -> SetExp
    decreases e,
{
    match e {
        Exp::Const(_) => SetExp::Full,
        Exp::Var(_) => SetExp::Full,
        Exp::Plus(ts) => SetExp::Intersection(domain_seq(ts)),
        Exp::Minus(v) => spec_real_domain(*v),
        Exp::Times(ts) => SetExp::Intersection(domain_seq(ts)),
        Exp::Inverse(v) => SetExp::Intersection(
            seq![
                spec_real_domain(*v),
                zero_cmp(*v, ComparisonOperator::NotEqual),
            ],
        ),
        Exp::Power(b, x) => {
            if *x is Const && is_finite_bits((*x)->Const_0) {
                let c = (*x)->Const_0;
                if !is_int_bits(c) {
                    if is_neg_bits(c) {
                        SetExp::Intersection(
                            seq![
                                zero_cmp(*b, ComparisonOperator::GreaterThanOrEqual),
                                zero_cmp(*b, ComparisonOperator::NotEqual),
                                spec_real_domain(*b),
                            ],
                        )
                    } else {
                        SetExp::Intersection(
                            seq![
                                zero_cmp(*b, ComparisonOperator::GreaterThanOrEqual),
                                spec_real_domain(*b),
                            ],
                        )
                    }
                } else if is_neg_bits(c) {
                    SetExp::Intersection(
                        seq![
                            zero_cmp(*b, ComparisonOperator::NotEqual),
                            spec_real_domain(*b),
                        ],
                    )
                } else {
                    spec_real_domain(*b)
                }
            } else {
                SetExp::Intersection(
                    seq![
                        SetExp::Union(
                            seq![
                                zero_cmp(*b, ComparisonOperator::GreaterThan),
                                SetExp::Intersection(
                                    seq![
                                        zero_cmp(*b, ComparisonOperator::Equal),
                                        zero_cmp(*x, ComparisonOperator::GreaterThan),
                                    ],
                                ),
                            ],
                        ),
                        spec_real_domain(*b),
                        spec_real_domain(*x),
                    ],
                )
            }
        },
        Exp::Log(b, v) => {
            if lt_bits(ZERO_BITS, b) && b != ONE_BITS {
                SetExp::Intersection(
                    seq![
                        zero_cmp(*v, ComparisonOperator::GreaterThan),
                        spec_real_domain(*v),
                    ],
                )
            } else {
                SetExp::Empty
            }
        },
        Exp::Sin(v) => spec_real_domain(*v),
        Exp::Cos(v) => spec_real_domain(*v),
        Exp::Tan(v) => spec_real_domain(*v),
        Exp::Abs(v) => spec_real_domain(*v),
    }
}

/// The set `e op 0` for a copy of the given expression.
fn make_zero_cmp(e: &Expression, op: ComparisonOperator) -> (r: SetExpr)
    ensures
        r@ == zero_cmp(e@, op),
{
    SetExpr::Comparison(
        Equation {
            left: e.clone_dyn(),
            right: Expression::Constant(ZERO_BITS),
            operator: op,
        },
    )
}

/// A two-element member vector with the given sets.
fn set_vec2(a: SetExpr, b: SetExpr) -> (r: Vec<SetExpr>)
    ensures
        view_set_seq(r@) == seq![a@, b@],
{
    let ghost ga = a@;
    let ghost gb = b@;
    let mut r: Vec<SetExpr> = Vec::new();
    r.push(a);
    proof {
        assert(r@.drop_last() =~= Seq::<SetExpr>::empty());
        assert(view_set_seq(Seq::<SetExpr>::empty()) =~= Seq::<SetExp>::empty());
        assert(view_set_seq(r@) =~= seq![ga]);
    }
    let ghost pre = r@;
    r.push(b);
    proof {
        assert(r@.drop_last() =~= pre);
        assert(view_set_seq(r@) =~= seq![ga, gb]);
    }
    r
}

/// A three-element member vector with the given sets.
fn set_vec3(a: SetExpr, b: SetExpr, c: SetExpr) -> (r: Vec<SetExpr>)
    ensures
        view_set_seq(r@) == seq![a@, b@, c@],
{
    let ghost ga = a@;
    let ghost gb = b@;
    let ghost gc = c@;
    let mut r = set_vec2(a, b);
    let ghost pre = r@;
    proof {
        assert(pre.len() == 2) by {
            lemma_view_set_seq(pre);
        }
    }
    r.push(c);
    proof {
        assert(r@.drop_last() =~= pre);
        assert(view_set_seq(r@) =~= seq![ga, gb, gc]);
    }
    r
}

/// The pointwise real domain of a vector of expressions.
#[verifier::loop_isolation(false)]
fn domain_vec(ts: &Vec<Expression>) -> (r: Vec<SetExpr>)
    ensures
        view_set_seq(r@) == domain_seq(view_seq(ts@)),
        r@.len() == ts@.len(),
    decreases *ts,
{
    let mut r: Vec<SetExpr> = Vec::new();
    let mut i: usize = 0;
    proof {
        lemma_view_seq(ts@);
        lemma_domain_seq(view_seq(ts@));
    }
    while i < ts.len()
        invariant
            0 <= i <= ts.len(),
            r@.len() == i,
            view_set_seq(r@) == domain_seq(view_seq(ts@)).take(i as int),
        decreases ts.len() - i,
    {
        proof {
            vstd::seq::axiom_seq_index_decreases(ts@, i as int);
            vstd::std_specs::vec::axiom_vec_decreases_to_view(*ts);
            assert(decreases_to!(*ts => ts@[i as int]));
        }
        let d = ts[i].get_real_domain();
        let ghost pre = r@;
        r.push(d);
        proof {
            assert(r@.drop_last() =~= pre);
            lemma_view_set_seq(r@);
            assert(view_set_seq(r@) =~= domain_seq(view_seq(ts@)).take(i as int + 1));
        }
        i += 1;
    }
    proof {
        assert(domain_seq(view_seq(ts@)).take(i as int) =~= domain_seq(view_seq(ts@)));
    }
    r
}

/// The domain of a sequence is the pointwise domain of its elements.
pub proof fn lemma_domain_seq(ts: Seq<Exp>)
    ensures
        domain_seq(ts).len() == ts.len(),
        forall|i: int|
            0 <= i < ts.len() ==> domain_seq(ts)[i] == spec_real_domain(#[trigger] ts[i]),
    decreases ts,
{
    if ts.len() > 0 {
        lemma_domain_seq(ts.drop_last());
        assert forall|i: int| 0 <= i < ts.len() implies domain_seq(ts)[i] == spec_real_domain(
            #[trigger] ts[i],
        ) by {
            if i < ts.len() - 1 {
                assert(domain_seq(ts)[i] == domain_seq(ts.drop_last())[i]);
                assert(ts.drop_last()[i] == ts[i]);
            } else {
                assert(ts.last() == ts[i]);
            }
        }
    }
}

impl Expression {
    /// The symbolic real domain of the expression (see `spec_real_domain`).
    #[verifier::loop_isolation(false)]
    pub fn get_real_domain(&self) -> (r: SetExpr)
        ensures
            r@ == spec_real_domain(self@),
        decreases *self,
    {
        proof {
            reveal_with_fuel(view_expr, 4);
            reveal_with_fuel(view_set, 4);
            reveal_with_fuel(view_set_seq, 4);
            reveal_with_fuel(spec_real_domain, 2);
        }
        match self {
            Expression::Constant(_) => SetExpr::Full,
            Expression::Variable(_) => SetExpr::Full,
            Expression::Plus(ts) => SetExpr::Intersection(domain_vec(ts)),
            Expression::Minus(v) => v.get_real_domain(),
            Expression::Times(ts) => SetExpr::Intersection(domain_vec(ts)),
            Expression::Inverse(v) => {
                let members = set_vec2(
                    v.get_real_domain(),
                    make_zero_cmp(v, ComparisonOperator::NotEqual),
                );
                SetExpr::Intersection(members)
            },
            Expression::Power(b, x) => {
                let const_exp: Option<u64> = match &**x {
                    Expression::Constant(c) => {
                        if finite_bits(*c) {
                            Some(*c)
                        } else {
                            None
                        }
                    },
                    _ => None,
                };
                match const_exp {
                    Some(c) => {
                        if !int_bits(c) {
                            if neg_bits(c) {
                                let members = set_vec3(
                                    make_zero_cmp(b, ComparisonOperator::GreaterThanOrEqual),
                                    make_zero_cmp(b, ComparisonOperator::NotEqual),
                                    b.get_real_domain(),
                                );
                                SetExpr::Intersection(members)
                            } else {
                                let members = set_vec2(
                                    make_zero_cmp(b, ComparisonOperator::GreaterThanOrEqual),
                                    b.get_real_domain(),
                                );
                                SetExpr::Intersection(members)
                            }
                        } else if neg_bits(c) {
                            let members = set_vec2(
                                make_zero_cmp(b, ComparisonOperator::NotEqual),
                                b.get_real_domain(),
                            );
                            SetExpr::Intersection(members)
                        } else {
                            b.get_real_domain()
                        }
                    },
                    None => {
                        let zero_base = set_vec2(
                            make_zero_cmp(b, ComparisonOperator::Equal),
                            make_zero_cmp(x, ComparisonOperator::GreaterThan),
                        );
                        let positive_or_zero = set_vec2(
                            make_zero_cmp(b, ComparisonOperator::GreaterThan),
                            SetExpr::Intersection(zero_base),
                        );
                        let members = set_vec3(
                            SetExpr::Union(positive_or_zero),
                            b.get_real_domain(),
                            x.get_real_domain(),
                        );
                        SetExpr::Intersection(members)
                    },
                }
            },
            Expression::Log(b, v) => {
                if bits_lt(ZERO_BITS, *b) && *b != ONE_BITS {
                    let members = set_vec2(
                        make_zero_cmp(v, ComparisonOperator::GreaterThan),
                        v.get_real_domain(),
                    );
                    SetExpr::Intersection(members)
                } else {
                    SetExpr::Empty
                }
            },
            Expression::Sin(v) => v.get_real_domain(),
            Expression::Cos(v) => v.get_real_domain(),
            Expression::Tan(v) => v.get_real_domain(),
            Expression::Abs(v) => v.get_real_domain(),
        }
    }
}

} // verus!
