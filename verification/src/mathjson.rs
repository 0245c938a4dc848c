//! The MathJSON reader: from a structured JSON-like tree to an equation.
//!
//! The input format is an array `[op, left, right]` whose head names one of
//! six comparison operators and whose sides are expressions: a number is a
//! constant, `"Pi"` and `"ExponentialE"` are the usual constants,
//! `"Nothing"` is absent, any other string is a variable, and an array is
//! an operator application.  `Subtract` and `Divide` desugar to a sum of
//! negations and a product of reciprocals; `Sqrt` is a power with exponent
//! one half; `Rational` is a quotient; `Delimiter` is transparent.  An
//! unknown operator, a missing operand or a malformed node rejects the
//! input.
//!
//! The JSON tree arrives as a `MathJson` value of plain data; reading a
//! serialised JSON text into that shape is the caller's concern.

use crate::expr::{str_eq, view_expr, view_seq, Exp, Expression};
use crate::ieee::{E_BITS, HALF_BITS, PI_BITS};
use crate::sets::{ComparisonOperator, Equation};
use vstd::prelude::*;

verus! {

broadcast use vstd::std_specs::vec::group_vec_axioms, vstd::seq::group_seq_axioms;

/// The ghost model of a JSON-like input tree.
pub enum MJson {
    /// A number: the bits of its binary64 value.
    Number(u64),
    /// A string.
    Str(Seq<char>),
    /// An array.
    Array(Seq<MJson>),
    /// Any other JSON value (an object, a boolean, null).
    Other,
}

/// A JSON-like input tree, as plain data.
#[derive(Debug)]
pub enum MathJson {
    /// A number: the bits of its binary64 value.
    Number(u64),
    /// A string.
    Str(String),
    /// An array.
    Array(Vec<MathJson>),
    /// Any other JSON value (an object, a boolean, null).
    Other,
}

/// The model of a sequence of JSON trees.
pub open spec fn view_mj_seq(s: Seq<MathJson>) -> Seq<MJson>
    decreases s,
{
    if s.len() == 0 {
        Seq::empty()
    } else {
        view_mj_seq(s.drop_last()).push(view_mj(s.last()))
    }
}

/// The model of a JSON tree.
pub open spec fn view_mj(v: MathJson) -> MJson
    decreases v,
{
    match v {
        MathJson::Number(b) => MJson::Number(b),
        MathJson::Str(s) => MJson::Str(s@),
        MathJson::Array(a) => MJson::Array(view_mj_seq(a@)),
        MathJson::Other => MJson::Other,
    }
}

impl View for MathJson {
    type V = MJson;

    open spec fn view(&self) -> MJson {
        view_mj(*self)
    }
}

/// The model of a sequence is the pointwise model of its elements.
pub proof fn lemma_view_mj_seq(s: Seq<MathJson>)
    ensures
        view_mj_seq(s).len() == s.len(),
        forall|i: int| 0 <= i < s.len() ==> view_mj_seq(s)[i] == view_mj(#[trigger] s[i]),
    decreases s,
{
    if s.len() > 0 {
        lemma_view_mj_seq(s.drop_last());
        assert forall|i: int| 0 <= i < s.len() implies view_mj_seq(s)[i] == view_mj(
            #[trigger] s[i],
        ) by {
            if i < s.len() - 1 {
                assert(view_mj_seq(s)[i] == view_mj_seq(s.drop_last())[i]);
                assert(s.drop_last()[i] == s[i]);
            } else {
                assert(s.last() == s[i]);
            }
        }
    }
}

/// The parsed operands of an application: every element parsed, or nothing
/// if any of them fails.
pub open spec fn parse_operands(elems: Seq<MJson>) -> Option<Seq<Exp>>
    decreases elems,
{
    if elems.len() == 0 {
        Some(Seq::empty())
    } else {
        match (parse_operands(elems.drop_last()), spec_to_expression(elems.last())) {
            (Some(s), Some(e)) => Some(s.push(e)),
            _ => None,
        }
    }
}

/// The operands with every one but the first negated: the reading of
/// `Subtract`.
pub open spec fn wrap_minus_tail(ts: Seq<Exp>) -> Seq<Exp> {
    Seq::new(
        ts.len(),
        |i: int|
            if i == 0 {
                ts[0]
            } else {
                Exp::Minus(Box::new(ts[i]))
            },
    )
}

/// The operands with every one but the first inverted: the reading of
/// `Divide`.
pub open spec fn wrap_inverse_tail(ts: Seq<Exp>) -> Seq<Exp> {
    Seq::new(
        ts.len(),
        |i: int|
            if i == 0 {
                ts[0]
            } else {
                Exp::Inverse(Box::new(ts[i]))
            },
    )
}

/// The reading of an operator application on parsed operands.  An unknown
/// operator or too few operands reject the node.
pub open spec fn apply_operator(op: Seq<char>, ops: Seq<Exp>) -> Option<Exp> {
    if op == "Add"@ {
        Some(Exp::Plus(ops))
    } else if op == "Subtract"@ {
        Some(Exp::Plus(wrap_minus_tail(ops)))
    } else if op == "Multiply"@ {
        Some(Exp::Times(ops))
    } else if op == "Divide"@ {
        Some(Exp::Times(wrap_inverse_tail(ops)))
    } else if op == "Negate"@ {
        if ops.len() >= 1 {
            Some(Exp::Minus(Box::new(ops[0])))
        } else {
            None
        }
    } else if op == "Power"@ {
        if ops.len() >= 2 {
            Some(Exp::Power(Box::new(ops[0]), Box::new(ops[1])))
        } else {
            None
        }
    } else if op == "Ln"@ {
        if ops.len() >= 1 {
            Some(Exp::Log(E_BITS, Box::new(ops[0])))
        } else {
            None
        }
    } else if op == "Sin"@ {
        if ops.len() >= 1 {
            Some(Exp::Sin(Box::new(ops[0])))
        } else {
            None
        }
    } else if op == "Cos"@ {
        if ops.len() >= 1 {
            Some(Exp::Cos(Box::new(ops[0])))
        } else {
            None
        }
    } else if op == "Tan"@ {
        if ops.len() >= 1 {
            Some(Exp::Tan(Box::new(ops[0])))
        } else {
            None
        }
    } else if op == "Abs"@ {
        if ops.len() >= 1 {
            Some(Exp::Abs(Box::new(ops[0])))
        } else {
            None
        }
    } else if op == "Sqrt"@ {
        if ops.len() >= 1 {
            Some(Exp::Power(Box::new(ops[0]), Box::new(Exp::Const(HALF_BITS))))
        } else {
            None
        }
    } else if op == "Delimiter"@ {
        if ops.len() >= 1 {
            Some(ops[0])
        } else {
            None
        }
    } else if op == "Rational"@ {
        if ops.len() >= 2 {
            Some(Exp::Times(seq![ops[0], Exp::Inverse(Box::new(ops[1]))]))
        } else {
            None
        }
    } else {
        None
    }
}

/// The reading of a JSON tree as an expression: a number is a constant,
/// `"Pi"` and `"ExponentialE"` the usual constants, `"Nothing"` absent, any
/// other string a variable, and an array an operator application whose head
/// must be a string.
pub open spec fn spec_to_expression(v: MJson) -> Option<Exp>
    decreases v,
{
    match v {
        MJson::Number(b) => Some(Exp::Const(b)),
        MJson::Str(s) => if s == "Pi"@ {
            Some(Exp::Const(PI_BITS))
        } else if s == "ExponentialE"@ {
            Some(Exp::Const(E_BITS))
        } else if s == "Nothing"@ {
            None
        } else {
            Some(Exp::Var(s))
        },
        MJson::Array(a) => {
            if a.len() == 0 {
                None
            } else {
                match a[0] {
                    MJson::Str(op) => match parse_operands(a.drop_first()) {
                        Some(ops) => apply_operator(op, ops),
                        None => None,
                    },
                    _ => None,
                }
            }
        },
        MJson::Other => None,
    }
}

/// The reading of an operator name as a comparison.
pub open spec fn spec_comparison_op(s: Seq<char>) -> Option<ComparisonOperator> {
    if s == "Less"@ {
        Some(ComparisonOperator::LessThan)
    } else if s == "LessEqual"@ {
        Some(ComparisonOperator::LessThanOrEqual)
    } else if s == "Equal"@ {
        Some(ComparisonOperator::Equal)
    } else if s == "GreaterEqual"@ {
        Some(ComparisonOperator::GreaterThanOrEqual)
    } else if s == "Greater"@ {
        Some(ComparisonOperator::GreaterThan)
    } else if s == "NotEqual"@ {
        Some(ComparisonOperator::NotEqual)
    } else {
        None
    }
}

/// The reading of a JSON tree as an equation: a three-element array whose
/// head names a comparison operator and whose two other elements parse as
/// expressions.
pub open spec fn spec_to_equation(v: MJson) -> Option<(Exp, Exp, ComparisonOperator)> {
    match v {
        MJson::Array(a) => {
            if a.len() != 3 {
                None
            } else {
                match a[0] {
                    MJson::Str(op) => match spec_comparison_op(op) {
                        Some(cmp) => match (spec_to_expression(a[1]), spec_to_expression(a[2])) {
                            (Some(l), Some(r)) => Some((l, r, cmp)),
                            _ => None,
                        },
                        None => None,
                    },
                    _ => None,
                }
            }
        },
        _ => None,
    }
}

/// Reads a JSON tree as an expression (see `spec_to_expression`).
#[verifier::loop_isolation(false)]
pub fn mathjson_value_to_expression(v: &MathJson) -> (r: Option<Expression>)
    ensures
        r is Some <==> spec_to_expression(v@) is Some,
        r is Some ==> view_expr(r->0) == spec_to_expression(v@)->0,
    decreases *v,
{
    proof {
        reveal_with_fuel(view_expr, 3);
        reveal_with_fuel(view_seq, 3);
        reveal_with_fuel(view_mj, 2);
        reveal_strlit("Pi");
        reveal_strlit("ExponentialE");
        reveal_strlit("Nothing");
    }
    match v {
        MathJson::Number(b) => Some(Expression::Constant(*b)),
        MathJson::Str(s) => {
            if str_eq(s.as_str(), "Pi") {
                Some(Expression::Constant(PI_BITS))
            } else if str_eq(s.as_str(), "ExponentialE") {
                Some(Expression::Constant(E_BITS))
            } else if str_eq(s.as_str(), "Nothing") {
                None
            } else {
                Some(Expression::Variable(s.clone()))
            }
        },
        MathJson::Array(a) => {
            proof {
                lemma_view_mj_seq(a@);
            }
            if a.len() == 0 {
                return None;
            }
            let op: &String = match &a[0] {
                MathJson::Str(op) => op,
                _ => {
                    return None;
                },
            };
            let ghost ga = view_mj_seq(a@);
            let ghost tail = ga.drop_first();
            let mut ops: Vec<Expression> = Vec::new();
            let mut i: usize = 1;
            proof {
                assert(tail.take(0) =~= Seq::<MJson>::empty());
                assert(parse_operands(tail.take(0)) == Some(Seq::<Exp>::empty()));
                assert(view_seq(ops@) =~= Seq::<Exp>::empty());
            }
            while i < a.len()
                invariant
                    1 <= i <= a.len(),
                    ops@.len() == i - 1,
                    parse_operands(tail.take(i - 1)) == Some(view_seq(ops@)),
                decreases a.len() - i,
            {
                proof {
                    vstd::seq::axiom_seq_index_decreases(a@, i as int);
                    vstd::std_specs::vec::axiom_vec_decreases_to_view(*a);
                    assert(decreases_to!(*v => a@[i as int]));
                    assert(tail.take(i as int).drop_last() =~= tail.take(i - 1));
                    assert(tail.take(i as int).last() == ga[i as int]);
                }
                let parsed = mathjson_value_to_expression(&a[i]);
                match parsed {
                    Some(e) => {
                        let ghost pre = ops@;
                        ops.push(e);
                        proof {
                            assert(ops@.drop_last() =~= pre);
                            crate::expr::lemma_view_seq(ops@);
                            assert(view_seq(ops@) =~= view_seq(pre).push(
                                spec_to_expression(ga[i as int])->0,
                            ));
                        }
                    },
                    None => {
                        proof {
                            assert(parse_operands(tail.take(i as int)) is None);
                            lemma_parse_operands_prefix_none(tail, i as int);
                        }
                        return None;
                    },
                }
                i += 1;
            }
            proof {
                assert(tail.take(tail.len() as int) =~= tail);
                assert(parse_operands(tail) == Some(view_seq(ops@)));
            }
            apply_operator_exec(op, ops)
        },
        MathJson::Other => None,
    }
}

/// A failed operand fails the whole list.
proof fn lemma_parse_operands_prefix_none(elems: Seq<MJson>, k: int)
    requires
        0 <= k <= elems.len(),
        parse_operands(elems.take(k)) is None,
    ensures
        parse_operands(elems) is None,
    decreases elems.len() - k,
{
    if k < elems.len() {
        assert(elems.take(k + 1).drop_last() =~= elems.take(k));
        lemma_parse_operands_prefix_none(elems, k + 1);
    } else {
        assert(elems.take(k) =~= elems);
    }
}

/// Applies a named operator to parsed operands (see `apply_operator`).
#[verifier::loop_isolation(false)]
fn apply_operator_exec(op: &String, ops: Vec<Expression>) -> (r: Option<Expression>)
    ensures
        r is Some <==> apply_operator(op@, view_seq(ops@)) is Some,
        r is Some ==> view_expr(r->0) == apply_operator(op@, view_seq(ops@))->0,
{
    proof {
        reveal_with_fuel(view_expr, 3);
        reveal_with_fuel(view_seq, 3);
        crate::expr::lemma_view_seq(ops@);
        reveal_strlit("Add");
        reveal_strlit("Subtract");
        reveal_strlit("Multiply");
        reveal_strlit("Divide");
        reveal_strlit("Negate");
        reveal_strlit("Power");
        reveal_strlit("Ln");
        reveal_strlit("Sin");
        reveal_strlit("Cos");
        reveal_strlit("Tan");
        reveal_strlit("Abs");
        reveal_strlit("Sqrt");
        reveal_strlit("Delimiter");
        reveal_strlit("Rational");
    }
    let ghost gops = view_seq(ops@);
    if str_eq(op.as_str(), "Add") {
        Some(Expression::Plus(ops))
    } else if str_eq(op.as_str(), "Subtract") {
        let wrapped = wrap_tail(ops, false);
        Some(Expression::Plus(wrapped))
    } else if str_eq(op.as_str(), "Multiply") {
        Some(Expression::Times(ops))
    } else if str_eq(op.as_str(), "Divide") {
        let wrapped = wrap_tail(ops, true);
        Some(Expression::Times(wrapped))
    } else if str_eq(op.as_str(), "Negate") {
        if ops.len() >= 1 {
            let first = first_of(ops);
            Some(Expression::Minus(Box::new(first)))
        } else {
            None
        }
    } else if str_eq(op.as_str(), "Power") {
        if ops.len() >= 2 {
            let (first, second) = first_two_of(ops);
            Some(Expression::Power(Box::new(first), Box::new(second)))
        } else {
            None
        }
    } else if str_eq(op.as_str(), "Ln") {
        if ops.len() >= 1 {
            let first = first_of(ops);
            Some(Expression::Log(E_BITS, Box::new(first)))
        } else {
            None
        }
    } else if str_eq(op.as_str(), "Sin") {
        if ops.len() >= 1 {
            let first = first_of(ops);
            Some(Expression::Sin(Box::new(first)))
        } else {
            None
        }
    } else if str_eq(op.as_str(), "Cos") {
        if ops.len() >= 1 {
            let first = first_of(ops);
            Some(Expression::Cos(Box::new(first)))
        } else {
            None
        }
    } else if str_eq(op.as_str(), "Tan") {
        if ops.len() >= 1 {
            let first = first_of(ops);
            Some(Expression::Tan(Box::new(first)))
        } else {
            None
        }
    } else if str_eq(op.as_str(), "Abs") {
        if ops.len() >= 1 {
            let first = first_of(ops);
            Some(Expression::Abs(Box::new(first)))
        } else {
            None
        }
    } else if str_eq(op.as_str(), "Sqrt") {
        if ops.len() >= 1 {
            let first = first_of(ops);
            Some(
                Expression::Power(Box::new(first), Box::new(Expression::Constant(HALF_BITS))),
            )
        } else {
            None
        }
    } else if str_eq(op.as_str(), "Delimiter") {
        if ops.len() >= 1 {
            Some(first_of(ops))
        } else {
            None
        }
    } else if str_eq(op.as_str(), "Rational") {
        if ops.len() >= 2 {
            let (first, second) = first_two_of(ops);
            let factors = crate::expr::vec2(first, Expression::Inverse(Box::new(second)));
            Some(Expression::Times(factors))
        } else {
            None
        }
    } else {
        None
    }
}

/// The first operand, taken out of the list.
fn first_of(mut ops: Vec<Expression>) -> (r: Expression)
    requires
        ops@.len() >= 1,
    ensures
        r@ == view_seq(ops@)[0],
{
    proof {
        crate::expr::lemma_view_seq(ops@);
    }
    let r = ops.remove(0);
    r
}

/// The first two operands, taken out of the list.
fn first_two_of(mut ops: Vec<Expression>) -> (r: (Expression, Expression))
    requires
        ops@.len() >= 2,
    ensures
        r.0@ == view_seq(ops@)[0],
        r.1@ == view_seq(ops@)[1],
{
    proof {
        crate::expr::lemma_view_seq(ops@);
    }
    let a = ops.remove(0);
    let b = ops.remove(0);
    (a, b)
}

/// The operands with every one but the first negated (or inverted, with
/// `inverse` set).
#[verifier::loop_isolation(false)]
fn wrap_tail(ops: Vec<Expression>, inverse: bool) -> (r: Vec<Expression>)
    ensures
        !inverse ==> view_seq(r@) == wrap_minus_tail(view_seq(ops@)),
        inverse ==> view_seq(r@) == wrap_inverse_tail(view_seq(ops@)),
{
    let ghost gops = view_seq(ops@);
    proof {
        crate::expr::lemma_view_seq(ops@);
    }
    let mut r: Vec<Expression> = Vec::new();
    let mut i: usize = 0;
    proof {
        if inverse {
            assert(view_seq(r@) =~= wrap_inverse_tail(gops).take(0));
        } else {
            assert(view_seq(r@) =~= wrap_minus_tail(gops).take(0));
        }
    }
    while i < ops.len()
        invariant
            0 <= i <= ops.len(),
            r@.len() == i,
            !inverse ==> view_seq(r@) == wrap_minus_tail(gops).take(i as int),
            inverse ==> view_seq(r@) == wrap_inverse_tail(gops).take(i as int),
        decreases ops.len() - i,
    {
        let e = if i == 0 {
            ops[i].clone_dyn()
        } else if inverse {
            Expression::Inverse(Box::new(ops[i].clone_dyn()))
        } else {
            Expression::Minus(Box::new(ops[i].clone_dyn()))
        };
        let ghost pre = r@;
        r.push(e);
        proof {
            assert(r@.drop_last() =~= pre);
            crate::expr::lemma_view_seq(r@);
            if inverse {
                assert(view_seq(r@) =~= wrap_inverse_tail(gops).take(i as int + 1));
            } else {
                assert(view_seq(r@) =~= wrap_minus_tail(gops).take(i as int + 1));
            }
        }
        i += 1;
    }
    proof {
        if inverse {
            assert(wrap_inverse_tail(gops).take(i as int) =~= wrap_inverse_tail(gops));
        } else {
            assert(wrap_minus_tail(gops).take(i as int) =~= wrap_minus_tail(gops));
        }
    }
    r
}

/// Reads a JSON tree as an equation (see `spec_to_equation`).
pub fn mathjson_value_to_equation(v: &MathJson) -> (r: Option<Equation>)
    ensures
        r is Some <==> spec_to_equation(v@) is Some,
        r is Some ==> {
            let (l, rr, op) = spec_to_equation(v@)->0;
            r->0.left@ == l && r->0.right@ == rr && r->0.operator == op
        },
{
    proof {
        reveal_with_fuel(view_mj, 2);
        reveal_strlit("Less");
        reveal_strlit("LessEqual");
        reveal_strlit("Equal");
        reveal_strlit("GreaterEqual");
        reveal_strlit("Greater");
        reveal_strlit("NotEqual");
    }
    let a = match v {
        MathJson::Array(a) => a,
        _ => {
            return None;
        },
    };
    proof {
        lemma_view_mj_seq(a@);
    }
    if a.len() != 3 {
        return None;
    }
    let op_name: &String = match &a[0] {
        MathJson::Str(s) => s,
        _ => {
            return None;
        },
    };
    let operator = if str_eq(op_name.as_str(), "Less") {
        ComparisonOperator::LessThan
    } else if str_eq(op_name.as_str(), "LessEqual") {
        ComparisonOperator::LessThanOrEqual
    } else if str_eq(op_name.as_str(), "Equal") {
        ComparisonOperator::Equal
    } else if str_eq(op_name.as_str(), "GreaterEqual") {
        ComparisonOperator::GreaterThanOrEqual
    } else if str_eq(op_name.as_str(), "Greater") {
        ComparisonOperator::GreaterThan
    } else if str_eq(op_name.as_str(), "NotEqual") {
        ComparisonOperator::NotEqual
    } else {
        return None;
    };
    let left = match mathjson_value_to_expression(&a[1]) {
        Some(l) => l,
        None => {
            return None;
        },
    };
    let right = match mathjson_value_to_expression(&a[2]) {
        Some(r) => r,
        None => {
            return None;
        },
    };
    Some(Equation { left, right, operator })
}

} // verus!
