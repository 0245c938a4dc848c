//! The symbolic expression engine.
//!
//! An `Expression` is an immutable algebraic tree: constants (encoded
//! binary64 bit patterns, see `ieee`), named variables, n-ary sums and
//! products, negation, reciprocal, powers, logarithms of a fixed numeric
//! base, the three basic trigonometric functions, and the absolute value.
//! The engine differentiates symbolically and simplifies structurally; both
//! are specified against the ghost model `Exp`, the same tree with
//! mathematical sequences for operand lists and character sequences for
//! names.
//!
//! Numeric evaluation of an expression is floating-point work and is done by
//! the caller; the operations here are the ones decidable from the tree
//! itself.

use crate::ieee::{is_zero_bits, E_BITS, NEG_ONE_BITS, NEG_TWO_BITS, ONE_BITS, SIGN_MASK, TWO_BITS, ZERO_BITS};
use vstd::prelude::*;

verus! {

broadcast use vstd::std_specs::vec::group_vec_axioms, vstd::seq::group_seq_axioms;

/// The ghost model of an expression tree.
pub enum Exp {
    /// A constant: the bits of a binary64 value.
    Const(u64),
    /// A variable, by name.
    Var(Seq<char>),
    /// A sum of zero or more terms.
    Plus(Seq<Exp>),
    /// The negation of a value.
    Minus(Box<Exp>),
    /// A product of zero or more factors.
    Times(Seq<Exp>),
    /// The reciprocal of a value.
    Inverse(Box<Exp>),
    /// A base raised to an exponent.
    Power(Box<Exp>, Box<Exp>),
    /// The logarithm of the operand in a fixed numeric base.
    Log(u64, Box<Exp>),
    /// The sine of the operand.
    Sin(Box<Exp>),
    /// The cosine of the operand.
    Cos(Box<Exp>),
    /// The tangent of the operand.
    Tan(Box<Exp>),
    /// The absolute value of the operand.
    Abs(Box<Exp>),
}

/// An algebraic expression over named real variables.
#[derive(Debug)]
pub enum Expression {
    /// A constant: the bits of a binary64 value.
    Constant(u64),
    /// A variable, by name.
    Variable(String),
    /// A sum of zero or more terms.
    Plus(Vec<Expression>),
    /// The negation of a value.
    Minus(Box<Expression>),
    /// A product of zero or more factors.
    Times(Vec<Expression>),
    /// The reciprocal of a value.
    Inverse(Box<Expression>),
    /// A base raised to an exponent.
    Power(Box<Expression>, Box<Expression>),
    /// The logarithm of the operand in a fixed numeric base.
    Log(u64, Box<Expression>),
    /// The sine of the operand.
    Sin(Box<Expression>),
    /// The cosine of the operand.
    Cos(Box<Expression>),
    /// The tangent of the operand.
    Tan(Box<Expression>),
    /// The absolute value of the operand.
    Abs(Box<Expression>),
}

/// The marker of the variable leaf; its constructor builds the
/// `Expression`.
pub struct Variable;

impl Variable {
    /// A variable leaf with the given name.
    pub fn new(name: String) -> (r: Expression)
        ensures
            r@ == Exp::Var(name@),
    {
        Expression::Variable(name)
    }
}

/// The model of a sequence of expressions.
pub open spec fn view_seq(s: Seq<Expression>) -> Seq<Exp>
    decreases s,
{
    if s.len() == 0 {
        Seq::empty()
    } else {
        view_seq(s.drop_last()).push(view_expr(s.last()))
    }
}

/// The model of an expression.
pub open spec fn view_expr(e: Expression) -> Exp
    decreases e,
{
    match e {
        Expression::Constant(b) => Exp::Const(b),
        Expression::Variable(n) => Exp::Var(n@),
        Expression::Plus(ts) => Exp::Plus(view_seq(ts@)),
        Expression::Minus(v) => Exp::Minus(Box::new(view_expr(*v))),
        Expression::Times(ts) => Exp::Times(view_seq(ts@)),
        Expression::Inverse(v) => Exp::Inverse(Box::new(view_expr(*v))),
        Expression::Power(b, x) => Exp::Power(Box::new(view_expr(*b)), Box::new(view_expr(*x))),
        Expression::Log(b, v) => Exp::Log(b, Box::new(view_expr(*v))),
        Expression::Sin(v) => Exp::Sin(Box::new(view_expr(*v))),
        Expression::Cos(v) => Exp::Cos(Box::new(view_expr(*v))),
        Expression::Tan(v) => Exp::Tan(Box::new(view_expr(*v))),
        Expression::Abs(v) => Exp::Abs(Box::new(view_expr(*v))),
    }
}

impl View for Expression {
    type V = Exp;

    open spec fn view(&self) -> Exp {
        view_expr(*self)
    }
}

/// The model of a sequence is the pointwise model of its elements.
pub proof fn lemma_view_seq(s: Seq<Expression>)
    ensures
        view_seq(s).len() == s.len(),
        forall|i: int| 0 <= i < s.len() ==> view_seq(s)[i] == view_expr(#[trigger] s[i]),
    decreases s,
{
    if s.len() > 0 {
        lemma_view_seq(s.drop_last());
        assert forall|i: int| 0 <= i < s.len() implies view_seq(s)[i] == view_expr(
            #[trigger] s[i],
        ) by {
            if i < s.len() - 1 {
                assert(view_seq(s)[i] == view_seq(s.drop_last())[i]);
                assert(s.drop_last()[i] == s[i]);
            } else {
                assert(s.last() == s[i]);
            }
        }
    }
}

/// Every expression of the sequence is constant.
pub open spec fn all_constant(ts: Seq<Exp>) -> bool
    decreases ts,
{
    if ts.len() == 0 {
        true
    } else {
        spec_is_constant(ts.last()) && all_constant(ts.drop_last())
    }
}

/// The expression holds no variable leaf.
pub open spec fn spec_is_constant(e: Exp) -> bool
    decreases e,
{
    match e {
        Exp::Const(_) => true,
        Exp::Var(_) => false,
        Exp::Plus(ts) => all_constant(ts),
        Exp::Minus(v) => spec_is_constant(*v),
        Exp::Times(ts) => all_constant(ts),
        Exp::Inverse(v) => spec_is_constant(*v),
        Exp::Power(b, x) => spec_is_constant(*b) && spec_is_constant(*x),
        Exp::Log(_, v) => spec_is_constant(*v),
        Exp::Sin(v) => spec_is_constant(*v),
        Exp::Cos(v) => spec_is_constant(*v),
        Exp::Tan(v) => spec_is_constant(*v),
        Exp::Abs(v) => spec_is_constant(*v),
    }
}

/// A count clamped to the machine word it is reported in.
pub open spec fn sat64(n: nat) -> u64 {
    if n >= u64::MAX {
        u64::MAX
    } else {
        n as u64
    }
}

/// Whether two string slices hold the same characters.
pub fn str_eq(a: &str, b: &str) -> (r: bool)
    ensures
        r == (a@ == b@),
{
    let sa = a.to_owned();
    let sb = b.to_owned();
    sa == sb
}

/// The number of leaves of the sequence's expressions naming the variable.
pub open spec fn count_var_seq(ts: Seq<Exp>, var: Seq<char>) -> nat
    decreases ts,
{
    if ts.len() == 0 {
        0
    } else {
        count_var_seq(ts.drop_last(), var) + spec_count_var(ts.last(), var)
    }
}

/// The number of leaves of the expression naming the variable.
pub open spec fn spec_count_var(e: Exp, var: Seq<char>) -> nat
    decreases e,
{
    match e {
        Exp::Const(_) => 0,
        Exp::Var(n) => if n == var {
            1nat
        } else {
            0nat
        },
        Exp::Plus(ts) => count_var_seq(ts, var),
        Exp::Minus(v) => spec_count_var(*v, var),
        Exp::Times(ts) => count_var_seq(ts, var),
        Exp::Inverse(v) => spec_count_var(*v, var),
        Exp::Power(b, x) => spec_count_var(*b, var) + spec_count_var(*x, var),
        Exp::Log(_, v) => spec_count_var(*v, var),
        Exp::Sin(v) => spec_count_var(*v, var),
        Exp::Cos(v) => spec_count_var(*v, var),
        Exp::Tan(v) => spec_count_var(*v, var),
        Exp::Abs(v) => spec_count_var(*v, var),
    }
}

/// The pointwise derivative of a sequence of expressions.
pub open spec fn deriv_seq(ts: Seq<Exp>, var: Seq<char>) -> Seq<Exp>
    decreases ts,
{
    if ts.len() == 0 {
        Seq::empty()
    } else {
        deriv_seq(ts.drop_last(), var).push(spec_derivative(ts.last(), var))
    }
}

/// The terms of the product rule: the i-th term is the product with the i-th
/// factor replaced by its derivative (`ds` holds the factor derivatives).
pub open spec fn times_deriv_terms(ts: Seq<Exp>, ds: Seq<Exp>) -> Seq<Exp> {
    Seq::new(ts.len(), |i: int| Exp::Times(ts.update(i, ds[i])))
}

/// The symbolic partial derivative of the expression with respect to the
/// named variable, by the standard structural rules:
/// - a constant differentiates to zero, the variable itself to one;
/// - a sum differentiates term by term;
/// - a product of n factors becomes the sum over i of the product with the
///   i-th factor replaced by its derivative;
/// - `1/f` becomes `-(f^-2 * f')`;
/// - `f^g` becomes `f^(g + -1) * (g*f' + f*ln(f)*g')`;
/// - `log_b(f)` becomes `f' * (ln(b) * f)^-1`;
/// - sine, cosine and tangent follow the standard trigonometric rules;
/// - `|f|` becomes `f * (1/|f|) * f'`.
///
/// No simplification is performed here.
pub open spec fn spec_derivative(e: Exp, var: Seq<char>) -> Exp
    decreases e,
{
    match e {
        Exp::Const(_) => Exp::Const(ZERO_BITS),
        Exp::Var(n) => if n == var {
            Exp::Const(ONE_BITS)
        } else {
            Exp::Const(ZERO_BITS)
        },
        Exp::Plus(ts) => Exp::Plus(deriv_seq(ts, var)),
        Exp::Minus(v) => Exp::Minus(Box::new(spec_derivative(*v, var))),
        Exp::Times(ts) => Exp::Plus(times_deriv_terms(ts, deriv_seq(ts, var))),
        Exp::Inverse(v) => Exp::Minus(
            Box::new(
                Exp::Times(
                    seq![
                        Exp::Power(Box::new(*v), Box::new(Exp::Const(NEG_TWO_BITS))),
                        spec_derivative(*v, var),
                    ],
                ),
            ),
        ),
        Exp::Power(f, g) => Exp::Times(
            seq![
                Exp::Power(
                    Box::new(*f),
                    Box::new(Exp::Plus(seq![*g, Exp::Const(NEG_ONE_BITS)])),
                ),
                Exp::Plus(
                    seq![
                        Exp::Times(seq![*g, spec_derivative(*f, var)]),
                        Exp::Times(
                            seq![*f, Exp::Log(E_BITS, Box::new(*f)), spec_derivative(*g, var)],
                        ),
                    ],
                ),
            ],
        ),
        Exp::Log(b, v) => Exp::Times(
            seq![
                spec_derivative(*v, var),
                Exp::Power(
                    Box::new(Exp::Times(seq![Exp::Log(E_BITS, Box::new(Exp::Const(b))), *v])),
                    Box::new(Exp::Const(NEG_ONE_BITS)),
                ),
            ],
        ),
        Exp::Sin(v) => Exp::Times(seq![Exp::Cos(Box::new(*v)), spec_derivative(*v, var)]),
        Exp::Cos(v) => Exp::Minus(
            Box::new(Exp::Times(seq![Exp::Sin(Box::new(*v)), spec_derivative(*v, var)])),
        ),
        Exp::Tan(v) => Exp::Times(
            seq![
                Exp::Power(
                    Box::new(Exp::Inverse(Box::new(Exp::Cos(Box::new(*v))))),
                    Box::new(Exp::Const(TWO_BITS)),
                ),
                spec_derivative(*v, var),
            ],
        ),
        Exp::Abs(v) => Exp::Times(
            seq![
                *v,
                Exp::Inverse(Box::new(Exp::Abs(Box::new(*v)))),
                spec_derivative(*v, var),
            ],
        ),
    }
}

impl Expression {

    /// Whether the expression holds no variable leaf.  A constant expression
    /// evaluates to the same value under every variable binding.
    #[verifier::loop_isolation(false)]
    pub fn is_constant(&self) -> (r: bool)
        ensures
            r == spec_is_constant(self@),
        decreases *self,
    {
        match self {
            Expression::Constant(_) => true,
            Expression::Variable(_) => false,
            Expression::Plus(ts) | Expression::Times(ts) => {
                proof {
                    lemma_view_seq(ts@);
                }
                let mut i: usize = 0;
                let mut ok = true;
                while i < ts.len()
                    invariant
                        0 <= i <= ts.len(),
                        ok == all_constant(view_seq(ts@).take(i as int)),
                    decreases ts.len() - i,
                {
                    proof {
                        vstd::seq::axiom_seq_index_decreases(ts@, i as int);
                        vstd::std_specs::vec::axiom_vec_decreases_to_view(*ts);
                        assert(decreases_to!(*self => ts@[i as int]));
                        assert(view_seq(ts@).take(i as int + 1).drop_last() =~= view_seq(
                            ts@,
                        ).take(i as int));
                    }
                    let c = ts[i].is_constant();
                    ok = ok && c;
                    i += 1;
                }
                proof {
                    assert(view_seq(ts@).take(i as int) =~= view_seq(ts@));
                }
                ok
            },
            Expression::Minus(v) => v.is_constant(),
            Expression::Inverse(v) => v.is_constant(),
            Expression::Power(b, x) => {
                let cb = b.is_constant();
                cb && x.is_constant()
            },
            Expression::Log(_, v) => v.is_constant(),
            Expression::Sin(v) => v.is_constant(),
            Expression::Cos(v) => v.is_constant(),
            Expression::Tan(v) => v.is_constant(),
            Expression::Abs(v) => v.is_constant(),
        }
    }

    /// How many variable leaves of the expression name `var`.
    #[verifier::loop_isolation(false)]
    pub fn count_var_instances(&self, var: &str) -> (r: u64)
        ensures
            r == sat64(spec_count_var(self@, var@)),
        decreases *self,
    {
        match self {
            Expression::Constant(_) => 0,
            Expression::Variable(n) => {
                if str_eq(n.as_str(), var) {
                    1
                } else {
                    0
                }
            },
            Expression::Plus(ts) | Expression::Times(ts) => {
                proof {
                    lemma_view_seq(ts@);
                }
                let mut i: usize = 0;
                let mut count: u64 = 0;
                while i < ts.len()
                    invariant
                        0 <= i <= ts.len(),
                        count == sat64(count_var_seq(view_seq(ts@).take(i as int), var@)),
                    decreases ts.len() - i,
                {
                    proof {
                        vstd::seq::axiom_seq_index_decreases(ts@, i as int);
                        vstd::std_specs::vec::axiom_vec_decreases_to_view(*ts);
                        assert(decreases_to!(*self => ts@[i as int]));
                        assert(view_seq(ts@).take(i as int + 1).drop_last() =~= view_seq(
                            ts@,
                        ).take(i as int));
                    }
                    let c = ts[i].count_var_instances(var);
                    count = saturating_add(count, c);
                    i += 1;
                }
                proof {
                    assert(view_seq(ts@).take(i as int) =~= view_seq(ts@));
                }
                count
            },
            Expression::Minus(v) => v.count_var_instances(var),
            Expression::Inverse(v) => v.count_var_instances(var),
            Expression::Power(b, x) => {
                let cb = b.count_var_instances(var);
                let cx = x.count_var_instances(var);
                saturating_add(cb, cx)
            },
            Expression::Log(_, v) => v.count_var_instances(var),
            Expression::Sin(v) => v.count_var_instances(var),
            Expression::Cos(v) => v.count_var_instances(var),
            Expression::Tan(v) => v.count_var_instances(var),
            Expression::Abs(v) => v.count_var_instances(var),
        }
    }

    /// The bits of the constant where the expression is a lone constant
    /// leaf, and nothing otherwise.
    pub fn constant_value(&self) -> (r: Option<u64>)
        ensures
            r is Some <==> self@ is Const,
            r is Some ==> self@ == Exp::Const(r->0),
    {
        match self {
            Expression::Constant(b) => Some(*b),
            _ => None,
        }
    }

    /// A deep copy of the expression.
    #[verifier::loop_isolation(false)]
    pub fn clone_dyn(&self) -> (r: Expression)
        ensures
            r@ == self@,
        decreases *self,
    {
        match self {
            Expression::Constant(b) => Expression::Constant(*b),
            Expression::Variable(n) => Expression::Variable(n.clone()),
            Expression::Plus(ts) => Expression::Plus(clone_seq(ts)),
            Expression::Minus(v) => Expression::Minus(Box::new(v.clone_dyn())),
            Expression::Times(ts) => Expression::Times(clone_seq(ts)),
            Expression::Inverse(v) => Expression::Inverse(Box::new(v.clone_dyn())),
            Expression::Power(b, x) => Expression::Power(
                Box::new(b.clone_dyn()),
                Box::new(x.clone_dyn()),
            ),
            Expression::Log(b, v) => Expression::Log(*b, Box::new(v.clone_dyn())),
            Expression::Sin(v) => Expression::Sin(Box::new(v.clone_dyn())),
            Expression::Cos(v) => Expression::Cos(Box::new(v.clone_dyn())),
            Expression::Tan(v) => Expression::Tan(Box::new(v.clone_dyn())),
            Expression::Abs(v) => Expression::Abs(Box::new(v.clone_dyn())),
        }
    }
}

/// Adds two clamped counts, clamping the sum: the result reports the true
/// total clamped to the machine word.
fn saturating_add(a: u64, b: u64) -> (r: u64)
    ensures
        forall|na: nat, nb: nat|
            a == sat64(na) && b == sat64(nb) ==> r == #[trigger] sat64(na + nb),
{
    if a > u64::MAX - b {
        u64::MAX
    } else {
        a + b
    }
}

/// A deep copy of a sequence of expressions.
#[verifier::loop_isolation(false)]
fn clone_seq(ts: &Vec<Expression>) -> (r: Vec<Expression>)
    ensures
        view_seq(r@) == view_seq(ts@),
        r@.len() == ts@.len(),
    decreases *ts,
{
    let mut r: Vec<Expression> = Vec::new();
    let mut i: usize = 0;
    proof {
        lemma_view_seq(ts@);
    }
    while i < ts.len()
        invariant
            0 <= i <= ts.len(),
            r@.len() == i,
            view_seq(r@) == view_seq(ts@).take(i as int),
        decreases ts.len() - i,
    {
        proof {
            vstd::seq::axiom_seq_index_decreases(ts@, i as int);
            vstd::std_specs::vec::axiom_vec_decreases_to_view(*ts);
            assert(decreases_to!(*ts => ts@[i as int]));
        }
        let c = ts[i].clone_dyn();
        let ghost pre = r@;
        r.push(c);
        proof {
            assert(r@.drop_last() =~= pre);
            lemma_view_seq(r@);
            assert(view_seq(ts@).take(i as int + 1).drop_last() =~= view_seq(ts@).take(i as int));
            assert(view_seq(r@) =~= view_seq(ts@).take(i as int + 1));
        }
        i += 1;
    }
    proof {
        assert(view_seq(ts@).take(i as int) =~= view_seq(ts@));
    }
    r
}

/// A two-element operand vector with the given elements.
pub(crate) fn vec2(a: Expression, b: Expression) -> (r: Vec<Expression>)
    ensures
        view_seq(r@) == seq![a@, b@],
{
    let ghost ga = a@;
    let ghost gb = b@;
    let mut r: Vec<Expression> = Vec::new();
    r.push(a);
    proof {
        assert(r@.drop_last() =~= Seq::<Expression>::empty());
        assert(view_seq(Seq::<Expression>::empty()) =~= Seq::<Exp>::empty());
        assert(view_seq(r@) =~= seq![ga]);
    }
    let ghost pre = r@;
    r.push(b);
    proof {
        assert(r@.drop_last() =~= pre);
        assert(view_seq(r@) =~= seq![ga, gb]);
    }
    r
}

/// A three-element operand vector with the given elements.
fn vec3(a: Expression, b: Expression, c: Expression) -> (r: Vec<Expression>)
    ensures
        view_seq(r@) == seq![a@, b@, c@],
{
    let ghost ga = a@;
    let ghost gb = b@;
    let ghost gc = c@;
    let mut r = vec2(a, b);
    let ghost pre = r@;
    proof {
        assert(pre.len() == 2) by {
            lemma_view_seq(pre);
        }
    }
    r.push(c);
    proof {
        assert(r@.drop_last() =~= pre);
        assert(view_seq(r@) =~= seq![ga, gb, gc]);
    }
    r
}

/// The pointwise derivative of a vector of expressions.
#[verifier::loop_isolation(false)]
fn deriv_vec(ts: &Vec<Expression>, var: &str) -> (r: Vec<Expression>)
    ensures
        view_seq(r@) == deriv_seq(view_seq(ts@), var@),
        r@.len() == ts@.len(),
    decreases *ts,
{
    let mut r: Vec<Expression> = Vec::new();
    let mut i: usize = 0;
    proof {
        lemma_view_seq(ts@);
        lemma_deriv_seq(view_seq(ts@), var@);
    }
    while i < ts.len()
        invariant
            0 <= i <= ts.len(),
            r@.len() == i,
            view_seq(r@) == deriv_seq(view_seq(ts@), var@).take(i as int),
        decreases ts.len() - i,
    {
        proof {
            vstd::seq::axiom_seq_index_decreases(ts@, i as int);
            vstd::std_specs::vec::axiom_vec_decreases_to_view(*ts);
            assert(decreases_to!(*ts => ts@[i as int]));
        }
        let d = ts[i].derivative(var);
        let ghost pre = r@;
        r.push(d);
        proof {
            assert(r@.drop_last() =~= pre);
            lemma_view_seq(r@);
            assert(view_seq(r@) =~= deriv_seq(view_seq(ts@), var@).take(i as int + 1));
        }
        i += 1;
    }
    proof {
        assert(deriv_seq(view_seq(ts@), var@).take(i as int) =~= deriv_seq(view_seq(ts@), var@));
    }
    r
}

/// The derivative of a sequence is the pointwise derivative of its elements.
pub proof fn lemma_deriv_seq(ts: Seq<Exp>, var: Seq<char>)
    ensures
        deriv_seq(ts, var).len() == ts.len(),
        forall|i: int|
            0 <= i < ts.len() ==> deriv_seq(ts, var)[i] == spec_derivative(#[trigger] ts[i], var),
    decreases ts,
{
    if ts.len() > 0 {
        lemma_deriv_seq(ts.drop_last(), var);
        assert forall|i: int| 0 <= i < ts.len() implies deriv_seq(ts, var)[i] == spec_derivative(
            #[trigger] ts[i],
            var,
        ) by {
            if i < ts.len() - 1 {
                assert(deriv_seq(ts, var)[i] == deriv_seq(ts.drop_last(), var)[i]);
                assert(ts.drop_last()[i] == ts[i]);
            } else {
                assert(ts.last() == ts[i]);
            }
        }
    }
}

impl Expression {
    /// The symbolic partial derivative with respect to `var`, by the
    /// standard structural rules (see `spec_derivative`); no simplification
    /// is performed.
    #[verifier::loop_isolation(false)]
    #[verifier::rlimit(50)]
    pub fn derivative(&self, var: &str) -> (r: Expression)
        ensures
            r@ == spec_derivative(self@, var@),
        decreases *self,
    {
        proof {
            reveal_with_fuel(view_expr, 5);
            reveal_with_fuel(view_seq, 3);
            reveal_with_fuel(spec_derivative, 2);
        }
        match self {
            Expression::Constant(_) => Expression::Constant(ZERO_BITS),
            Expression::Variable(n) => {
                if str_eq(n.as_str(), var) {
                    Expression::Constant(ONE_BITS)
                } else {
                    Expression::Constant(ZERO_BITS)
                }
            },
            Expression::Plus(ts) => Expression::Plus(deriv_vec(ts, var)),
            Expression::Minus(v) => Expression::Minus(Box::new(v.derivative(var))),
            Expression::Times(ts) => {
                proof {
                    lemma_view_seq(ts@);
                    lemma_deriv_seq(view_seq(ts@), var@);
                }
                let ds = deriv_vec(ts, var);
                proof {
                    lemma_view_seq(ds@);
                }
                let ghost gts = view_seq(ts@);
                let ghost gds = deriv_seq(gts, var@);
                let mut terms: Vec<Expression> = Vec::new();
                let mut i: usize = 0;
                while i < ts.len()
                    invariant
                        0 <= i <= ts.len(),
                        terms@.len() == i,
                        view_seq(terms@) == times_deriv_terms(gts, gds).take(i as int),
                    decreases ts.len() - i,
                {
                    let mut factors: Vec<Expression> = Vec::new();
                    let mut j: usize = 0;
                    while j < ts.len()
                        invariant
                            0 <= j <= ts.len(),
                            0 <= i < ts.len(),
                            factors@.len() == j,
                            view_seq(factors@) == gts.update(i as int, gds[i as int]).take(
                                j as int,
                            ),
                        decreases ts.len() - j,
                    {
                        let f = if j == i {
                            ds[i].clone_dyn()
                        } else {
                            ts[j].clone_dyn()
                        };
                        let ghost pre = factors@;
                        factors.push(f);
                        proof {
                            assert(factors@.drop_last() =~= pre);
                            lemma_view_seq(factors@);
                            assert(view_seq(factors@) =~= gts.update(i as int, gds[i as int]).take(
                                j as int + 1,
                            ));
                        }
                        j += 1;
                    }
                    proof {
                        assert(gts.update(i as int, gds[i as int]).take(ts@.len() as int) =~= gts.update(
                            i as int,
                            gds[i as int],
                        ));
                    }
                    let t = Expression::Times(factors);
                    let ghost pret = terms@;
                    terms.push(t);
                    proof {
                        assert(terms@.drop_last() =~= pret);
                        lemma_view_seq(terms@);
                        assert(view_seq(terms@) =~= times_deriv_terms(gts, gds).take(i as int + 1));
                    }
                    i += 1;
                }
                proof {
                    assert(times_deriv_terms(gts, gds).take(ts@.len() as int) =~= times_deriv_terms(
                        gts,
                        gds,
                    ));
                }
                Expression::Plus(terms)
            },
            Expression::Inverse(v) => {
                let p = Expression::Power(
                    Box::new(v.clone_dyn()),
                    Box::new(Expression::Constant(NEG_TWO_BITS)),
                );
                let d = v.derivative(var);
                let factors = vec2(p, d);
                Expression::Minus(Box::new(Expression::Times(factors)))
            },
            Expression::Power(f, g) => {
                let exp_terms = vec2(g.clone_dyn(), Expression::Constant(NEG_ONE_BITS));
                let left = Expression::Power(
                    Box::new(f.clone_dyn()),
                    Box::new(Expression::Plus(exp_terms)),
                );
                let t1 = vec2(g.clone_dyn(), f.derivative(var));
                let t2 = vec3(
                    f.clone_dyn(),
                    Expression::Log(E_BITS, Box::new(f.clone_dyn())),
                    g.derivative(var),
                );
                let sum_terms = vec2(Expression::Times(t1), Expression::Times(t2));
                let right = Expression::Plus(sum_terms);
                let factors = vec2(left, right);
                Expression::Times(factors)
            },
            Expression::Log(b, v) => {
                let inner = vec2(
                    Expression::Log(E_BITS, Box::new(Expression::Constant(*b))),
                    v.clone_dyn(),
                );
                let factors = vec2(
                    v.derivative(var),
                    Expression::Power(
                        Box::new(Expression::Times(inner)),
                        Box::new(Expression::Constant(NEG_ONE_BITS)),
                    ),
                );
                Expression::Times(factors)
            },
            Expression::Sin(v) => {
                let factors = vec2(Expression::Cos(Box::new(v.clone_dyn())), v.derivative(var));
                Expression::Times(factors)
            },
            Expression::Cos(v) => {
                let factors = vec2(Expression::Sin(Box::new(v.clone_dyn())), v.derivative(var));
                Expression::Minus(Box::new(Expression::Times(factors)))
            },
            Expression::Tan(v) => {
                let sec = Expression::Power(
                    Box::new(
                        Expression::Inverse(Box::new(Expression::Cos(Box::new(v.clone_dyn())))),
                    ),
                    Box::new(Expression::Constant(TWO_BITS)),
                );
                let factors = vec2(sec, v.derivative(var));
                Expression::Times(factors)
            },
            Expression::Abs(v) => {
                let factors = vec3(
                    v.clone_dyn(),
                    Expression::Inverse(Box::new(Expression::Abs(Box::new(v.clone_dyn())))),
                    v.derivative(var),
                );
                Expression::Times(factors)
            },
        }
    }
}

/// The expression is a constant equal to zero (either zero's bits).
pub open spec fn is_zero_const(e: Exp) -> bool {
    e is Const && is_zero_bits(e->Const_0)
}

/// The expression is the constant one.
pub open spec fn is_one_const(e: Exp) -> bool {
    e == Exp::Const(ONE_BITS)
}

/// One level of sum flattening: each operand that is itself a sum is
/// replaced by its own operands, in place.
pub open spec fn flatten_plus(ss: Seq<Exp>) -> Seq<Exp>
    decreases ss,
{
    if ss.len() == 0 {
        Seq::empty()
    } else {
        flatten_plus(ss.drop_last()) + (match ss.last() {
            Exp::Plus(inner) => inner,
            e => seq![e],
        })
    }
}

/// One level of product flattening.
pub open spec fn flatten_times(ss: Seq<Exp>) -> Seq<Exp>
    decreases ss,
{
    if ss.len() == 0 {
        Seq::empty()
    } else {
        flatten_times(ss.drop_last()) + (match ss.last() {
            Exp::Times(inner) => inner,
            e => seq![e],
        })
    }
}

/// The sequence with every zero constant removed.
pub open spec fn drop_zero_consts(ss: Seq<Exp>) -> Seq<Exp>
    decreases ss,
{
    if ss.len() == 0 {
        Seq::empty()
    } else {
        drop_zero_consts(ss.drop_last()) + (if is_zero_const(ss.last()) {
            Seq::empty()
        } else {
            seq![ss.last()]
        })
    }
}

/// The sequence with every constant one removed.
pub open spec fn drop_one_consts(ss: Seq<Exp>) -> Seq<Exp>
    decreases ss,
{
    if ss.len() == 0 {
        Seq::empty()
    } else {
        drop_one_consts(ss.drop_last()) + (if is_one_const(ss.last()) {
            Seq::empty()
        } else {
            seq![ss.last()]
        })
    }
}

/// Some operand is a constant equal to zero.
pub open spec fn has_zero_const(ss: Seq<Exp>) -> bool
    decreases ss,
{
    if ss.len() == 0 {
        false
    } else {
        is_zero_const(ss.last()) || has_zero_const(ss.drop_last())
    }
}

/// The simplification of a sum whose operands `ss` are already simplified:
/// flatten nested sums one level, drop zero constants, and collapse an empty
/// sum to zero and a one-operand sum to its operand.
pub open spec fn simplify_plus(ss: Seq<Exp>) -> Exp {
    let kept = drop_zero_consts(flatten_plus(ss));
    if kept.len() == 0 {
        Exp::Const(ZERO_BITS)
    } else if kept.len() == 1 {
        kept[0]
    } else {
        Exp::Plus(kept)
    }
}

/// The simplification of a product whose operands `ss` are already
/// simplified: flatten nested products one level; a zero constant operand
/// annihilates the product; constant ones are dropped; an empty product
/// collapses to one and a one-operand product to its operand.
pub open spec fn simplify_times(ss: Seq<Exp>) -> Exp {
    let flat = flatten_times(ss);
    if has_zero_const(flat) {
        Exp::Const(ZERO_BITS)
    } else {
        let kept = drop_one_consts(flat);
        if kept.len() == 0 {
            Exp::Const(ONE_BITS)
        } else if kept.len() == 1 {
            kept[0]
        } else {
            Exp::Times(kept)
        }
    }
}

/// The pointwise simplification of a sequence of expressions.
pub open spec fn simplify_seq(ts: Seq<Exp>) -> Seq<Exp>
    decreases ts,
{
    if ts.len() == 0 {
        Seq::empty()
    } else {
        simplify_seq(ts.drop_last()).push(spec_simplify(ts.last()))
    }
}

/// The structural simplification of an expression, bottom up:
/// - sums and products are flattened one level and their identity constants
///   removed (zero for sums, one for products); a zero constant annihilates
///   a product; empty and one-operand lists collapse;
/// - the negation of a constant folds to the negated constant, and the
///   absolute value of a constant to the constant with its sign cleared
///   (both exact bit operations);
/// - a power with constant exponent zero folds to one, with exponent one to
///   its base, and with exponent minus one to the reciprocal of its base;
/// - every other node is rebuilt over its simplified operands.
///
/// Folds that would need floating-point arithmetic (sums or products of two
/// constants, the reciprocal or an analytic function of a constant) are not
/// performed: the bits of their results are not decidable here.
pub open spec fn spec_simplify(e: Exp) -> Exp
    decreases e,
{
    match e {
        Exp::Const(_) => e,
        Exp::Var(_) => e,
        Exp::Plus(ts) => simplify_plus(simplify_seq(ts)),
        Exp::Minus(v) => {
            let sv = spec_simplify(*v);
            if sv is Const {
                Exp::Const(sv->Const_0 ^ SIGN_MASK)
            } else {
                Exp::Minus(Box::new(sv))
            }
        },
        Exp::Times(ts) => simplify_times(simplify_seq(ts)),
        Exp::Inverse(v) => Exp::Inverse(Box::new(spec_simplify(*v))),
        Exp::Power(b, x) => {
            let sb = spec_simplify(*b);
            let sx = spec_simplify(*x);
            if sx is Const {
                let c = sx->Const_0;
                if is_zero_bits(c) {
                    Exp::Const(ONE_BITS)
                } else if c == ONE_BITS {
                    sb
                } else if c == NEG_ONE_BITS {
                    Exp::Inverse(Box::new(sb))
                } else {
                    Exp::Power(Box::new(sb), Box::new(sx))
                }
            } else {
                Exp::Power(Box::new(sb), Box::new(sx))
            }
        },
        Exp::Log(b, v) => Exp::Log(b, Box::new(spec_simplify(*v))),
        Exp::Sin(v) => Exp::Sin(Box::new(spec_simplify(*v))),
        Exp::Cos(v) => Exp::Cos(Box::new(spec_simplify(*v))),
        Exp::Tan(v) => Exp::Tan(Box::new(spec_simplify(*v))),
        Exp::Abs(v) => {
            let sv = spec_simplify(*v);
            if sv is Const {
                Exp::Const(sv->Const_0 & 0x7FFF_FFFF_FFFF_FFFF)
            } else {
                Exp::Abs(Box::new(sv))
            }
        },
    }
}

/// The simplification of a sequence is the pointwise simplification of its
/// elements.
pub proof fn lemma_simplify_seq(ts: Seq<Exp>)
    ensures
        simplify_seq(ts).len() == ts.len(),
        forall|i: int|
            0 <= i < ts.len() ==> simplify_seq(ts)[i] == spec_simplify(#[trigger] ts[i]),
    decreases ts,
{
    if ts.len() > 0 {
        lemma_simplify_seq(ts.drop_last());
        assert forall|i: int| 0 <= i < ts.len() implies simplify_seq(ts)[i] == spec_simplify(
            #[trigger] ts[i],
        ) by {
            if i < ts.len() - 1 {
                assert(simplify_seq(ts)[i] == simplify_seq(ts.drop_last())[i]);
                assert(ts.drop_last()[i] == ts[i]);
            } else {
                assert(ts.last() == ts[i]);
            }
        }
    }
}

proof fn lemma_flatten_plus_concat(s1: Seq<Exp>, s2: Seq<Exp>)
    ensures
        flatten_plus(s1 + s2) == flatten_plus(s1) + flatten_plus(s2),
    decreases s2,
{
    if s2.len() == 0 {
        assert(s1 + s2 =~= s1);
        assert(flatten_plus(s1) + flatten_plus(s2) =~= flatten_plus(s1));
    } else {
        assert((s1 + s2).drop_last() =~= s1 + s2.drop_last());
        assert((s1 + s2).last() == s2.last());
        lemma_flatten_plus_concat(s1, s2.drop_last());
        assert(flatten_plus(s1 + s2) =~= flatten_plus(s1) + flatten_plus(s2));
    }
}

proof fn lemma_flatten_times_concat(s1: Seq<Exp>, s2: Seq<Exp>)
    ensures
        flatten_times(s1 + s2) == flatten_times(s1) + flatten_times(s2),
    decreases s2,
{
    if s2.len() == 0 {
        assert(s1 + s2 =~= s1);
        assert(flatten_times(s1) + flatten_times(s2) =~= flatten_times(s1));
    } else {
        assert((s1 + s2).drop_last() =~= s1 + s2.drop_last());
        assert((s1 + s2).last() == s2.last());
        lemma_flatten_times_concat(s1, s2.drop_last());
        assert(flatten_times(s1 + s2) =~= flatten_times(s1) + flatten_times(s2));
    }
}

proof fn lemma_drop_zero_concat(s1: Seq<Exp>, s2: Seq<Exp>)
    ensures
        drop_zero_consts(s1 + s2) == drop_zero_consts(s1) + drop_zero_consts(s2),
    decreases s2,
{
    if s2.len() == 0 {
        assert(s1 + s2 =~= s1);
        assert(drop_zero_consts(s1) + drop_zero_consts(s2) =~= drop_zero_consts(s1));
    } else {
        assert((s1 + s2).drop_last() =~= s1 + s2.drop_last());
        assert((s1 + s2).last() == s2.last());
        lemma_drop_zero_concat(s1, s2.drop_last());
        assert(drop_zero_consts(s1 + s2) =~= drop_zero_consts(s1) + drop_zero_consts(s2));
    }
}

proof fn lemma_drop_one_concat(s1: Seq<Exp>, s2: Seq<Exp>)
    ensures
        drop_one_consts(s1 + s2) == drop_one_consts(s1) + drop_one_consts(s2),
    decreases s2,
{
    if s2.len() == 0 {
        assert(s1 + s2 =~= s1);
        assert(drop_one_consts(s1) + drop_one_consts(s2) =~= drop_one_consts(s1));
    } else {
        assert((s1 + s2).drop_last() =~= s1 + s2.drop_last());
        assert((s1 + s2).last() == s2.last());
        lemma_drop_one_concat(s1, s2.drop_last());
        assert(drop_one_consts(s1 + s2) =~= drop_one_consts(s1) + drop_one_consts(s2));
    }
}

proof fn lemma_has_zero_concat(s1: Seq<Exp>, s2: Seq<Exp>)
    ensures
        has_zero_const(s1 + s2) == (has_zero_const(s1) || has_zero_const(s2)),
    decreases s2,
{
    if s2.len() == 0 {
        assert(s1 + s2 =~= s1);
    } else {
        assert((s1 + s2).drop_last() =~= s1 + s2.drop_last());
        assert((s1 + s2).last() == s2.last());
        lemma_has_zero_concat(s1, s2.drop_last());
    }
}

/// The pointwise simplification of a vector of expressions.
#[verifier::loop_isolation(false)]
fn simplify_vec(ts: &Vec<Expression>) -> (r: Vec<Expression>)
    ensures
        view_seq(r@) == simplify_seq(view_seq(ts@)),
        r@.len() == ts@.len(),
    decreases *ts,
{
    let mut r: Vec<Expression> = Vec::new();
    let mut i: usize = 0;
    proof {
        lemma_view_seq(ts@);
        lemma_simplify_seq(view_seq(ts@));
    }
    while i < ts.len()
        invariant
            0 <= i <= ts.len(),
            r@.len() == i,
            view_seq(r@) == simplify_seq(view_seq(ts@)).take(i as int),
        decreases ts.len() - i,
    {
        proof {
            vstd::seq::axiom_seq_index_decreases(ts@, i as int);
            vstd::std_specs::vec::axiom_vec_decreases_to_view(*ts);
            assert(decreases_to!(*ts => ts@[i as int]));
        }
        let e = ts[i].basic_simplify();
        let ghost pre = r@;
        r.push(e);
        proof {
            assert(r@.drop_last() =~= pre);
            lemma_view_seq(r@);
            assert(view_seq(r@) =~= simplify_seq(view_seq(ts@)).take(i as int + 1));
        }
        i += 1;
    }
    proof {
        assert(simplify_seq(view_seq(ts@)).take(i as int) =~= simplify_seq(view_seq(ts@)));
    }
    r
}

/// Flattens the simplified operands of a sum one level and drops the zero
/// constants among them.
#[verifier::loop_isolation(false)]
#[verifier::rlimit(50)]
fn flatten_plus_terms(ss: Vec<Expression>) -> (r: Vec<Expression>)
    ensures
        view_seq(r@) == drop_zero_consts(flatten_plus(view_seq(ss@))),
{
    let ghost gss = view_seq(ss@);
    let mut kept: Vec<Expression> = Vec::new();
    let mut i: usize = 0;
    proof {
        lemma_view_seq(ss@);
        assert(gss.take(0) =~= Seq::<Exp>::empty());
    }
    while i < ss.len()
        invariant
            0 <= i <= ss.len(),
            view_seq(kept@) == drop_zero_consts(flatten_plus(gss.take(i as int))),
        decreases ss.len() - i,
    {
        let ghost gpre_take = gss.take(i as int);
        proof {
            assert(gss.take(i as int + 1).drop_last() =~= gss.take(i as int));
            assert(gss.take(i as int + 1).last() == gss[i as int]);
        }
        let inner_opt: Option<&Vec<Expression>> = match &ss[i] {
            Expression::Plus(inner) => Some(inner),
            _ => None,
        };
        if let Some(inner) = inner_opt {
            let ghost ginner = view_seq(inner@);
            proof {
                lemma_view_seq(inner@);
                assert(flatten_plus(gss.take(i as int + 1)) =~= flatten_plus(gpre_take) + ginner);
                lemma_drop_zero_concat(flatten_plus(gpre_take), ginner);
            }
            let mut j: usize = 0;
            while j < inner.len()
                invariant
                    0 <= j <= inner.len(),
                    view_seq(kept@) == drop_zero_consts(flatten_plus(gpre_take)) + drop_zero_consts(
                        ginner.take(j as int),
                    ),
                decreases inner.len() - j,
            {
                proof {
                    assert(ginner.take(j as int + 1).drop_last() =~= ginner.take(j as int));
                    assert(ginner.take(j as int + 1).last() == ginner[j as int]);
                }
                let e = &inner[j];
                let keep_it = match e {
                    Expression::Constant(c) => !crate::ieee::zero_bits(*c),
                    _ => true,
                };
                if keep_it {
                    let ghost pre = kept@;
                    kept.push(e.clone_dyn());
                    proof {
                        assert(kept@.drop_last() =~= pre);
                        lemma_view_seq(kept@);
                    }
                }
                proof {
                    assert(view_seq(kept@) =~= drop_zero_consts(flatten_plus(gpre_take))
                        + drop_zero_consts(ginner.take(j as int + 1)));
                }
                j += 1;
            }
            proof {
                assert(ginner.take(inner@.len() as int) =~= ginner);
            }
        } else {
            proof {
                let ghost single = seq![gss[i as int]];
                assert(single.drop_last() =~= Seq::<Exp>::empty());
                assert(drop_zero_consts(Seq::<Exp>::empty()) =~= Seq::<Exp>::empty());
                assert(flatten_plus(gss.take(i as int + 1)) =~= flatten_plus(gpre_take) + single);
                lemma_drop_zero_concat(flatten_plus(gpre_take), single);
                assert(drop_zero_consts(single) =~= if is_zero_const(gss[i as int]) {
                    Seq::<Exp>::empty()
                } else {
                    single
                });
            }
            let e = &ss[i];
            let keep_it = match e {
                Expression::Constant(c) => !crate::ieee::zero_bits(*c),
                _ => true,
            };
            if keep_it {
                let ghost pre = kept@;
                kept.push(e.clone_dyn());
                proof {
                    assert(kept@.drop_last() =~= pre);
                    lemma_view_seq(kept@);
                }
            }
            proof {
                assert(view_seq(kept@) =~= drop_zero_consts(
                    flatten_plus(gss.take(i as int + 1)),
                ));
            }
        }
        i += 1;
    }
    proof {
        assert(gss.take(ss@.len() as int) =~= gss);
        lemma_view_seq(kept@);
    }
    kept
}

/// Flattens the simplified operands of a product one level, drops the one
/// constants among them, and reports whether any operand was a zero
/// constant.
#[verifier::loop_isolation(false)]
#[verifier::rlimit(50)]
fn flatten_times_factors(ss: Vec<Expression>) -> (r: (Vec<Expression>, bool))
    ensures
        view_seq(r.0@) == drop_one_consts(flatten_times(view_seq(ss@))),
        r.1 == has_zero_const(flatten_times(view_seq(ss@))),
{
    let ghost gss = view_seq(ss@);
    let mut kept: Vec<Expression> = Vec::new();
    let mut saw_zero = false;
    let mut i: usize = 0;
    proof {
        lemma_view_seq(ss@);
        assert(gss.take(0) =~= Seq::<Exp>::empty());
    }
    while i < ss.len()
        invariant
            0 <= i <= ss.len(),
            view_seq(kept@) == drop_one_consts(flatten_times(gss.take(i as int))),
            saw_zero == has_zero_const(flatten_times(gss.take(i as int))),
        decreases ss.len() - i,
    {
        let ghost gpre_take = gss.take(i as int);
        proof {
            assert(gss.take(i as int + 1).drop_last() =~= gss.take(i as int));
            assert(gss.take(i as int + 1).last() == gss[i as int]);
        }
        let inner_opt: Option<&Vec<Expression>> = match &ss[i] {
            Expression::Times(inner) => Some(inner),
            _ => None,
        };
        if let Some(inner) = inner_opt {
            let ghost ginner = view_seq(inner@);
            proof {
                lemma_view_seq(inner@);
                assert(flatten_times(gss.take(i as int + 1)) =~= flatten_times(gpre_take) + ginner);
                lemma_drop_one_concat(flatten_times(gpre_take), ginner);
                lemma_has_zero_concat(flatten_times(gpre_take), ginner);
            }
            let mut j: usize = 0;
            while j < inner.len()
                invariant
                    0 <= j <= inner.len(),
                    view_seq(kept@) == drop_one_consts(flatten_times(gpre_take)) + drop_one_consts(
                        ginner.take(j as int),
                    ),
                    saw_zero == (has_zero_const(flatten_times(gpre_take)) || has_zero_const(
                        ginner.take(j as int),
                    )),
                decreases inner.len() - j,
            {
                proof {
                    assert(ginner.take(j as int + 1).drop_last() =~= ginner.take(j as int));
                    assert(ginner.take(j as int + 1).last() == ginner[j as int]);
                }
                let e = &inner[j];
                let keep_it = match e {
                    Expression::Constant(c) => {
                        if crate::ieee::zero_bits(*c) {
                            saw_zero = true;
                        }
                        *c != ONE_BITS
                    },
                    _ => true,
                };
                if keep_it {
                    let ghost pre = kept@;
                    kept.push(e.clone_dyn());
                    proof {
                        assert(kept@.drop_last() =~= pre);
                        lemma_view_seq(kept@);
                    }
                }
                proof {
                    assert(view_seq(kept@) =~= drop_one_consts(flatten_times(gpre_take))
                        + drop_one_consts(ginner.take(j as int + 1)));
                }
                j += 1;
            }
            proof {
                assert(ginner.take(inner@.len() as int) =~= ginner);
            }
        } else {
            proof {
                let ghost single = seq![gss[i as int]];
                assert(single.drop_last() =~= Seq::<Exp>::empty());
                assert(drop_one_consts(Seq::<Exp>::empty()) =~= Seq::<Exp>::empty());
                assert(flatten_times(gss.take(i as int + 1)) =~= flatten_times(gpre_take) + single);
                lemma_drop_one_concat(flatten_times(gpre_take), single);
                lemma_has_zero_concat(flatten_times(gpre_take), single);
                assert(!has_zero_const(Seq::<Exp>::empty()));
                assert(has_zero_const(single) == is_zero_const(gss[i as int]));
                assert(drop_one_consts(single) =~= if is_one_const(gss[i as int]) {
                    Seq::<Exp>::empty()
                } else {
                    single
                });
            }
            let e = &ss[i];
            let keep_it = match e {
                Expression::Constant(c) => {
                    if crate::ieee::zero_bits(*c) {
                        saw_zero = true;
                    }
                    *c != ONE_BITS
                },
                _ => true,
            };
            if keep_it {
                let ghost pre = kept@;
                kept.push(e.clone_dyn());
                proof {
                    assert(kept@.drop_last() =~= pre);
                    lemma_view_seq(kept@);
                }
            }
            proof {
                assert(view_seq(kept@) =~= drop_one_consts(
                    flatten_times(gss.take(i as int + 1)),
                ));
            }
        }
        i += 1;
    }
    proof {
        assert(gss.take(ss@.len() as int) =~= gss);
        lemma_view_seq(kept@);
    }
    (kept, saw_zero)
}

impl Expression {
    /// Structural bottom-up simplification (see `spec_simplify`): sums and
    /// products are flattened one level and lose their identity constants, a
    /// lone operand replaces its list, negation and absolute value fold on
    /// constants, and a power with constant exponent zero, one or minus one
    /// reduces.  The result models `spec_simplify` of the input exactly.
    #[verifier::loop_isolation(false)]
    pub fn basic_simplify(&self) -> (r: Expression)
        ensures
            r@ == spec_simplify(self@),
        decreases *self,
    {
        proof {
            reveal_with_fuel(view_expr, 5);
            reveal_with_fuel(view_seq, 3);
            reveal_with_fuel(spec_simplify, 2);
        }
        match self {
            Expression::Constant(b) => Expression::Constant(*b),
            Expression::Variable(n) => Expression::Variable(n.clone()),
            Expression::Plus(ts) => {
                let ss = simplify_vec(ts);
                let mut kept = flatten_plus_terms(ss);
                proof {
                    lemma_view_seq(kept@);
                }
                if kept.len() == 0 {
                    Expression::Constant(ZERO_BITS)
                } else if kept.len() == 1 {
                    let e = kept.pop().unwrap();
                    proof {
                        assert(view_seq(kept@.push(e)) == view_seq(kept@).push(e@));
                        assert(e@ == simplify_plus(simplify_seq(view_seq(ts@))));
                    }
                    e
                } else {
                    Expression::Plus(kept)
                }
            },
            Expression::Times(ts) => {
                let ss = simplify_vec(ts);
                let (mut kept, saw_zero) = flatten_times_factors(ss);
                proof {
                    lemma_view_seq(kept@);
                }
                if saw_zero {
                    Expression::Constant(ZERO_BITS)
                } else if kept.len() == 0 {
                    Expression::Constant(ONE_BITS)
                } else if kept.len() == 1 {
                    let e = kept.pop().unwrap();
                    proof {
                        assert(view_seq(kept@.push(e)) == view_seq(kept@).push(e@));
                        assert(e@ == simplify_times(simplify_seq(view_seq(ts@))));
                    }
                    e
                } else {
                    Expression::Times(kept)
                }
            },
            Expression::Minus(v) => {
                let sv = v.basic_simplify();
                match sv {
                    Expression::Constant(c) => Expression::Constant(c ^ SIGN_MASK),
                    _ => Expression::Minus(Box::new(sv)),
                }
            },
            Expression::Inverse(v) => Expression::Inverse(Box::new(v.basic_simplify())),
            Expression::Power(b, x) => {
                let sb = b.basic_simplify();
                let sx = x.basic_simplify();
                match sx {
                    Expression::Constant(c) => {
                        if crate::ieee::zero_bits(c) {
                            Expression::Constant(ONE_BITS)
                        } else if c == ONE_BITS {
                            sb
                        } else if c == NEG_ONE_BITS {
                            Expression::Inverse(Box::new(sb))
                        } else {
                            Expression::Power(
                                Box::new(sb),
                                Box::new(Expression::Constant(c)),
                            )
                        }
                    },
                    _ => Expression::Power(Box::new(sb), Box::new(sx)),
                }
            },
            Expression::Log(b, v) => Expression::Log(*b, Box::new(v.basic_simplify())),
            Expression::Sin(v) => Expression::Sin(Box::new(v.basic_simplify())),
            Expression::Cos(v) => Expression::Cos(Box::new(v.basic_simplify())),
            Expression::Tan(v) => Expression::Tan(Box::new(v.basic_simplify())),
            Expression::Abs(v) => {
                let sv = v.basic_simplify();
                match sv {
                    Expression::Constant(c) => Expression::Constant(c & 0x7FFF_FFFF_FFFF_FFFF),
                    _ => Expression::Abs(Box::new(sv)),
                }
            },
        }
    }
}

/// The expression may stand in a simplified sum: simplified itself, not a
/// sum, and not a zero constant.
pub open spec fn nf_plus_elem(e: Exp) -> bool
    decreases e, 1int,
{
    spec_normal(e) && !(e is Plus) && !is_zero_const(e)
}

/// The expression may stand in a simplified product: simplified itself, not
/// a product, and neither the zero nor the one constant.
pub open spec fn nf_times_elem(e: Exp) -> bool
    decreases e, 1int,
{
    spec_normal(e) && !(e is Times) && !is_zero_const(e) && !is_one_const(e)
}

/// Every element of the sequence may stand in a simplified sum.
pub open spec fn nf_plus_seq(ts: Seq<Exp>) -> bool
    decreases ts, 2int,
{
    if ts.len() == 0 {
        true
    } else {
        nf_plus_elem(ts.last()) && nf_plus_seq(ts.drop_last())
    }
}

/// Every element of the sequence may stand in a simplified product.
pub open spec fn nf_times_seq(ts: Seq<Exp>) -> bool
    decreases ts, 2int,
{
    if ts.len() == 0 {
        true
    } else {
        nf_times_elem(ts.last()) && nf_times_seq(ts.drop_last())
    }
}

/// The expression is in simplified normal form: exactly the shapes
/// `spec_simplify` emits.
pub open spec fn spec_normal(e: Exp) -> bool
    decreases e, 0int,
{
    match e {
        Exp::Const(_) => true,
        Exp::Var(_) => true,
        Exp::Plus(ts) => ts.len() >= 2 && nf_plus_seq(ts),
        Exp::Minus(v) => spec_normal(*v) && !(*v is Const),
        Exp::Times(ts) => ts.len() >= 2 && nf_times_seq(ts),
        Exp::Inverse(v) => spec_normal(*v),
        Exp::Power(b, x) => spec_normal(*b) && spec_normal(*x) && (*x is Const
            ==> !is_zero_bits((*x)->Const_0) && (*x)->Const_0 != ONE_BITS && (*x)->Const_0
            != NEG_ONE_BITS),
        Exp::Log(_, v) => spec_normal(*v),
        Exp::Sin(v) => spec_normal(*v),
        Exp::Cos(v) => spec_normal(*v),
        Exp::Tan(v) => spec_normal(*v),
        Exp::Abs(v) => spec_normal(*v) && !(*v is Const),
    }
}

proof fn lemma_nf_plus_seq_index(ts: Seq<Exp>)
    ensures
        nf_plus_seq(ts) <==> forall|i: int| 0 <= i < ts.len() ==> nf_plus_elem(#[trigger] ts[i]),
    decreases ts,
{
    if ts.len() > 0 {
        lemma_nf_plus_seq_index(ts.drop_last());
        assert(forall|i: int| 0 <= i < ts.len() - 1 ==> #[trigger] ts.drop_last()[i] == ts[i]);
        if nf_plus_seq(ts) {
            assert forall|i: int| 0 <= i < ts.len() implies nf_plus_elem(#[trigger] ts[i]) by {
                if i < ts.len() - 1 {
                    assert(nf_plus_elem(ts.drop_last()[i]));
                } else {
                    assert(ts[i] == ts.last());
                }
            }
        } else {
            if nf_plus_elem(ts.last()) {
                let i = choose|i: int|
                    0 <= i < ts.drop_last().len() && !nf_plus_elem(#[trigger] ts.drop_last()[i]);
                assert(!nf_plus_elem(ts[i]));
            } else {
                assert(!nf_plus_elem(ts[ts.len() - 1]));
            }
        }
    }
}

proof fn lemma_nf_times_seq_index(ts: Seq<Exp>)
    ensures
        nf_times_seq(ts) <==> forall|i: int| 0 <= i < ts.len() ==> nf_times_elem(#[trigger] ts[i]),
    decreases ts,
{
    if ts.len() > 0 {
        lemma_nf_times_seq_index(ts.drop_last());
        assert(forall|i: int| 0 <= i < ts.len() - 1 ==> #[trigger] ts.drop_last()[i] == ts[i]);
        if nf_times_seq(ts) {
            assert forall|i: int| 0 <= i < ts.len() implies nf_times_elem(#[trigger] ts[i]) by {
                if i < ts.len() - 1 {
                    assert(nf_times_elem(ts.drop_last()[i]));
                } else {
                    assert(ts[i] == ts.last());
                }
            }
        } else {
            if nf_times_elem(ts.last()) {
                let i = choose|i: int|
                    0 <= i < ts.drop_last().len() && !nf_times_elem(#[trigger] ts.drop_last()[i]);
                assert(!nf_times_elem(ts[i]));
            } else {
                assert(!nf_times_elem(ts[ts.len() - 1]));
            }
        }
    }
}

proof fn lemma_has_zero_index(ts: Seq<Exp>)
    ensures
        has_zero_const(ts) <==> exists|i: int| 0 <= i < ts.len() && is_zero_const(#[trigger] ts[i]),
    decreases ts,
{
    if ts.len() > 0 {
        lemma_has_zero_index(ts.drop_last());
        assert(forall|i: int| 0 <= i < ts.len() - 1 ==> #[trigger] ts.drop_last()[i] == ts[i]);
        if has_zero_const(ts) {
            if is_zero_const(ts.last()) {
                assert(is_zero_const(ts[ts.len() - 1]));
            } else {
                let i = choose|i: int|
                    0 <= i < ts.drop_last().len() && is_zero_const(#[trigger] ts.drop_last()[i]);
                assert(is_zero_const(ts[i]));
            }
        } else {
            if exists|i: int| 0 <= i < ts.len() && is_zero_const(#[trigger] ts[i]) {
                let i = choose|i: int| 0 <= i < ts.len() && is_zero_const(#[trigger] ts[i]);
                if i < ts.len() - 1 {
                    assert(is_zero_const(ts.drop_last()[i]));
                } else {
                    assert(is_zero_const(ts.last()));
                }
                assert(false);
            }
        }
    }
}

proof fn lemma_flatten_plus_elems(ss: Seq<Exp>)
    requires
        forall|i: int| 0 <= i < ss.len() ==> spec_normal(#[trigger] ss[i]),
    ensures
        forall|k: int|
            0 <= k < flatten_plus(ss).len() ==> spec_normal(#[trigger] flatten_plus(ss)[k]) && !(
            flatten_plus(ss)[k] is Plus),
    decreases ss,
{
    if ss.len() > 0 {
        assert(forall|i: int| 0 <= i < ss.len() - 1 ==> #[trigger] ss.drop_last()[i] == ss[i]);
        lemma_flatten_plus_elems(ss.drop_last());
        let fp = flatten_plus(ss);
        let pre = flatten_plus(ss.drop_last());
        assert(ss.last() == ss[ss.len() - 1]);
        match ss.last() {
            Exp::Plus(inner) => {
                assert(spec_normal(Exp::Plus(inner)));
                lemma_nf_plus_seq_index(inner);
                assert(fp == pre + inner);
                assert forall|k: int| 0 <= k < fp.len() implies spec_normal(#[trigger] fp[k]) && !(
                fp[k] is Plus) by {
                    if k < pre.len() {
                        assert(fp[k] == pre[k]);
                    } else {
                        assert(fp[k] == inner[k - pre.len()]);
                    }
                }
            },
            e => {
                assert(fp == pre + seq![e]);
                assert forall|k: int| 0 <= k < fp.len() implies spec_normal(#[trigger] fp[k]) && !(
                fp[k] is Plus) by {
                    if k < pre.len() {
                        assert(fp[k] == pre[k]);
                    } else {
                        assert(fp[k] == e);
                    }
                }
            },
        }
    }
}

proof fn lemma_flatten_times_elems(ss: Seq<Exp>)
    requires
        forall|i: int| 0 <= i < ss.len() ==> spec_normal(#[trigger] ss[i]),
    ensures
        forall|k: int|
            0 <= k < flatten_times(ss).len() ==> spec_normal(#[trigger] flatten_times(ss)[k]) && !(
            flatten_times(ss)[k] is Times),
    decreases ss,
{
    if ss.len() > 0 {
        assert(forall|i: int| 0 <= i < ss.len() - 1 ==> #[trigger] ss.drop_last()[i] == ss[i]);
        lemma_flatten_times_elems(ss.drop_last());
        let fp = flatten_times(ss);
        let pre = flatten_times(ss.drop_last());
        assert(ss.last() == ss[ss.len() - 1]);
        match ss.last() {
            Exp::Times(inner) => {
                assert(spec_normal(Exp::Times(inner)));
                lemma_nf_times_seq_index(inner);
                assert(fp == pre + inner);
                assert forall|k: int| 0 <= k < fp.len() implies spec_normal(#[trigger] fp[k]) && !(
                fp[k] is Times) by {
                    if k < pre.len() {
                        assert(fp[k] == pre[k]);
                    } else {
                        assert(fp[k] == inner[k - pre.len()]);
                    }
                }
            },
            e => {
                assert(fp == pre + seq![e]);
                assert forall|k: int| 0 <= k < fp.len() implies spec_normal(#[trigger] fp[k]) && !(
                fp[k] is Times) by {
                    if k < pre.len() {
                        assert(fp[k] == pre[k]);
                    } else {
                        assert(fp[k] == e);
                    }
                }
            },
        }
    }
}

proof fn lemma_drop_zero_elems(ss: Seq<Exp>)
    ensures
        forall|k: int|
            0 <= k < drop_zero_consts(ss).len() ==> !is_zero_const(
                #[trigger] drop_zero_consts(ss)[k],
            ) && (exists|i: int| 0 <= i < ss.len() && #[trigger] ss[i] == drop_zero_consts(ss)[k]),
    decreases ss,
{
    if ss.len() > 0 {
        lemma_drop_zero_elems(ss.drop_last());
        let d = drop_zero_consts(ss);
        let pre = drop_zero_consts(ss.drop_last());
        assert(forall|i: int| 0 <= i < ss.len() - 1 ==> #[trigger] ss.drop_last()[i] == ss[i]);
        assert forall|k: int| 0 <= k < d.len() implies !is_zero_const(#[trigger] d[k]) && (exists|
            i: int,
        | 0 <= i < ss.len() && #[trigger] ss[i] == d[k]) by {
            if k < pre.len() {
                assert(d[k] == pre[k]);
                let i = choose|i: int|
                    0 <= i < ss.drop_last().len() && #[trigger] ss.drop_last()[i] == pre[k];
                assert(ss[i] == d[k]);
            } else {
                assert(!is_zero_const(ss.last()));
                assert(d[k] == ss.last());
                assert(ss[ss.len() - 1] == d[k]);
            }
        }
    }
}

proof fn lemma_drop_one_elems(ss: Seq<Exp>)
    ensures
        forall|k: int|
            0 <= k < drop_one_consts(ss).len() ==> !is_one_const(
                #[trigger] drop_one_consts(ss)[k],
            ) && (exists|i: int| 0 <= i < ss.len() && #[trigger] ss[i] == drop_one_consts(ss)[k]),
    decreases ss,
{
    if ss.len() > 0 {
        lemma_drop_one_elems(ss.drop_last());
        let d = drop_one_consts(ss);
        let pre = drop_one_consts(ss.drop_last());
        assert(forall|i: int| 0 <= i < ss.len() - 1 ==> #[trigger] ss.drop_last()[i] == ss[i]);
        assert forall|k: int| 0 <= k < d.len() implies !is_one_const(#[trigger] d[k]) && (exists|
            i: int,
        | 0 <= i < ss.len() && #[trigger] ss[i] == d[k]) by {
            if k < pre.len() {
                assert(d[k] == pre[k]);
                let i = choose|i: int|
                    0 <= i < ss.drop_last().len() && #[trigger] ss.drop_last()[i] == pre[k];
                assert(ss[i] == d[k]);
            } else {
                assert(!is_one_const(ss.last()));
                assert(d[k] == ss.last());
                assert(ss[ss.len() - 1] == d[k]);
            }
        }
    }
}

/// The result of simplification is in normal form.
pub proof fn lemma_simplify_normal(e: Exp)
    ensures
        spec_normal(spec_simplify(e)),
    decreases e,
{
    match e {
        Exp::Const(_) => {},
        Exp::Var(_) => {},
        Exp::Plus(ts) => {
            lemma_simplify_seq(ts);
            let ss = simplify_seq(ts);
            assert forall|i: int| 0 <= i < ss.len() implies spec_normal(#[trigger] ss[i]) by {
                vstd::seq::axiom_seq_index_decreases(ts, i);
                lemma_simplify_normal(ts[i]);
            }
            lemma_flatten_plus_elems(ss);
            let flat = flatten_plus(ss);
            lemma_drop_zero_elems(flat);
            let kept = drop_zero_consts(flat);
            assert forall|k: int| 0 <= k < kept.len() implies nf_plus_elem(#[trigger] kept[k]) by {
                let i = choose|i: int| 0 <= i < flat.len() && #[trigger] flat[i] == kept[k];
            }
            lemma_nf_plus_seq_index(kept);
            if kept.len() == 0 {
            } else if kept.len() == 1 {
                assert(spec_normal(kept[0]));
            } else {
                assert(spec_normal(Exp::Plus(kept)));
            }
        },
        Exp::Times(ts) => {
            lemma_simplify_seq(ts);
            let ss = simplify_seq(ts);
            assert forall|i: int| 0 <= i < ss.len() implies spec_normal(#[trigger] ss[i]) by {
                vstd::seq::axiom_seq_index_decreases(ts, i);
                lemma_simplify_normal(ts[i]);
            }
            lemma_flatten_times_elems(ss);
            let flat = flatten_times(ss);
            if has_zero_const(flat) {
            } else {
                lemma_has_zero_index(flat);
                lemma_drop_one_elems(flat);
                let kept = drop_one_consts(flat);
                assert forall|k: int| 0 <= k < kept.len() implies nf_times_elem(
                    #[trigger] kept[k],
                ) by {
                    let i = choose|i: int| 0 <= i < flat.len() && #[trigger] flat[i] == kept[k];
                }
                lemma_nf_times_seq_index(kept);
                if kept.len() == 0 {
                } else if kept.len() == 1 {
                    assert(spec_normal(kept[0]));
                } else {
                    assert(spec_normal(Exp::Times(kept)));
                }
            }
        },
        Exp::Minus(v) => {
            lemma_simplify_normal(*v);
        },
        Exp::Inverse(v) => {
            lemma_simplify_normal(*v);
        },
        Exp::Power(b, x) => {
            lemma_simplify_normal(*b);
            lemma_simplify_normal(*x);
        },
        Exp::Log(_, v) => {
            lemma_simplify_normal(*v);
        },
        Exp::Sin(v) => {
            lemma_simplify_normal(*v);
        },
        Exp::Cos(v) => {
            lemma_simplify_normal(*v);
        },
        Exp::Tan(v) => {
            lemma_simplify_normal(*v);
        },
        Exp::Abs(v) => {
            lemma_simplify_normal(*v);
        },
    }
}

proof fn lemma_flatten_plus_id(ts: Seq<Exp>)
    requires
        forall|i: int| 0 <= i < ts.len() ==> !((#[trigger] ts[i]) is Plus),
    ensures
        flatten_plus(ts) == ts,
    decreases ts,
{
    if ts.len() > 0 {
        assert(forall|i: int| 0 <= i < ts.len() - 1 ==> #[trigger] ts.drop_last()[i] == ts[i]);
        lemma_flatten_plus_id(ts.drop_last());
        assert(ts.last() == ts[ts.len() - 1]);
        assert(flatten_plus(ts) =~= ts);
    }
}

proof fn lemma_flatten_times_id(ts: Seq<Exp>)
    requires
        forall|i: int| 0 <= i < ts.len() ==> !((#[trigger] ts[i]) is Times),
    ensures
        flatten_times(ts) == ts,
    decreases ts,
{
    if ts.len() > 0 {
        assert(forall|i: int| 0 <= i < ts.len() - 1 ==> #[trigger] ts.drop_last()[i] == ts[i]);
        lemma_flatten_times_id(ts.drop_last());
        assert(ts.last() == ts[ts.len() - 1]);
        assert(flatten_times(ts) =~= ts);
    }
}

proof fn lemma_drop_zero_id(ts: Seq<Exp>)
    requires
        forall|i: int| 0 <= i < ts.len() ==> !is_zero_const(#[trigger] ts[i]),
    ensures
        drop_zero_consts(ts) == ts,
    decreases ts,
{
    if ts.len() > 0 {
        assert(forall|i: int| 0 <= i < ts.len() - 1 ==> #[trigger] ts.drop_last()[i] == ts[i]);
        lemma_drop_zero_id(ts.drop_last());
        assert(ts.last() == ts[ts.len() - 1]);
        assert(drop_zero_consts(ts) =~= ts);
    }
}

proof fn lemma_drop_one_id(ts: Seq<Exp>)
    requires
        forall|i: int| 0 <= i < ts.len() ==> !is_one_const(#[trigger] ts[i]),
    ensures
        drop_one_consts(ts) == ts,
    decreases ts,
{
    if ts.len() > 0 {
        assert(forall|i: int| 0 <= i < ts.len() - 1 ==> #[trigger] ts.drop_last()[i] == ts[i]);
        lemma_drop_one_id(ts.drop_last());
        assert(ts.last() == ts[ts.len() - 1]);
        assert(drop_one_consts(ts) =~= ts);
    }
}

/// Simplification does not change an expression already in normal form.
pub proof fn lemma_simplify_fixed(e: Exp)
    requires
        spec_normal(e),
    ensures
        spec_simplify(e) == e,
    decreases e,
{
    match e {
        Exp::Const(_) => {},
        Exp::Var(_) => {},
        Exp::Plus(ts) => {
            lemma_nf_plus_seq_index(ts);
            lemma_simplify_seq(ts);
            assert forall|i: int| 0 <= i < ts.len() implies simplify_seq(ts)[i] == #[trigger] ts[i] by {
                vstd::seq::axiom_seq_index_decreases(ts, i);
                lemma_simplify_fixed(ts[i]);
            }
            assert(simplify_seq(ts) =~= ts);
            lemma_flatten_plus_id(ts);
            lemma_drop_zero_id(ts);
        },
        Exp::Times(ts) => {
            lemma_nf_times_seq_index(ts);
            lemma_simplify_seq(ts);
            assert forall|i: int| 0 <= i < ts.len() implies simplify_seq(ts)[i] == #[trigger] ts[i] by {
                vstd::seq::axiom_seq_index_decreases(ts, i);
                lemma_simplify_fixed(ts[i]);
            }
            assert(simplify_seq(ts) =~= ts);
            lemma_flatten_times_id(ts);
            lemma_has_zero_index(ts);
            lemma_drop_one_id(ts);
        },
        Exp::Minus(v) => {
            lemma_simplify_fixed(*v);
        },
        Exp::Inverse(v) => {
            lemma_simplify_fixed(*v);
        },
        Exp::Power(b, x) => {
            lemma_simplify_fixed(*b);
            lemma_simplify_fixed(*x);
        },
        Exp::Log(_, v) => {
            lemma_simplify_fixed(*v);
        },
        Exp::Sin(v) => {
            lemma_simplify_fixed(*v);
        },
        Exp::Cos(v) => {
            lemma_simplify_fixed(*v);
        },
        Exp::Tan(v) => {
            lemma_simplify_fixed(*v);
        },
        Exp::Abs(v) => {
            lemma_simplify_fixed(*v);
        },
    }
}

/// Simplification is idempotent: simplifying twice yields the very tree
/// that one simplification yields.
pub proof fn law_simplify_idempotent(e: Exp)
    ensures
        spec_simplify(spec_simplify(e)) == spec_simplify(e),
{
    lemma_simplify_normal(e);
    lemma_simplify_fixed(spec_simplify(e));
}

} // verus!

