//! The driver: from an equation to contour polylines.
//!
//! `plan_graph_2d` decides how an equation is graphed: an explicit equation
//! `v = R` (or `R = v`), where `v` is one of the two plot variables and `R`
//! does not mention it, is sampled directly along the independent axis; any
//! other equation goes through the quadtree on the signed function
//! `left - right`, whose two simplified partial derivatives are prepared
//! here.  An equation whose free variables are not covered by the plot
//! variables and the caller's bindings is rejected.
//!
//! `get_contours_2d` turns a built quadtree into polylines, and
//! `contours_to_float_array` encodes polylines as the flat coordinate
//! stream of the host interface, each contour terminated by a pair of
//! positive infinities.

use crate::expr::{
    spec_count_var, spec_derivative, spec_simplify, str_eq, view_expr, view_seq, Exp, Expression,
    lemma_view_seq,
};
use crate::ieee::INF_BITS;
use crate::point::{Contour2D, Point2D};
use crate::quadtree::{spec_segments, QuadTreeNode, get_segments};
use crate::sets::Equation;
use crate::stitch::{
    all_polylines, contours_edges, segments_edges, segments_to_contours, spec_stitch, views_of,
};
use vstd::prelude::*;
use vstd::string::StringExecFns;

verus! {

broadcast use vstd::std_specs::vec::group_vec_axioms, vstd::seq::group_seq_axioms;

/// The variable names of a sequence of expressions, in occurrence order.
pub open spec fn vars_of_seq(ts: Seq<Exp>) -> Seq<Seq<char>>
    decreases ts,
{
    if ts.len() == 0 {
        Seq::empty()
    } else {
        vars_of_seq(ts.drop_last()) + spec_variables(ts.last())
    }
}

/// The variable names of the expression, in occurrence order, with
/// repetitions.
pub open spec fn spec_variables(e: Exp) -> Seq<Seq<char>>
    decreases e,
{
    match e {
        Exp::Const(_) => Seq::empty(),
        Exp::Var(n) => seq![n],
        Exp::Plus(ts) => vars_of_seq(ts),
        Exp::Minus(v) => spec_variables(*v),
        Exp::Times(ts) => vars_of_seq(ts),
        Exp::Inverse(v) => spec_variables(*v),
        Exp::Power(b, x) => spec_variables(*b) + spec_variables(*x),
        Exp::Log(_, v) => spec_variables(*v),
        Exp::Sin(v) => spec_variables(*v),
        Exp::Cos(v) => spec_variables(*v),
        Exp::Tan(v) => spec_variables(*v),
        Exp::Abs(v) => spec_variables(*v),
    }
}

/// The names of a vector of strings.
pub open spec fn names_of(v: Seq<String>) -> Seq<Seq<char>> {
    v.map_values(|s: String| s@)
}

impl Expression {
    /// Appends the expression's variable names, in occurrence order, to the
    /// accumulator.
    #[verifier::loop_isolation(false)]
    fn collect_variables(&self, acc: &mut Vec<String>)
        ensures
            names_of(final(acc)@) == names_of(old(acc)@) + spec_variables(self@),
        decreases *self,
    {
        proof {
            reveal_with_fuel(view_expr, 3);
            reveal_with_fuel(spec_variables, 2);
        }
        match self {
            Expression::Constant(_) => {
                proof {
                    assert(names_of(acc@) =~= names_of(acc@) + spec_variables(self@));
                }
            },
            Expression::Variable(n) => {
                acc.push(n.clone());
                proof {
                    assert(names_of(acc@) =~= names_of(old(acc)@) + spec_variables(self@));
                }
            },
            Expression::Plus(ts) | Expression::Times(ts) => {
                proof {
                    lemma_view_seq(ts@);
                    assert(names_of(acc@) =~= names_of(acc@) + vars_of_seq(
                        view_seq(ts@).take(0),
                    )) by {
                        assert(view_seq(ts@).take(0) =~= Seq::<Exp>::empty());
                    }
                }
                let mut i: usize = 0;
                while i < ts.len()
                    invariant
                        0 <= i <= ts.len(),
                        names_of(acc@) == names_of(old(acc)@) + vars_of_seq(
                            view_seq(ts@).take(i as int),
                        ),
                    decreases ts.len() - i,
                {
                    proof {
                        vstd::seq::axiom_seq_index_decreases(ts@, i as int);
                        vstd::std_specs::vec::axiom_vec_decreases_to_view(*ts);
                        assert(decreases_to!(*self => ts@[i as int]));
                        assert(view_seq(ts@).take(i as int + 1).drop_last() =~= view_seq(
                            ts@,
                        ).take(i as int));
                    }
                    ts[i].collect_variables(acc);
                    proof {
                        assert(names_of(acc@) =~= names_of(old(acc)@) + vars_of_seq(
                            view_seq(ts@).take(i as int + 1),
                        ));
                    }
                    i += 1;
                }
                proof {
                    assert(view_seq(ts@).take(i as int) =~= view_seq(ts@));
                }
            },
            Expression::Minus(v) => v.collect_variables(acc),
            Expression::Inverse(v) => v.collect_variables(acc),
            Expression::Power(b, x) => {
                b.collect_variables(acc);
                x.collect_variables(acc);
                proof {
                    assert(names_of(acc@) =~= names_of(old(acc)@) + spec_variables(self@));
                }
            },
            Expression::Log(_, v) => v.collect_variables(acc),
            Expression::Sin(v) => v.collect_variables(acc),
            Expression::Cos(v) => v.collect_variables(acc),
            Expression::Tan(v) => v.collect_variables(acc),
            Expression::Abs(v) => v.collect_variables(acc),
        }
    }

    /// The expression's variable names, in occurrence order, with
    /// repetitions.
    pub fn get_variables(&self) -> (r: Vec<String>)
        ensures
            names_of(r@) == spec_variables(self@),
    {
        let mut acc: Vec<String> = Vec::new();
        proof {
            assert(names_of(acc@) =~= Seq::<Seq<char>>::empty());
        }
        self.collect_variables(&mut acc);
        proof {
            assert(Seq::<Seq<char>>::empty() + spec_variables(self@) =~= spec_variables(self@));
        }
        acc
    }
}

/// Every free variable of the expression is among the allowed names.
pub open spec fn all_vars_allowed(e: Exp, allowed: Seq<Seq<char>>) -> bool {
    forall|i: int|
        0 <= i < spec_variables(e).len() ==> allowed.contains(#[trigger] spec_variables(e)[i])
}

/// How an equation is graphed.
pub enum GraphPlan {
    /// The explicit fast path: sample `expr` at positions along the x range
    /// bound to `sample_var`; emit `(value, position)` instead of
    /// `(position, value)` when `flipped`.
    Explicit { expr: Expression, sample_var: String, flipped: bool },
    /// The general path: build the quadtree on the signed function `f` with
    /// the prepared simplified partials `dx` and `dy`.
    Implicit { f: Expression, dx: Expression, dy: Expression },
}

/// The explicit-equation test: `v = R` or `R = v` with `v` one of the two
/// plot variables and the other side free of it.  The result gives the
/// sampled side, the variable the sample positions bind, and whether the
/// emitted points are flipped (the dependent variable is the first axis).
pub open spec fn explicit_form(left: Exp, right: Exp, var1: Seq<char>, var2: Seq<char>) -> Option<
    (Exp, Seq<char>, bool),
> {
    if left is Var && left->Var_0 == var1 && spec_count_var(right, var1) == 0 {
        Some((right, var2, true))
    } else if left is Var && left->Var_0 == var2 && spec_count_var(right, var2) == 0 {
        Some((right, var1, false))
    } else if right is Var && right->Var_0 == var1 && spec_count_var(left, var1) == 0 {
        Some((left, var2, true))
    } else if right is Var && right->Var_0 == var2 && spec_count_var(left, var2) == 0 {
        Some((left, var1, false))
    } else {
        None
    }
}

/// The signed function of an equation: `left + (-right)`.
pub open spec fn signed_function(left: Exp, right: Exp) -> Exp {
    Exp::Plus(seq![left, Exp::Minus(Box::new(right))])
}

/// The variable names listed one after another, each followed by a comma.
pub open spec fn var_list_text(vars: Seq<Seq<char>>) -> Seq<char>
    decreases vars,
{
    if vars.len() == 0 {
        Seq::empty()
    } else {
        var_list_text(vars.drop_last()) + vars.last() + ","@
    }
}

/// The rejection message of the planner: it names every variable of the
/// expression that was to be graphed, and the two axes.
pub open spec fn cannot_plot_message(vars: Seq<Seq<char>>, var1: Seq<char>, var2: Seq<char>) -> Seq<
    char,
> {
    "Cannot plot equation of variables ["@ + var_list_text(vars) + "] on axes "@ + var1
        + " and "@ + var2
}

/// Whether the name equals one of the two axis names or one of the extra
/// bound names.
#[verifier::loop_isolation(false)]
fn name_allowed(name: &String, var1: &str, var2: &str, extras: &Vec<String>) -> (r: bool)
    ensures
        r == (seq![var1@, var2@] + names_of(extras@)).contains(name@),
{
    let ghost allowed = seq![var1@, var2@] + names_of(extras@);
    if str_eq(name.as_str(), var1) {
        proof {
            assert(allowed[0] == var1@);
        }
        return true;
    }
    if str_eq(name.as_str(), var2) {
        proof {
            assert(allowed[1] == var2@);
        }
        return true;
    }
    let mut i: usize = 0;
    while i < extras.len()
        invariant
            0 <= i <= extras.len(),
            forall|j: int| 0 <= j < i ==> names_of(extras@)[j] != name@,
            name@ != var1@ && name@ != var2@,
        decreases extras.len() - i,
    {
        if str_eq(extras[i].as_str(), name.as_str()) {
            proof {
                assert(allowed[2 + i] == names_of(extras@)[i as int]);
            }
            return true;
        }
        i += 1;
    }
    proof {
        assert forall|j: int| 0 <= j < allowed.len() implies allowed[j] != name@ by {
            if j >= 2 {
                assert(allowed[j] == names_of(extras@)[j - 2]);
            }
        }
        if allowed.contains(name@) {
            let j = choose|j: int| 0 <= j < allowed.len() && allowed[j] == name@;
        }
    }
    false
}

/// Whether every name of the list is one of the two axis names or one of
/// the extra bound names.
#[verifier::loop_isolation(false)]
fn all_names_allowed(vars: &Vec<String>, var1: &str, var2: &str, extras: &Vec<String>) -> (r: bool)
    ensures
        r == forall|j: int|
            0 <= j < names_of(vars@).len() ==> (seq![var1@, var2@] + names_of(extras@)).contains(
                #[trigger] names_of(vars@)[j],
            ),
{
    let ghost allowed = seq![var1@, var2@] + names_of(extras@);
    proof {
        lemma_names_of(vars@);
    }
    let mut i: usize = 0;
    let mut ok = true;
    while i < vars.len()
        invariant
            0 <= i <= vars.len(),
            ok == forall|j: int| 0 <= j < i ==> allowed.contains(#[trigger] names_of(vars@)[j]),
        decreases vars.len() - i,
    {
        let this_ok = name_allowed(&vars[i], var1, var2, extras);
        proof {
            assert(names_of(vars@)[i as int] == vars@[i as int]@);
        }
        ok = ok && this_ok;
        i += 1;
    }
    ok
}

/// The rejection message, built from the given variable names and the two
/// axis names (see `cannot_plot_message`).
#[verifier::loop_isolation(false)]
fn cannot_plot(vars: &Vec<String>, var1: &str, var2: &str) -> (r: String)
    ensures
        r@ == cannot_plot_message(names_of(vars@), var1@, var2@),
{
    let ghost names = names_of(vars@);
    proof {
        lemma_names_of(vars@);
    }
    let mut msg = String::from_str("Cannot plot equation of variables [");
    let ghost head = "Cannot plot equation of variables ["@;
    proof {
        assert(names.take(0) =~= Seq::<Seq<char>>::empty());
        assert(var_list_text(names.take(0)) =~= Seq::<char>::empty());
        assert(msg@ =~= head + var_list_text(names.take(0)));
    }
    let mut k: usize = 0;
    while k < vars.len()
        invariant
            0 <= k <= vars.len(),
            msg@ == head + var_list_text(names.take(k as int)),
        decreases vars.len() - k,
    {
        proof {
            assert(names.take(k as int + 1).drop_last() =~= names.take(k as int));
            assert(names.take(k as int + 1).last() == names[k as int]);
        }
        msg.append(vars[k].as_str());
        msg.append(",");
        proof {
            assert(msg@ =~= head + var_list_text(names.take(k as int + 1)));
        }
        k += 1;
    }
    proof {
        assert(names.take(vars@.len() as int) =~= names);
    }
    msg.append("] on axes ");
    msg.append(var1);
    msg.append(" and ");
    msg.append(var2);
    proof {
        assert(msg@ =~= cannot_plot_message(names, var1@, var2@));
    }
    msg
}

/// Decides how the equation is graphed over the two named axes.  An
/// explicit equation (see `explicit_form`) is sampled directly; any other
/// equation is prepared for the quadtree: its signed function `f` is formed
/// and the two partial derivatives of `f` are computed and simplified.
/// Either way, the preparation fails exactly when the expression to be
/// graphed (the sampled side, or `f`) has a free variable that is neither a
/// plot variable nor one of `extra_vars` (the names bound by the caller's
/// variable values); the error message lists that expression's variables
/// and the two axes (`cannot_plot_message`).
#[verifier::loop_isolation(false)]
pub fn plan_graph_2d(
    equation: &Equation,
    var1: &str,
    var2: &str,
    extra_vars: &Vec<String>,
) -> (r: Result<GraphPlan, String>)
    ensures
        match explicit_form(equation.left@, equation.right@, var1@, var2@) {
            Some((ex, sv, fl)) => {
                if all_vars_allowed(ex, seq![var1@, var2@] + names_of(extra_vars@)) {
                    r is Ok && r->Ok_0 is Explicit && r->Ok_0->Explicit_expr@ == ex
                        && r->Ok_0->Explicit_sample_var@ == sv && r->Ok_0->Explicit_flipped == fl
                } else {
                    r is Err && r->Err_0@ == cannot_plot_message(spec_variables(ex), var1@, var2@)
                }
            },
            None => {
                let fm = signed_function(equation.left@, equation.right@);
                if all_vars_allowed(fm, seq![var1@, var2@] + names_of(extra_vars@)) {
                    r is Ok && r->Ok_0 is Implicit && r->Ok_0->Implicit_f@ == fm
                        && r->Ok_0->Implicit_dx@ == spec_simplify(spec_derivative(fm, var1@))
                        && r->Ok_0->Implicit_dy@ == spec_simplify(spec_derivative(fm, var2@))
                } else {
                    r is Err && r->Err_0@ == cannot_plot_message(spec_variables(fm), var1@, var2@)
                }
            },
        },
{
    let explicit: Option<(&Expression, bool, bool)> = match &equation.left {
        Expression::Variable(n) => {
            if str_eq(n.as_str(), var1) && equation.right.count_var_instances(var1) == 0 {
                Some((&equation.right, false, true))
            } else if str_eq(n.as_str(), var2) && equation.right.count_var_instances(var2) == 0 {
                Some((&equation.right, true, false))
            } else {
                None
            }
        },
        _ => None,
    };
    let explicit: Option<(&Expression, bool, bool)> = match explicit {
        Some(e) => Some(e),
        None => match &equation.right {
            Expression::Variable(n) => {
                if str_eq(n.as_str(), var1) && equation.left.count_var_instances(var1) == 0 {
                    Some((&equation.left, false, true))
                } else if str_eq(n.as_str(), var2) && equation.left.count_var_instances(var2) == 0 {
                    Some((&equation.left, true, false))
                } else {
                    None
                }
            },
            _ => None,
        },
    };
    if let Some((side, use_var1, flipped)) = explicit {
        let side_vars = side.get_variables();
        if all_names_allowed(&side_vars, var1, var2, extra_vars) {
            let sample_var = if use_var1 {
                String::from_str(var1)
            } else {
                String::from_str(var2)
            };
            return Ok(GraphPlan::Explicit { expr: side.clone_dyn(), sample_var, flipped });
        } else {
            return Err(cannot_plot(&side_vars, var1, var2));
        }
    }
    let f = Expression::Plus(
        crate::expr::vec2(
            equation.left.clone_dyn(),
            Expression::Minus(Box::new(equation.right.clone_dyn())),
        ),
    );
    let ghost fm = signed_function(equation.left@, equation.right@);
    proof {
        assert(f@ == fm);
    }
    let vars = f.get_variables();
    if all_names_allowed(&vars, var1, var2, extra_vars) {
        let dx = f.derivative(var1).basic_simplify();
        let dy = f.derivative(var2).basic_simplify();
        Ok(GraphPlan::Implicit { f, dx, dy })
    } else {
        Err(cannot_plot(&vars, var1, var2))
    }
}

/// The names of a vector of strings, pointwise.
proof fn lemma_names_of(v: Seq<String>)
    ensures
        names_of(v).len() == v.len(),
        forall|i: int| 0 <= i < v.len() ==> names_of(v)[i] == #[trigger] v[i]@,
{
}

/// The contours of a built quadtree: the per-leaf segments of the tree,
/// stitched into polylines.  The result is exactly the greedy stitching of
/// the tree's segment list; in particular the polylines carry exactly the
/// tree's segments (as unordered endpoint pairs) and none has fewer than
/// two points.
pub fn get_contours_2d(tree: &QuadTreeNode) -> (contours: Vec<Contour2D>)
    ensures
        views_of(contours@) == spec_stitch(spec_segments(*tree)),
        contours_edges(contours@) == segments_edges(spec_segments(*tree)),
        all_polylines(contours@),
{
    let segments = get_segments(tree);
    segments_to_contours(&segments)
}

/// The flat encoding of one contour: the coordinate pairs of its points in
/// order.
pub open spec fn flat_contour(c: Seq<Point2D>) -> Seq<u64>
    decreases c,
{
    if c.len() == 0 {
        Seq::empty()
    } else {
        flat_contour(c.drop_last()) + seq![c.last().0, c.last().1]
    }
}

/// The flat encoding of a list of contours: each contour's coordinates
/// followed by the separator pair of positive infinities.
pub open spec fn flat_contours(cs: Seq<Contour2D>) -> Seq<u64>
    decreases cs,
{
    if cs.len() == 0 {
        Seq::empty()
    } else {
        flat_contours(cs.drop_last()) + flat_contour(cs.last()@) + seq![INF_BITS, INF_BITS]
    }
}

/// Encodes contours as the flat coordinate stream of the host interface:
/// the points of each contour as x, y pairs, with the pair
/// `(+inf, +inf)` appended after every contour, the last included.
#[verifier::loop_isolation(false)]
pub fn contours_to_float_array(contours: &Vec<Contour2D>) -> (r: Vec<u64>)
    ensures
        r@ == flat_contours(contours@),
{
    let mut r: Vec<u64> = Vec::new();
    let mut i: usize = 0;
    proof {
        assert(contours@.take(0) =~= Seq::<Contour2D>::empty());
        assert(r@ =~= flat_contours(contours@.take(0)));
    }
    while i < contours.len()
        invariant
            0 <= i <= contours.len(),
            r@ == flat_contours(contours@.take(i as int)),
        decreases contours.len() - i,
    {
        let c = &contours[i];
        let ghost pre = r@;
        let mut j: usize = 0;
        proof {
            assert(c@.take(0) =~= Seq::<Point2D>::empty());
            assert(pre + flat_contour(c@.take(0)) =~= pre);
        }
        while j < c.len()
            invariant
                0 <= j <= c.len(),
                r@ == pre + flat_contour(c@.take(j as int)),
            decreases c.len() - j,
        {
            proof {
                assert(c@.take(j as int + 1).drop_last() =~= c@.take(j as int));
                assert(c@.take(j as int + 1).last() == c@[j as int]);
            }
            r.push(c[j].0);
            r.push(c[j].1);
            proof {
                assert(r@ =~= pre + flat_contour(c@.take(j as int + 1)));
            }
            j += 1;
        }
        r.push(INF_BITS);
        r.push(INF_BITS);
        proof {
            assert(c@.take(c@.len() as int) =~= c@);
            assert(contours@.take(i as int + 1).drop_last() =~= contours@.take(i as int));
            assert(contours@.take(i as int + 1).last() == contours@[i as int]);
            assert(r@ =~= flat_contours(contours@.take(i as int + 1)));
        }
        i += 1;
    }
    proof {
        assert(contours@.take(contours@.len() as int) =~= contours@);
    }
    r
}

} // verus!
