//! The driver's planning decisions.

use graphing_calculator::driver::{plan_graph_2d, GraphPlan};
use graphing_calculator::expr::Expression;
use graphing_calculator::sets::{ComparisonOperator, Equation};

fn var(name: &str) -> Expression {
    Expression::Variable(name.to_string())
}

fn con(x: f64) -> Expression {
    Expression::Constant(x.to_bits())
}

fn eq(left: Expression, right: Expression) -> Equation {
    Equation::new(left, right, ComparisonOperator::Equal)
}

#[test]
fn explicit_function_of_x_is_detected() {
    // y = x^2: the dependent variable is the second axis, so the points
    // are not flipped and x is sampled.
    let e = eq(
        var("y"),
        Expression::Power(Box::new(var("x")), Box::new(con(2.0))),
    );
    match plan_graph_2d(&e, "x", "y", &vec![]).unwrap() {
        GraphPlan::Explicit { sample_var, flipped, .. } => {
            assert_eq!(sample_var, "x");
            assert!(!flipped);
        }
        _ => panic!("y = x^2 must take the fast path"),
    }
}

#[test]
fn explicit_function_of_y_is_flipped() {
    // x = y^2: the dependent variable is the first axis.
    let e = eq(
        var("x"),
        Expression::Power(Box::new(var("y")), Box::new(con(2.0))),
    );
    match plan_graph_2d(&e, "x", "y", &vec![]).unwrap() {
        GraphPlan::Explicit { sample_var, flipped, .. } => {
            assert_eq!(sample_var, "y");
            assert!(flipped);
        }
        _ => panic!("x = g(y) must take the fast path"),
    }
}

#[test]
fn reversed_sides_are_also_detected() {
    let e = eq(Expression::Sin(Box::new(var("x"))), var("y"));
    match plan_graph_2d(&e, "x", "y", &vec![]).unwrap() {
        GraphPlan::Explicit { sample_var, flipped, .. } => {
            assert_eq!(sample_var, "x");
            assert!(!flipped);
        }
        _ => panic!("sin(x) = y must take the fast path"),
    }
}

#[test]
fn self_referential_equation_is_not_explicit() {
    // y = y + x mentions the dependent variable on both sides.
    let e = eq(var("y"), Expression::Plus(vec![var("y"), var("x")]));
    match plan_graph_2d(&e, "x", "y", &vec![]).unwrap() {
        GraphPlan::Implicit { .. } => {}
        _ => panic!("y = y + x must not take the fast path"),
    }
}

#[test]
fn implicit_plan_prepares_simplified_partials() {
    // x^2 + y^2 = 1: f = x^2 + y^2 - 1, df/dx simplifies to a product
    // shape with no stray zero terms.
    let e = eq(
        Expression::Plus(vec![
            Expression::Power(Box::new(var("x")), Box::new(con(2.0))),
            Expression::Power(Box::new(var("y")), Box::new(con(2.0))),
        ]),
        con(1.0),
    );
    match plan_graph_2d(&e, "x", "y", &vec![]).unwrap() {
        GraphPlan::Implicit { f, dx, dy } => {
            assert_eq!(f.count_var_instances("x"), 1);
            assert_eq!(f.count_var_instances("y"), 1);
            // The partials mention only their own variable after
            // simplification of the zero derivative terms.
            assert!(dx.count_var_instances("x") >= 1);
            assert_eq!(dy.count_var_instances("x"), 0);
            assert!(dy.count_var_instances("y") >= 1);
        }
        _ => panic!("the circle is not explicit"),
    }
}

#[test]
fn explicit_path_rejects_unbound_variables() {
    // y = x + z is explicit in shape, but z is neither an axis nor bound:
    // the plan fails with a message naming the variables.
    let e = eq(var("y"), Expression::Plus(vec![var("x"), var("z")]));
    let r = plan_graph_2d(&e, "x", "y", &vec![]);
    let msg = r.err().unwrap();
    assert!(msg.contains("z"), "error should name the variable: {msg}");
    // With z bound by the caller, the fast path is taken.
    let e = eq(var("y"), Expression::Plus(vec![var("x"), var("z")]));
    match plan_graph_2d(&e, "x", "y", &vec!["z".to_string()]).unwrap() {
        GraphPlan::Explicit { sample_var, flipped, .. } => {
            assert_eq!(sample_var, "x");
            assert!(!flipped);
        }
        _ => panic!("y = x + z with z bound must take the fast path"),
    }
}

#[test]
fn rejection_message_lists_variables_and_axes() {
    let e = eq(
        Expression::Plus(vec![var("x"), var("a")]),
        Expression::Sin(Box::new(var("y"))),
    );
    let msg = plan_graph_2d(&e, "x", "y", &vec![]).err().unwrap();
    assert_eq!(msg, "Cannot plot equation of variables [x,a,y,] on axes x and y");
}

#[test]
fn unknown_free_variables_are_rejected() {
    let e = eq(
        Expression::Plus(vec![var("x"), var("a")]),
        Expression::Sin(Box::new(var("y"))),
    );
    let r = plan_graph_2d(&e, "x", "y", &vec![]);
    assert!(r.is_err());
    let msg = r.err().unwrap();
    assert!(msg.contains("a"), "error should name the variables: {msg}");
}

#[test]
fn extra_bound_variables_are_accepted() {
    let e = eq(
        Expression::Plus(vec![var("x"), var("a")]),
        Expression::Sin(Box::new(var("y"))),
    );
    let r = plan_graph_2d(&e, "x", "y", &vec!["a".to_string()]);
    assert!(r.is_ok());
}
