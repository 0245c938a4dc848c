//! The symbolic expression engine: differentiation, simplification, and
//! their numeric soundness.

use std::collections::HashMap;

use graphing_calculator::expr::{Expression, Variable};

fn var(name: &str) -> Expression {
    Expression::Variable(name.to_string())
}

fn con(x: f64) -> Expression {
    Expression::Constant(x.to_bits())
}

fn evaluate(e: &Expression, vars: &HashMap<String, f64>) -> f64 {
    match e {
        Expression::Constant(c) => f64::from_bits(*c),
        Expression::Variable(n) => *vars.get(n).unwrap_or(&f64::NAN),
        Expression::Plus(ts) => ts.iter().map(|t| evaluate(t, vars)).sum(),
        Expression::Minus(v) => -evaluate(v, vars),
        Expression::Times(ts) => ts.iter().map(|t| evaluate(t, vars)).product(),
        Expression::Inverse(v) => 1.0 / evaluate(v, vars),
        Expression::Power(b, x) => evaluate(b, vars).powf(evaluate(x, vars)),
        Expression::Log(b, v) => evaluate(v, vars).log(f64::from_bits(*b)),
        Expression::Sin(v) => evaluate(v, vars).sin(),
        Expression::Cos(v) => evaluate(v, vars).cos(),
        Expression::Tan(v) => evaluate(v, vars).tan(),
        Expression::Abs(v) => evaluate(v, vars).abs(),
    }
}

fn eval1(e: &Expression, x: f64) -> f64 {
    let vars: HashMap<String, f64> = [("x".to_string(), x)].into_iter().collect();
    evaluate(e, &vars)
}

fn shape(e: &Expression) -> String {
    format!("{e:?}")
}

#[test]
fn variable_constructor_builds_a_leaf() {
    let e = Variable::new("x".to_string());
    assert_eq!(shape(&e), shape(&var("x")));
    let vars: HashMap<String, f64> = [("x".to_string(), 3.5)].into_iter().collect();
    assert_eq!(evaluate(&e, &vars), 3.5);
}

#[test]
fn is_constant_sees_through_structure() {
    assert!(con(3.0).is_constant());
    assert!(!var("x").is_constant());
    assert!(Expression::Plus(vec![con(1.0), Expression::Sin(Box::new(con(2.0)))]).is_constant());
    assert!(!Expression::Plus(vec![con(1.0), var("x")]).is_constant());
    assert!(Expression::Times(vec![]).is_constant());
}

#[test]
fn constant_expressions_evaluate_alike_under_any_binding() {
    // is_constant implies the value cannot depend on the binding.
    let candidates = vec![
        con(3.0),
        Expression::Plus(vec![con(1.0), con(2.0)]),
        Expression::Sin(Box::new(con(0.5))),
        Expression::Power(Box::new(con(2.0)), Box::new(con(10.0))),
        Expression::Plus(vec![con(1.0), var("x")]),
        Expression::Times(vec![var("y"), con(0.0)]),
    ];
    let b1: HashMap<String, f64> = [("x".to_string(), 1.0), ("y".to_string(), -7.0)]
        .into_iter()
        .collect();
    let b2: HashMap<String, f64> = [("x".to_string(), 42.0), ("y".to_string(), 0.25)]
        .into_iter()
        .collect();
    for e in &candidates {
        if e.is_constant() {
            let v1 = evaluate(e, &b1);
            let v2 = evaluate(e, &b2);
            assert!(v1 == v2 || (v1.is_nan() && v2.is_nan()), "{}", shape(e));
        }
    }
}

#[test]
fn count_var_instances_counts_leaves() {
    let e = Expression::Plus(vec![
        var("x"),
        Expression::Times(vec![var("x"), var("y")]),
        Expression::Power(Box::new(var("x")), Box::new(con(2.0))),
    ]);
    assert_eq!(e.count_var_instances("x"), 3);
    assert_eq!(e.count_var_instances("y"), 1);
    assert_eq!(e.count_var_instances("z"), 0);
}

#[test]
fn get_variables_in_occurrence_order() {
    let e = Expression::Plus(vec![
        var("b"),
        Expression::Times(vec![var("a"), var("b")]),
    ]);
    let names = e.get_variables();
    assert_eq!(names, vec!["b".to_string(), "a".to_string(), "b".to_string()]);
}

#[test]
fn simplify_flattens_and_drops_identities() {
    // (x + (y + 0)) + 0 flattens to x + y.
    let e = Expression::Plus(vec![
        Expression::Plus(vec![var("x"), Expression::Plus(vec![var("y"), con(0.0)])]),
        con(0.0),
    ]);
    let s = e.basic_simplify();
    assert_eq!(shape(&s), shape(&Expression::Plus(vec![var("x"), var("y")])));

    // 1 * x * (y * 1) simplifies to x * y.
    let p = Expression::Times(vec![
        con(1.0),
        var("x"),
        Expression::Times(vec![var("y"), con(1.0)]),
    ]);
    let sp = p.basic_simplify();
    assert_eq!(shape(&sp), shape(&Expression::Times(vec![var("x"), var("y")])));
}

#[test]
fn simplify_zero_annihilates_products() {
    let p = Expression::Times(vec![var("x"), con(0.0), var("y")]);
    assert_eq!(shape(&p.basic_simplify()), shape(&con(0.0)));
    // An empty sum is zero and an empty product is one.
    assert_eq!(shape(&Expression::Plus(vec![]).basic_simplify()), shape(&con(0.0)));
    assert_eq!(shape(&Expression::Times(vec![]).basic_simplify()), shape(&con(1.0)));
}

#[test]
fn simplify_power_special_exponents() {
    let x = || Box::new(var("x"));
    assert_eq!(
        shape(&Expression::Power(x(), Box::new(con(0.0))).basic_simplify()),
        shape(&con(1.0))
    );
    assert_eq!(
        shape(&Expression::Power(x(), Box::new(con(1.0))).basic_simplify()),
        shape(&var("x"))
    );
    assert_eq!(
        shape(&Expression::Power(x(), Box::new(con(-1.0))).basic_simplify()),
        shape(&Expression::Inverse(Box::new(var("x"))))
    );
    let kept = Expression::Power(x(), Box::new(con(3.0))).basic_simplify();
    assert_eq!(shape(&kept), shape(&Expression::Power(x(), Box::new(con(3.0)))));
}

#[test]
fn simplify_folds_negation_and_absolute_value() {
    assert_eq!(
        shape(&Expression::Minus(Box::new(con(2.5))).basic_simplify()),
        shape(&con(-2.5))
    );
    assert_eq!(
        shape(&Expression::Abs(Box::new(con(-4.0))).basic_simplify()),
        shape(&con(4.0))
    );
}

#[test]
fn simplify_is_idempotent() {
    let cases = vec![
        Expression::Plus(vec![
            Expression::Plus(vec![var("x"), Expression::Plus(vec![var("y"), var("z")])]),
            con(0.0),
            Expression::Times(vec![con(1.0), var("w")]),
        ]),
        Expression::Power(Box::new(var("x")), Box::new(con(1.0))),
        Expression::Minus(Box::new(Expression::Minus(Box::new(con(3.0))))),
        Expression::Times(vec![
            Expression::Times(vec![var("a"), var("b")]),
            Expression::Inverse(Box::new(var("c"))),
        ]),
    ];
    for e in &cases {
        let once = e.basic_simplify();
        let twice = once.basic_simplify();
        assert_eq!(shape(&once), shape(&twice), "not idempotent on {}", shape(e));
    }
}

#[test]
fn simplify_preserves_evaluation() {
    let cases = vec![
        Expression::Plus(vec![
            Expression::Plus(vec![var("x"), con(0.0)]),
            Expression::Times(vec![con(1.0), var("x"), var("x")]),
        ]),
        Expression::Power(Box::new(var("x")), Box::new(con(-1.0))),
        Expression::Minus(Box::new(Expression::Abs(Box::new(var("x"))))),
        Expression::Times(vec![var("x"), con(0.0)]),
        Expression::Log(std::f64::consts::E.to_bits(), Box::new(var("x"))),
    ];
    for e in &cases {
        let s = e.basic_simplify();
        for x in [-3.0, -0.5, 0.1, 1.0, 2.5, 9.0] {
            let before = eval1(e, x);
            let after = eval1(&s, x);
            if before.is_finite() && after.is_finite() {
                assert!(
                    (before - after).abs() <= 1e-12 * before.abs().max(1.0),
                    "evaluation changed on {} at {x}: {before} vs {after}",
                    shape(e)
                );
            }
        }
    }
}

fn numeric_derivative(e: &Expression, x: f64) -> f64 {
    let h = 1e-6 * x.abs().max(1.0);
    (eval1(e, x + h) - eval1(e, x - h)) / (2.0 * h)
}

#[test]
fn derivatives_agree_with_numerical_differentiation() {
    // Polynomials up to degree 4, trig, logarithm, absolute value,
    // quotients and symbolic powers.
    let x = || Box::new(var("x"));
    let cases: Vec<Expression> = vec![
        Expression::Plus(vec![
            Expression::Power(x(), Box::new(con(4.0))),
            Expression::Times(vec![con(3.0), Expression::Power(x(), Box::new(con(2.0)))]),
            var("x"),
            con(1.0),
        ]),
        Expression::Sin(x()),
        Expression::Cos(x()),
        Expression::Tan(x()),
        Expression::Log(std::f64::consts::E.to_bits(), x()),
        Expression::Abs(x()),
        Expression::Inverse(x()),
        Expression::Times(vec![var("x"), Expression::Inverse(Box::new(Expression::Plus(vec![
            var("x"),
            con(2.0),
        ])))]),
        Expression::Power(x(), x()),
        Expression::Power(Box::new(con(2.0)), x()),
    ];
    let points = [-2.3, -1.1, 0.4, 0.7, 1.3, 2.9];
    for e in &cases {
        let d = e.derivative("x").basic_simplify();
        for &p in &points {
            let exact = eval1(&d, p);
            if !exact.is_finite() {
                continue;
            }
            let approx = numeric_derivative(e, p);
            if !approx.is_finite() {
                continue;
            }
            let tol = 1e-4 * exact.abs().max(1.0);
            assert!(
                (exact - approx).abs() < tol,
                "derivative of {} at {p}: symbolic {exact} vs numeric {approx}",
                shape(e)
            );
        }
    }
}

#[test]
fn derivative_of_variable_and_constant() {
    let dx = var("x").derivative("x");
    assert_eq!(shape(&dx), shape(&con(1.0)));
    let dy = var("y").derivative("x");
    assert_eq!(shape(&dy), shape(&con(0.0)));
    let dc = con(7.0).derivative("x");
    assert_eq!(shape(&dc), shape(&con(0.0)));
}

#[test]
fn constant_value_reads_only_bare_constants() {
    assert_eq!(con(6.5).constant_value(), Some(6.5f64.to_bits()));
    assert_eq!(var("x").constant_value(), None);
    assert_eq!(Expression::Plus(vec![con(1.0)]).constant_value(), None);
}

#[test]
fn clone_dyn_is_a_deep_copy() {
    let e = Expression::Plus(vec![
        var("x"),
        Expression::Power(Box::new(var("y")), Box::new(con(2.0))),
    ]);
    let c = e.clone_dyn();
    assert_eq!(shape(&e), shape(&c));
}
