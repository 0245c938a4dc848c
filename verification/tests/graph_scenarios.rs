//! End-to-end graphing scenarios.
//!
//! The crate decides everything decidable from binary64 bit patterns; the
//! floating-point arithmetic itself (expression evaluation, interpolation,
//! the least-squares solves) happens out here, feeding results back into
//! the library's verified decision functions.

use std::collections::HashMap;

use graphing_calculator::driver::{
    contours_to_float_array, get_contours_2d, plan_graph_2d, GraphPlan,
};
use graphing_calculator::expr::Expression;
use graphing_calculator::point::{Contour2D, Point2D};
use graphing_calculator::quadtree::{
    build_step, collapse_children, collect_edge_points, point_in_box, BuildStep,
    ConstrainedCandidates, CornerClass, CornerValues, EdgeData, GraphBox, QuadTreeLeafNode,
    QuadTreeNode,
};
use graphing_calculator::sets::{ComparisonOperator, Equation};

use nalgebra::{OMatrix, U1, U2, U3};
use rand::Rng;

fn evaluate(e: &Expression, vars: &HashMap<String, f64>) -> f64 {
    match e {
        Expression::Constant(c) => f64::from_bits(*c),
        Expression::Variable(n) => *vars.get(n).unwrap_or(&f64::NAN),
        Expression::Plus(ts) => ts.iter().map(|t| evaluate(t, vars)).sum(),
        Expression::Minus(v) => -evaluate(v, vars),
        Expression::Times(ts) => ts.iter().map(|t| evaluate(t, vars)).product(),
        Expression::Inverse(v) => 1.0 / evaluate(v, vars),
        Expression::Power(b, x) => evaluate(b, vars).powf(evaluate(x, vars)),
        Expression::Log(b, v) => evaluate(v, vars).log(f64::from_bits(*b)),
        Expression::Sin(v) => evaluate(v, vars).sin(),
        Expression::Cos(v) => evaluate(v, vars).cos(),
        Expression::Tan(v) => evaluate(v, vars).tan(),
        Expression::Abs(v) => evaluate(v, vars).abs(),
    }
}

struct Field<'a> {
    f: &'a Expression,
    dx: &'a Expression,
    dy: &'a Expression,
    var1: &'a str,
    var2: &'a str,
    extra: &'a HashMap<String, f64>,
}

impl<'a> Field<'a> {
    fn eval(&self, e: &Expression, x: f64, y: f64) -> f64 {
        let mut vars = self.extra.clone();
        vars.insert(self.var1.to_string(), x);
        vars.insert(self.var2.to_string(), y);
        evaluate(e, &vars)
    }

    fn value(&self, x: f64, y: f64) -> f64 {
        self.eval(self.f, x, y)
    }

    fn raw_gradient(&self, x: f64, y: f64) -> (f64, f64) {
        (self.eval(self.dx, x, y), self.eval(self.dy, x, y))
    }

    /// The cheating gradient: retries at perturbed sample points when the
    /// exact gradient is non-finite.
    fn gradient(&self, x: f64, y: f64) -> (f64, f64) {
        let eps = 0.00001;
        let offsets = [
            (0.0, 0.0),
            (eps, eps),
            (-eps, -eps),
            (eps, -eps),
            (-eps, eps),
            (eps, 0.0),
            (-eps, 0.0),
            (0.0, eps),
            (0.0, -eps),
        ];
        for (ox, oy) in offsets {
            let g = self.raw_gradient(x + ox, y + oy);
            if g.0.is_finite() && g.1.is_finite() {
                return g;
            }
        }
        (0.0, 0.0)
    }
}

fn normalize(v: (f64, f64)) -> (f64, f64) {
    let mut mag = (v.0 * v.0 + v.1 * v.1).sqrt();
    if mag == 0.0 {
        mag = 1.0;
    }
    (v.0 / mag, v.1 / mag)
}

fn find_zero(start: f64, start_val: f64, end: f64, end_val: f64) -> f64 {
    let t = if start_val == end_val {
        0.5
    } else {
        -start_val / (end_val - start_val)
    };
    start + t * (end - start)
}

fn solve_pseudo2(ata: &OMatrix<f64, U2, U2>, atb: &OMatrix<f64, U2, U1>, mean: (f64, f64)) -> (f64, f64) {
    match ata.clone_owned().pseudo_inverse(0.0000001) {
        Ok(inv) => {
            let s = &inv * atb;
            (s[(0, 0)] + mean.0, s[(1, 0)] + mean.1)
        }
        Err(_) => mean,
    }
}

fn solve_pseudo3(ata: OMatrix<f64, U3, U3>, atb: OMatrix<f64, U3, U1>, mean: (f64, f64)) -> (f64, f64) {
    match ata.pseudo_inverse(0.0000001) {
        Ok(inv) => {
            let s = &inv * atb;
            (s[(0, 0)] + mean.0, s[(1, 0)] + mean.1)
        }
        Err(_) => mean,
    }
}

fn solution_error(sol: (f64, f64), normals: &[(f64, f64)], pts: &[(f64, f64)]) -> f64 {
    let mut err = 0.0;
    for i in 0..normals.len() {
        let d = normals[i].0 * (pts[i].0 - sol.0) + normals[i].1 * (pts[i].1 - sol.1);
        err += d * d;
    }
    err
}

fn leaf_key_points(area: &GraphBox, field: &Field) -> (Vec<Point2D>, Point2D) {
    let (x_min, x_max) = (f64::from_bits(area.x_min), f64::from_bits(area.x_max));
    let (y_min, y_max) = (f64::from_bits(area.y_min), f64::from_bits(area.y_max));
    let v = [
        field.value(x_min, y_min),
        field.value(x_max, y_min),
        field.value(x_min, y_max),
        field.value(x_max, y_max),
    ];
    let corners = CornerValues {
        v0: v[0].to_bits(),
        v1: v[1].to_bits(),
        v2: v[2].to_bits(),
        v3: v[3].to_bits(),
    };
    let products = EdgeData {
        bottom: (v[0] * v[1]).to_bits(),
        left: (v[0] * v[2]).to_bits(),
        right: (v[1] * v[3]).to_bits(),
        top: (v[2] * v[3]).to_bits(),
    };
    let crossings = EdgeData {
        bottom: find_zero(x_min, v[0], x_max, v[1]).to_bits(),
        left: find_zero(y_min, v[0], y_max, v[2]).to_bits(),
        right: find_zero(y_min, v[1], y_max, v[3]).to_bits(),
        top: find_zero(x_min, v[2], x_max, v[3]).to_bits(),
    };
    let edge_points = collect_edge_points(area, &corners, &products, &crossings);

    if edge_points.is_empty() {
        let centre = Point2D(
            ((x_min + x_max) / 2.0).to_bits(),
            ((y_min + y_max) / 2.0).to_bits(),
        );
        return (edge_points, centre);
    }

    let pts: Vec<(f64, f64)> = edge_points
        .iter()
        .map(|p| (f64::from_bits(p.0), f64::from_bits(p.1)))
        .collect();
    let mut mean = (0.0, 0.0);
    for p in &pts {
        mean.0 += p.0;
        mean.1 += p.1;
    }
    mean.0 /= pts.len() as f64;
    mean.1 /= pts.len() as f64;

    let normals: Vec<(f64, f64)> = pts
        .iter()
        .map(|p| normalize(field.gradient(p.0, p.1)))
        .collect();

    let mut ata = OMatrix::<f64, U2, U2>::zeros();
    for n in &normals {
        ata[(0, 0)] += n.0 * n.0;
        ata[(0, 1)] += n.0 * n.1;
        ata[(1, 0)] += n.1 * n.0;
        ata[(1, 1)] += n.1 * n.1;
    }
    let mut atb = OMatrix::<f64, U2, U1>::zeros();
    for i in 0..normals.len() {
        let dot = normals[i].0 * (pts[i].0 - mean.0) + normals[i].1 * (pts[i].1 - mean.1);
        atb[(0, 0)] += dot * normals[i].0;
        atb[(1, 0)] += dot * normals[i].1;
    }

    let cand = solve_pseudo2(&ata, &atb, mean);
    let cand_pt = Point2D(cand.0.to_bits(), cand.1.to_bits());
    if point_in_box(area, cand_pt) {
        return (edge_points, cand_pt);
    }

    let constrain = |axis: usize, value: f64| {
        let mut a3 = ata.insert_column(2, 0.0).insert_row(2, 0.0);
        a3[(2, axis)] = 1.0;
        a3[(axis, 2)] = 1.0;
        let b3 = atb.insert_row(2, value);
        solve_pseudo3(a3, b3, mean)
    };
    let sols = [
        constrain(0, x_min - mean.0),
        constrain(0, x_max - mean.0),
        constrain(1, y_min - mean.1),
        constrain(1, y_max - mean.1),
    ];
    let candidates = ConstrainedCandidates {
        s0: Point2D(sols[0].0.to_bits(), sols[0].1.to_bits()),
        s1: Point2D(sols[1].0.to_bits(), sols[1].1.to_bits()),
        s2: Point2D(sols[2].0.to_bits(), sols[2].1.to_bits()),
        s3: Point2D(sols[3].0.to_bits(), sols[3].1.to_bits()),
        e0: solution_error(sols[0], &normals, &pts).to_bits(),
        e1: solution_error(sols[1], &normals, &pts).to_bits(),
        e2: solution_error(sols[2], &normals, &pts).to_bits(),
        e3: solution_error(sols[3], &normals, &pts).to_bits(),
    };
    let vertex = graphing_calculator::quadtree::choose_leaf_vertex(area, cand_pt, &candidates);
    (edge_points, vertex)
}

fn build_tree(depth: i64, search_depth: i64, area: &GraphBox, field: &Field) -> QuadTreeNode {
    let (x_min, x_max) = (f64::from_bits(area.x_min), f64::from_bits(area.x_max));
    let (y_min, y_max) = (f64::from_bits(area.y_min), f64::from_bits(area.y_max));
    let corners = CornerValues {
        v0: field.value(x_min, y_min).to_bits(),
        v1: field.value(x_max, y_min).to_bits(),
        v2: field.value(x_min, y_max).to_bits(),
        v3: field.value(x_max, y_max).to_bits(),
    };
    match build_step(depth, search_depth, &corners) {
        BuildStep::Sentinel(CornerClass::Zero) => QuadTreeNode::Zero,
        BuildStep::Sentinel(CornerClass::Negative) => QuadTreeNode::Negative,
        BuildStep::Sentinel(_) => QuadTreeNode::Positive,
        BuildStep::MakeLeaf => {
            let (edge_points, vertex) = leaf_key_points(area, field);
            QuadTreeNode::Leaf(QuadTreeLeafNode { edge_points, vertex })
        }
        BuildStep::Subdivide => {
            let x_mid = ((x_min + x_max) / 2.0).to_bits();
            let y_mid = ((y_min + y_max) / 2.0).to_bits();
            let children: Vec<QuadTreeNode> = (0..4)
                .map(|i| {
                    let q = area.get_quadrant(i, x_mid, y_mid);
                    build_tree(depth - 1, search_depth - 1, &q, field)
                })
                .collect();
            let mut it = children.into_iter();
            let sw = it.next().unwrap();
            let se = it.next().unwrap();
            let nw = it.next().unwrap();
            let ne = it.next().unwrap();
            collapse_children(sw, se, nw, ne)
        }
    }
}

fn graph_function_2d(
    var: &str,
    window: &GraphBox,
    expression: &Expression,
    flipped: bool,
    extra: &HashMap<String, f64>,
) -> Vec<Contour2D> {
    let (x_min, x_max) = (f64::from_bits(window.x_min), f64::from_bits(window.x_max));
    let mut contour: Contour2D = vec![];
    let mut rng: rand::rngs::StdRng = rand::SeedableRng::seed_from_u64(0);
    let mut vars = extra.clone();
    for i in 0..501 {
        let randomized_i = i as f64
            + if i == 0 || i == 500 {
                0.0
            } else {
                rng.gen::<f64>() - 0.5
            };
        let x = x_min + (x_max - x_min) * randomized_i / 500.0;
        vars.insert(var.to_string(), x);
        let y = evaluate(expression, &vars);
        if y.is_finite() {
            if flipped {
                contour.push(Point2D(y.to_bits(), x.to_bits()));
            } else {
                contour.push(Point2D(x.to_bits(), y.to_bits()));
            }
        }
    }
    vec![contour]
}

fn graph_equation_2d(
    var1: &str,
    var2: &str,
    window: &GraphBox,
    equation: &Equation,
    depth: i64,
    search_depth: i64,
    var_values: &HashMap<String, f64>,
) -> Result<Vec<Contour2D>, String> {
    let extra_names: Vec<String> = var_values.keys().cloned().collect();
    let plan = plan_graph_2d(equation, var1, var2, &extra_names)?;
    match plan {
        GraphPlan::Explicit { expr, sample_var, flipped } => {
            Ok(graph_function_2d(&sample_var, window, &expr, flipped, var_values))
        }
        GraphPlan::Implicit { f, dx, dy } => {
            let field = Field { f: &f, dx: &dx, dy: &dy, var1, var2, extra: var_values };
            let tree = build_tree(depth, search_depth, window, &field);
            Ok(get_contours_2d(&tree))
        }
    }
}

fn window_10() -> GraphBox {
    GraphBox {
        x_min: (-10.0f64).to_bits(),
        x_max: 10.0f64.to_bits(),
        y_min: (-10.0f64).to_bits(),
        y_max: 10.0f64.to_bits(),
    }
}

fn var(name: &str) -> Expression {
    Expression::Variable(name.to_string())
}

fn con(x: f64) -> Expression {
    Expression::Constant(x.to_bits())
}

fn pt(p: &Point2D) -> (f64, f64) {
    (f64::from_bits(p.0), f64::from_bits(p.1))
}

#[test]
fn straight_line_diagonal() {
    // y = x: a single contour spanning the viewport corner to corner, with
    // every point on the line.
    let equation = Equation {
        left: var("y"),
        right: var("x"),
        operator: ComparisonOperator::Equal,
    };
    let contours =
        graph_equation_2d("x", "y", &window_10(), &equation, 6, 3, &HashMap::new()).unwrap();
    // y = x is explicit, so it takes the sampled fast path.
    assert_eq!(contours.len(), 1);
    let points: Vec<(f64, f64)> = contours[0].iter().map(pt).collect();
    assert!(points.len() >= 2);
    for (x, y) in &points {
        assert!((y - x).abs() < 0.1, "point off the line: ({x}, {y})");
    }
    let first = points.first().unwrap();
    let last = points.last().unwrap();
    assert!((first.0 + 10.0).abs() < 0.1 && (first.1 + 10.0).abs() < 0.1);
    assert!((last.0 - 10.0).abs() < 0.1 && (last.1 - 10.0).abs() < 0.1);
}

#[test]
fn implicit_line_through_quadtree() {
    // y - x = 0 written so that neither side is a bare variable: exercises
    // the quadtree path on the same straight line.
    let equation = Equation {
        left: Expression::Plus(vec![var("y"), Expression::Minus(Box::new(var("x")))]),
        right: con(0.0),
        operator: ComparisonOperator::Equal,
    };
    let contours =
        graph_equation_2d("x", "y", &window_10(), &equation, 6, 3, &HashMap::new()).unwrap();
    assert!(!contours.is_empty());
    let mut total = 0;
    for c in &contours {
        for p in c {
            let (x, y) = pt(p);
            assert!((y - x).abs() < 0.1, "vertex off the line: ({x}, {y})");
            total += 1;
        }
    }
    assert!(total > 10);
}

#[test]
fn parabola_explicit_fast_path() {
    // y = x^2: the explicit fast path samples 501 positions; evaluation at
    // x = 2 yields exactly 4.
    let equation = Equation {
        left: var("y"),
        right: Expression::Power(Box::new(var("x")), Box::new(con(2.0))),
        operator: ComparisonOperator::Equal,
    };
    let contours =
        graph_equation_2d("x", "y", &window_10(), &equation, 6, 3, &HashMap::new()).unwrap();
    assert_eq!(contours.len(), 1);
    // Every sampled position is finite here, so all 501 points survive.
    assert_eq!(contours[0].len(), 501);
    for p in &contours[0] {
        let (x, y) = pt(p);
        assert!((y - x * x).abs() < 1e-9);
    }
    let two = 2.0f64;
    assert_eq!(two.powf(2.0), 4.0);
    let vars: HashMap<String, f64> = [("x".to_string(), 2.0)].into_iter().collect();
    let y = evaluate(
        &Expression::Power(Box::new(var("x")), Box::new(con(2.0))),
        &vars,
    );
    assert_eq!(y, 4.0);
}

#[test]
fn unit_circle_closed_contour() {
    // x^2 + y^2 = 1: the drawn polylines all lie on the circle, cover it
    // completely, and close up: every polyline endpoint coincides with
    // another polyline endpoint (or the other end of its own polyline)
    // within the tolerance, so the drawing has no loose ends.
    let equation = Equation {
        left: Expression::Plus(vec![
            Expression::Power(Box::new(var("x")), Box::new(con(2.0))),
            Expression::Power(Box::new(var("y")), Box::new(con(2.0))),
        ]),
        right: con(1.0),
        operator: ComparisonOperator::Equal,
    };
    let contours =
        graph_equation_2d("x", "y", &window_10(), &equation, 6, 3, &HashMap::new()).unwrap();
    assert!(!contours.is_empty());
    let mut angles: Vec<f64> = vec![];
    for c in &contours {
        for p in c {
            let (x, y) = pt(p);
            assert!(
                (x * x + y * y - 1.0).abs() < 0.1,
                "point off the circle: ({x}, {y})"
            );
            angles.push(y.atan2(x));
        }
    }
    // Full angular coverage: no arc of the circle is missing.
    angles.sort_by(|a, b| a.partial_cmp(b).unwrap());
    let mut max_gap: f64 = angles[0] + 2.0 * std::f64::consts::PI - angles[angles.len() - 1];
    for w in angles.windows(2) {
        max_gap = max_gap.max(w[1] - w[0]);
    }
    assert!(max_gap < 0.35, "the circle has a gap of {max_gap} radians");
    // Closure: endpoints pair up within the tolerance.
    let ends: Vec<(f64, f64)> = contours
        .iter()
        .flat_map(|c| [pt(c.first().unwrap()), pt(c.last().unwrap())])
        .collect();
    for (i, e) in ends.iter().enumerate() {
        let close = ends.iter().enumerate().any(|(j, o)| {
            i != j && ((e.0 - o.0).powi(2) + (e.1 - o.1).powi(2)).sqrt() < 0.1
        });
        assert!(close, "loose end at {e:?}");
    }
}

#[test]
fn sine_rings_multiply_with_radius() {
    // sin(x^2 + y^2) = 0.5: disjoint nearly circular rings whose number
    // grows with the viewport radius.
    let field = || Expression::Sin(Box::new(Expression::Plus(vec![
        Expression::Power(Box::new(var("x")), Box::new(con(2.0))),
        Expression::Power(Box::new(var("y")), Box::new(con(2.0))),
    ])));
    let equation = Equation {
        left: field(),
        right: con(0.5),
        operator: ComparisonOperator::Equal,
    };
    let window = |r: f64| GraphBox {
        x_min: (-r).to_bits(),
        x_max: r.to_bits(),
        y_min: (-r).to_bits(),
        y_max: r.to_bits(),
    };
    let small =
        graph_equation_2d("x", "y", &window(2.0), &equation, 6, 3, &HashMap::new()).unwrap();
    let large =
        graph_equation_2d("x", "y", &window(3.5), &equation, 6, 3, &HashMap::new()).unwrap();
    // Count distinct radii instead of polylines: the stitcher may leave a
    // ring in several arcs, but every arc sits on one ring.
    let distinct_radii = |cs: &Vec<Contour2D>| {
        let mut radii: Vec<f64> = vec![];
        for c in cs.iter().filter(|c| c.len() > 8) {
            let rs: Vec<f64> = c
                .iter()
                .map(|p| {
                    let (x, y) = pt(p);
                    (x * x + y * y).sqrt()
                })
                .collect();
            let mean = rs.iter().sum::<f64>() / rs.len() as f64;
            // Nearly circular: the radius barely varies along the arc.
            for r in &rs {
                assert!((r - mean).abs() < 0.2, "arc is not circular");
            }
            if !radii.iter().any(|r| (r - mean).abs() < 0.25) {
                radii.push(mean);
            }
        }
        radii.len()
    };
    let n_small = distinct_radii(&small);
    let n_large = distinct_radii(&large);
    assert!(n_small >= 2, "expected at least two rings, got {n_small}");
    assert!(
        n_large > n_small,
        "ring count should grow with the radius: {n_large} vs {n_small}"
    );
}

#[test]
fn diamond_four_corners() {
    // |x| + |y| = 1: a diamond; its four corners are visible as near
    // right-angle joins, and all points lie on the diamond.
    let equation = Equation {
        left: Expression::Plus(vec![
            Expression::Abs(Box::new(var("x"))),
            Expression::Abs(Box::new(var("y"))),
        ]),
        right: con(1.0),
        operator: ComparisonOperator::Equal,
    };
    let contours =
        graph_equation_2d("x", "y", &window_10(), &equation, 6, 3, &HashMap::new()).unwrap();
    assert!(!contours.is_empty());
    let mut near_corner = [false; 4];
    let corners = [(1.0, 0.0), (-1.0, 0.0), (0.0, 1.0), (0.0, -1.0)];
    for c in &contours {
        for p in c {
            let (x, y) = pt(p);
            assert!(
                (x.abs() + y.abs() - 1.0).abs() < 0.1,
                "point off the diamond: ({x}, {y})"
            );
            for (k, (cx, cy)) in corners.iter().enumerate() {
                if ((x - cx).powi(2) + (y - cy).powi(2)).sqrt() < 0.2 {
                    near_corner[k] = true;
                }
            }
        }
    }
    assert!(
        near_corner.iter().all(|&b| b),
        "not all four diamond corners are drawn: {near_corner:?}"
    );
}

#[test]
fn singularity_no_solution_curve() {
    // 1/x = 0 has no solutions; nothing resembling a solution curve may
    // come out.  (The domain excludes x = 0, and the reciprocal never
    // evaluates to zero.)
    let equation = Equation {
        left: Expression::Inverse(Box::new(var("x"))),
        right: con(0.0),
        operator: ComparisonOperator::Equal,
    };
    let contours =
        graph_equation_2d("x", "y", &window_10(), &equation, 6, 3, &HashMap::new()).unwrap();
    // Either nothing is emitted, or only degenerate leftovers that never
    // witness a zero of 1/x (|1/x| stays large off the axis, and the axis
    // itself is outside the domain).
    for c in &contours {
        for p in c {
            let (x, _y) = pt(p);
            assert!(
                (1.0 / x).abs() > 0.1 || !x.is_finite() || x == 0.0,
                "point claims a solution of 1/x = 0 at x = {x}"
            );
        }
    }
}

#[test]
fn flat_array_encoding_round_trip() {
    // The flat output stream holds each contour's coordinate pairs with an
    // infinity separator after every contour.
    let contours: Vec<Contour2D> = vec![
        vec![
            Point2D(1.0f64.to_bits(), 2.0f64.to_bits()),
            Point2D(3.0f64.to_bits(), 4.0f64.to_bits()),
        ],
        vec![
            Point2D(5.0f64.to_bits(), 6.0f64.to_bits()),
            Point2D(7.0f64.to_bits(), 8.0f64.to_bits()),
        ],
    ];
    let flat = contours_to_float_array(&contours);
    let floats: Vec<f64> = flat.iter().map(|b| f64::from_bits(*b)).collect();
    assert_eq!(
        floats,
        vec![
            1.0,
            2.0,
            3.0,
            4.0,
            f64::INFINITY,
            f64::INFINITY,
            5.0,
            6.0,
            7.0,
            8.0,
            f64::INFINITY,
            f64::INFINITY
        ]
    );
}
