//! Quadtree decisions: classification, build steps, collapse, edge points,
//! and leaf vertex selection.

use graphing_calculator::point::Point2D;
use graphing_calculator::quadtree::{
    build_step, classify_corners, collapse_children, collect_edge_points, choose_leaf_vertex,
    point_in_box, BuildStep, ConstrainedCandidates, CornerClass, CornerValues, EdgeData,
    GraphBox, QuadTreeLeafNode, QuadTreeNode,
};

fn corners(v0: f64, v1: f64, v2: f64, v3: f64) -> CornerValues {
    CornerValues {
        v0: v0.to_bits(),
        v1: v1.to_bits(),
        v2: v2.to_bits(),
        v3: v3.to_bits(),
    }
}

fn unit_box() -> GraphBox {
    GraphBox {
        x_min: 0.0f64.to_bits(),
        x_max: 1.0f64.to_bits(),
        y_min: 0.0f64.to_bits(),
        y_max: 1.0f64.to_bits(),
    }
}

fn p(x: f64, y: f64) -> Point2D {
    Point2D(x.to_bits(), y.to_bits())
}

#[test]
fn corner_classification() {
    assert_eq!(classify_corners(&corners(0.0, 0.0, -0.0, 0.0)), CornerClass::Zero);
    assert_eq!(classify_corners(&corners(-1.0, -2.0, -0.5, -9.0)), CornerClass::Negative);
    assert_eq!(classify_corners(&corners(1.0, 2.0, 0.5, 9.0)), CornerClass::Positive);
    // The asymmetry: a zero among positives still counts positive, but a
    // zero among negatives makes the cell interesting.
    assert_eq!(classify_corners(&corners(0.0, 2.0, 0.5, 9.0)), CornerClass::Positive);
    assert_eq!(classify_corners(&corners(0.0, -2.0, -0.5, -9.0)), CornerClass::Interesting);
    assert_eq!(classify_corners(&corners(-1.0, 2.0, 0.5, 9.0)), CornerClass::Interesting);
    // A NaN corner is neither negative nor at-least-zero.
    assert_eq!(classify_corners(&corners(f64::NAN, 2.0, 0.5, 9.0)), CornerClass::Interesting);
    // Infinities behave as their signs.
    assert_eq!(
        classify_corners(&corners(f64::INFINITY, 2.0, 0.5, 9.0)),
        CornerClass::Positive
    );
}

#[test]
fn build_step_budgets() {
    let boring = corners(1.0, 2.0, 3.0, 4.0);
    let interesting = corners(-1.0, 2.0, 3.0, 4.0);
    // While the pre-exploration budget lasts, always subdivide.
    assert_eq!(build_step(5, 2, &boring), BuildStep::Subdivide);
    assert_eq!(build_step(0, 2, &boring), BuildStep::Subdivide);
    // Once it is spent, sign-uniform cells stop.
    assert_eq!(
        build_step(5, 0, &boring),
        BuildStep::Sentinel(CornerClass::Positive)
    );
    // Interesting cells keep descending until the depth budget is spent.
    assert_eq!(build_step(5, 0, &interesting), BuildStep::Subdivide);
    assert_eq!(build_step(0, 0, &interesting), BuildStep::MakeLeaf);
    assert_eq!(build_step(-1, -2, &interesting), BuildStep::MakeLeaf);
}

#[test]
fn collapse_merges_uniform_children() {
    let r = collapse_children(
        QuadTreeNode::Zero,
        QuadTreeNode::Zero,
        QuadTreeNode::Zero,
        QuadTreeNode::Zero,
    );
    assert!(matches!(r, QuadTreeNode::Zero));
    let r = collapse_children(
        QuadTreeNode::Positive,
        QuadTreeNode::Positive,
        QuadTreeNode::Positive,
        QuadTreeNode::Positive,
    );
    assert!(matches!(r, QuadTreeNode::Positive));
    let r = collapse_children(
        QuadTreeNode::Negative,
        QuadTreeNode::Negative,
        QuadTreeNode::Negative,
        QuadTreeNode::Negative,
    );
    assert!(matches!(r, QuadTreeNode::Negative));
    // Mixed sentinels stay a root: no degenerate root is emitted.
    let r = collapse_children(
        QuadTreeNode::Positive,
        QuadTreeNode::Negative,
        QuadTreeNode::Positive,
        QuadTreeNode::Positive,
    );
    match r {
        QuadTreeNode::Root(root) => {
            assert!(matches!(root.sw, QuadTreeNode::Positive));
            assert!(matches!(root.se, QuadTreeNode::Negative));
        }
        _ => panic!("mixed children must stay a root"),
    }
    // A leaf child also prevents collapsing.
    let leaf = QuadTreeNode::Leaf(QuadTreeLeafNode {
        edge_points: vec![],
        vertex: p(0.5, 0.5),
    });
    let r = collapse_children(leaf, QuadTreeNode::Zero, QuadTreeNode::Zero, QuadTreeNode::Zero);
    assert!(matches!(r, QuadTreeNode::Root(_)));
}

#[test]
fn quadrants_and_corners() {
    let area = GraphBox {
        x_min: (-2.0f64).to_bits(),
        x_max: 2.0f64.to_bits(),
        y_min: 0.0f64.to_bits(),
        y_max: 4.0f64.to_bits(),
    };
    assert_eq!(area.get_corner(0), ((-2.0f64).to_bits(), 0.0f64.to_bits()));
    assert_eq!(area.get_corner(3), (2.0f64.to_bits(), 4.0f64.to_bits()));
    let x_mid = 0.0f64.to_bits();
    let y_mid = 2.0f64.to_bits();
    let se = area.get_quadrant(1, x_mid, y_mid);
    assert_eq!(f64::from_bits(se.x_min), 0.0);
    assert_eq!(f64::from_bits(se.x_max), 2.0);
    assert_eq!(f64::from_bits(se.y_min), 0.0);
    assert_eq!(f64::from_bits(se.y_max), 2.0);
}

#[test]
fn edge_points_in_collection_order() {
    let area = unit_box();
    // Corner 1 (south-east) is exactly zero; the left edge changes sign.
    let c = corners(-1.0, 0.0, 2.0, 3.0);
    let products = EdgeData {
        bottom: (-1.0f64 * 0.0).to_bits(),
        left: (-1.0f64 * 2.0).to_bits(),
        right: (0.0f64 * 3.0).to_bits(),
        top: (2.0f64 * 3.0).to_bits(),
    };
    // The left-edge crossing sits where the linear interpolation crosses
    // zero: t = 1/3 of the way up.
    let left_cross: f64 = 0.0 + (1.0 / 3.0) * (1.0 - 0.0);
    let crossings = EdgeData {
        bottom: 0.5f64.to_bits(),
        left: left_cross.to_bits(),
        right: 0.5f64.to_bits(),
        top: 0.5f64.to_bits(),
    };
    let pts = collect_edge_points(&area, &c, &products, &crossings);
    // First the zero corner, then the crossing on the left edge; the
    // bottom edge's product is -0.0, which is not negative.
    assert_eq!(pts, vec![p(1.0, 0.0), p(0.0, left_cross)]);
}

#[test]
fn no_edge_points_on_uniform_cell() {
    let area = unit_box();
    let c = corners(1.0, 2.0, 3.0, 4.0);
    let products = EdgeData {
        bottom: 2.0f64.to_bits(),
        left: 3.0f64.to_bits(),
        right: 8.0f64.to_bits(),
        top: 12.0f64.to_bits(),
    };
    let crossings = EdgeData {
        bottom: 0.0f64.to_bits(),
        left: 0.0f64.to_bits(),
        right: 0.0f64.to_bits(),
        top: 0.0f64.to_bits(),
    };
    let pts = collect_edge_points(&area, &c, &products, &crossings);
    assert!(pts.is_empty());
}

#[test]
fn point_in_box_is_closed() {
    let area = unit_box();
    assert!(point_in_box(&area, p(0.0, 0.0)));
    assert!(point_in_box(&area, p(1.0, 1.0)));
    assert!(point_in_box(&area, p(0.5, 0.25)));
    assert!(!point_in_box(&area, p(-0.1, 0.5)));
    assert!(!point_in_box(&area, p(0.5, 1.1)));
    assert!(!point_in_box(&area, p(f64::NAN, 0.5)));
}

#[test]
fn vertex_selection_prefers_the_unconstrained_candidate() {
    let area = unit_box();
    let inside = p(0.25, 0.75);
    let cand = ConstrainedCandidates {
        s0: p(0.0, 0.5),
        s1: p(1.0, 0.5),
        s2: p(0.5, 0.0),
        s3: p(0.5, 1.0),
        e0: 1.0f64.to_bits(),
        e1: 2.0f64.to_bits(),
        e2: 3.0f64.to_bits(),
        e3: 4.0f64.to_bits(),
    };
    assert_eq!(choose_leaf_vertex(&area, inside, &cand), inside);
}

#[test]
fn vertex_selection_takes_least_error_constrained_candidate() {
    let area = unit_box();
    let outside = p(2.0, 2.0);
    let cand = ConstrainedCandidates {
        s0: p(0.0, 0.5),
        s1: p(1.0, 0.25),
        s2: p(0.5, 0.0),
        s3: p(0.5, 1.0),
        e0: 3.0f64.to_bits(),
        e1: 0.5f64.to_bits(),
        e2: 1.0f64.to_bits(),
        e3: 4.0f64.to_bits(),
    };
    assert_eq!(choose_leaf_vertex(&area, outside, &cand), p(1.0, 0.25));
}

#[test]
fn vertex_selection_first_wins_ties_and_filters_invalid() {
    let area = unit_box();
    let outside = p(2.0, 2.0);
    // Candidate 0 is invalid (its free y coordinate is out of the cell);
    // candidates 1 and 2 tie on error, so the earlier one wins.
    let cand = ConstrainedCandidates {
        s0: p(0.0, 7.0),
        s1: p(1.0, 0.25),
        s2: p(0.5, 0.0),
        s3: p(0.5, 1.0),
        e0: 0.0f64.to_bits(),
        e1: 1.0f64.to_bits(),
        e2: 1.0f64.to_bits(),
        e3: 4.0f64.to_bits(),
    };
    assert_eq!(choose_leaf_vertex(&area, outside, &cand), p(1.0, 0.25));
}

#[test]
fn vertex_selection_falls_back_to_south_west_corner() {
    let area = unit_box();
    let outside = p(2.0, 2.0);
    // All four constrained candidates fail their free-axis test.
    let cand = ConstrainedCandidates {
        s0: p(0.0, 7.0),
        s1: p(1.0, -3.0),
        s2: p(9.0, 0.0),
        s3: p(-9.0, 1.0),
        e0: 0.0f64.to_bits(),
        e1: 0.0f64.to_bits(),
        e2: 0.0f64.to_bits(),
        e3: 0.0f64.to_bits(),
    };
    assert_eq!(choose_leaf_vertex(&area, outside, &cand), p(0.0, 0.0));
}
