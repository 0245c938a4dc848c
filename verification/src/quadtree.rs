//! The adaptive quadtree over a viewport.
//!
//! The tree is refined where the sign of the graphed function varies.  The
//! caller samples the function at cell corners (binary64 bit patterns, see
//! `ieee`) and drives the recursion; every decision taken on those samples —
//! corner-sign classification, when to descend, when a cell becomes a leaf,
//! the collapse of sign-uniform subtrees, which cell edges carry a crossing,
//! and which candidate vertex a leaf keeps — is made and verified here.
//!
//! Quadrant and corner indexing: 0 = south-west, 1 = south-east,
//! 2 = north-west, 3 = north-east.

use crate::ieee::{
    is_ge_zero_bits, is_neg_bits, is_zero_bits, le_bits, lt_bits, ge_zero_bits, neg_bits,
    zero_bits, bits_le, bits_lt,
};
use crate::point::{Point2D, Segment2D};
use vstd::prelude::*;

verus! {

broadcast use vstd::std_specs::vec::group_vec_axioms, vstd::seq::group_seq_axioms;

/// An axis-aligned rectangle of the plane, each bound an encoded binary64
/// value.  A well-formed box has finite bounds with `x_min < x_max` and
/// `y_min < y_max`.
#[derive(Clone, Copy, PartialEq, Eq, Structural, Debug)]
pub struct GraphBox {
    pub x_min: u64,
    pub x_max: u64,
    pub y_min: u64,
    pub y_max: u64,
}

/// The point lies in the closed rectangle, under the IEEE order of the
/// encoded coordinates.
pub open spec fn in_box(area: GraphBox, p: Point2D) -> bool {
    le_bits(area.x_min, p.0) && le_bits(p.0, area.x_max) && le_bits(area.y_min, p.1) && le_bits(
        p.1,
        area.y_max,
    )
}

impl GraphBox {
    /// A box from its four bounds.
    pub fn new(x_min: u64, x_max: u64, y_min: u64, y_max: u64) -> (r: GraphBox)
        ensures
            r == (GraphBox { x_min, x_max, y_min, y_max }),
    {
        GraphBox { x_min, x_max, y_min, y_max }
    }

    /// The corner with the given index, in the south-west, south-east,
    /// north-west, north-east order.
    pub fn get_corner(&self, index: u64) -> (r: (u64, u64))
        requires
            index < 4,
        ensures
            index == 0 ==> r == (self.x_min, self.y_min),
            index == 1 ==> r == (self.x_max, self.y_min),
            index == 2 ==> r == (self.x_min, self.y_max),
            index == 3 ==> r == (self.x_max, self.y_max),
    {
        match index {
            0 => (self.x_min, self.y_min),
            1 => (self.x_max, self.y_min),
            2 => (self.x_min, self.y_max),
            _ => (self.x_max, self.y_max),
        }
    }

    /// The quadrant with the given index.  The caller supplies the midpoints
    /// of the two axes, which are means of the bounds and so not decidable
    /// from the bits here.
    pub fn get_quadrant(&self, index: u64, x_mid: u64, y_mid: u64) -> (r: GraphBox)
        requires
            index < 4,
        ensures
            index == 0 ==> r == (GraphBox {
                x_min: self.x_min,
                x_max: x_mid,
                y_min: self.y_min,
                y_max: y_mid,
            }),
            index == 1 ==> r == (GraphBox {
                x_min: x_mid,
                x_max: self.x_max,
                y_min: self.y_min,
                y_max: y_mid,
            }),
            index == 2 ==> r == (GraphBox {
                x_min: self.x_min,
                x_max: x_mid,
                y_min: y_mid,
                y_max: self.y_max,
            }),
            index == 3 ==> r == (GraphBox {
                x_min: x_mid,
                x_max: self.x_max,
                y_min: y_mid,
                y_max: self.y_max,
            }),
    {
        match index {
            0 => GraphBox { x_min: self.x_min, x_max: x_mid, y_min: self.y_min, y_max: y_mid },
            1 => GraphBox { x_min: x_mid, x_max: self.x_max, y_min: self.y_min, y_max: y_mid },
            2 => GraphBox { x_min: self.x_min, x_max: x_mid, y_min: y_mid, y_max: self.y_max },
            _ => GraphBox { x_min: x_mid, x_max: self.x_max, y_min: y_mid, y_max: self.y_max },
        }
    }
}

/// Whether the point lies in the closed rectangle.
pub fn point_in_box(area: &GraphBox, p: Point2D) -> (r: bool)
    ensures
        r == in_box(*area, p),
{
    bits_le(area.x_min, p.0) && bits_le(p.0, area.x_max) && bits_le(area.y_min, p.1) && bits_le(
        p.1,
        area.y_max,
    )
}

/// The function values at the four corners of a cell, in index order.
#[derive(Clone, Copy, PartialEq, Eq, Structural, Debug)]
pub struct CornerValues {
    pub v0: u64,
    pub v1: u64,
    pub v2: u64,
    pub v3: u64,
}

/// One encoded value per cell edge, in the bottom, left, right, top order in
/// which edges are examined.
#[derive(Clone, Copy, PartialEq, Eq, Structural, Debug)]
pub struct EdgeData {
    pub bottom: u64,
    pub left: u64,
    pub right: u64,
    pub top: u64,
}

/// What the four corner samples of a cell say about the sign of the function
/// over the cell.
#[derive(Clone, Copy, PartialEq, Eq, Structural, Debug)]
pub enum CornerClass {
    /// All four values are zero.
    Zero,
    /// All four values are strictly negative.
    Negative,
    /// All four values compare `>= 0.0` (zero corners count as positive
    /// here, and not all of them are zero).
    Positive,
    /// The signs disagree, or a NaN is among the values: the cell may carry
    /// the contour.
    Interesting,
}

/// The classification of four corner values, in the order the tests are
/// made: all zero, all strictly negative, all at least zero, interesting.
pub open spec fn spec_classify(c: CornerValues) -> CornerClass {
    if is_zero_bits(c.v0) && is_zero_bits(c.v1) && is_zero_bits(c.v2) && is_zero_bits(c.v3) {
        CornerClass::Zero
    } else if is_neg_bits(c.v0) && is_neg_bits(c.v1) && is_neg_bits(c.v2) && is_neg_bits(c.v3) {
        CornerClass::Negative
    } else if is_ge_zero_bits(c.v0) && is_ge_zero_bits(c.v1) && is_ge_zero_bits(c.v2)
        && is_ge_zero_bits(c.v3) {
        CornerClass::Positive
    } else {
        CornerClass::Interesting
    }
}

/// Classifies the four corner values of a cell.
pub fn classify_corners(c: &CornerValues) -> (r: CornerClass)
    ensures
        r == spec_classify(*c),
{
    if zero_bits(c.v0) && zero_bits(c.v1) && zero_bits(c.v2) && zero_bits(c.v3) {
        CornerClass::Zero
    } else if neg_bits(c.v0) && neg_bits(c.v1) && neg_bits(c.v2) && neg_bits(c.v3) {
        CornerClass::Negative
    } else if ge_zero_bits(c.v0) && ge_zero_bits(c.v1) && ge_zero_bits(c.v2) && ge_zero_bits(c.v3) {
        CornerClass::Positive
    } else {
        CornerClass::Interesting
    }
}

/// What the tree builder does with a cell.
#[derive(Clone, Copy, PartialEq, Eq, Structural, Debug)]
pub enum BuildStep {
    /// Stop with the sign-uniform sentinel of the classification.
    Sentinel(CornerClass),
    /// Subdivide into the four quadrants.
    Subdivide,
    /// The refinement budget is spent on an interesting cell: build a leaf.
    MakeLeaf,
}

/// The builder's decision for a cell.  While `search_depth > 0` the builder
/// always descends; afterwards a sign-uniform cell stops as a sentinel, and
/// an interesting cell descends until `depth` is spent and becomes a leaf.
pub open spec fn spec_build_step(depth: i64, search_depth: i64, c: CornerValues) -> BuildStep {
    if search_depth <= 0 {
        if spec_classify(c) is Interesting {
            if depth <= 0 {
                BuildStep::MakeLeaf
            } else {
                BuildStep::Subdivide
            }
        } else {
            BuildStep::Sentinel(spec_classify(c))
        }
    } else {
        BuildStep::Subdivide
    }
}

/// Decides what the tree builder does with a cell whose corner samples are
/// `c`, given the two remaining budgets.
pub fn build_step(depth: i64, search_depth: i64, c: &CornerValues) -> (r: BuildStep)
    ensures
        r == spec_build_step(depth, search_depth, *c),
{
    if search_depth <= 0 {
        let class = classify_corners(c);
        match class {
            CornerClass::Interesting => {
                if depth <= 0 {
                    BuildStep::MakeLeaf
                } else {
                    BuildStep::Subdivide
                }
            },
            _ => BuildStep::Sentinel(class),
        }
    } else {
        BuildStep::Subdivide
    }
}

/// A pre-exploration budget of zero never descends into a cell whose four
/// corners share a strict sign: such a cell always stops as the matching
/// sign-uniform sentinel, whatever `depth` remains.
pub proof fn law_uniform_sign_cell_collapses(depth: i64, search_depth: i64, c: CornerValues)
    requires
        search_depth <= 0,
        (is_neg_bits(c.v0) && is_neg_bits(c.v1) && is_neg_bits(c.v2) && is_neg_bits(c.v3)) || (
        is_ge_zero_bits(c.v0) && is_ge_zero_bits(c.v1) && is_ge_zero_bits(c.v2) && is_ge_zero_bits(
            c.v3,
        )),
    ensures
        spec_build_step(depth, search_depth, c) is Sentinel,
        !(spec_build_step(depth, search_depth, c) is Subdivide),
{
}

/// A node of the quadtree.
#[derive(Debug)]
pub enum QuadTreeNode {
    /// An interior node with its four quadrant subtrees.
    Root(Box<QuadTreeRootNode>),
    /// An interesting cell at the bottom of the refinement.
    Leaf(QuadTreeLeafNode),
    /// A subtree over which the sampled function was zero everywhere.
    Zero,
    /// A subtree over which the sampled function was strictly negative.
    Negative,
    /// A subtree over which the sampled function was at least zero.
    Positive,
}

/// The four quadrant subtrees of an interior node.
#[derive(Debug)]
pub struct QuadTreeRootNode {
    pub sw: QuadTreeNode,
    pub se: QuadTreeNode,
    pub nw: QuadTreeNode,
    pub ne: QuadTreeNode,
}

/// The geometry of an interesting cell: the contour's crossing points on the
/// cell edges, and the one representative vertex of the cell.
#[derive(Debug)]
pub struct QuadTreeLeafNode {
    pub edge_points: Vec<Point2D>,
    pub vertex: Point2D,
}

/// The four children are the same sign-uniform sentinel.
pub open spec fn all_same_sentinel(r: QuadTreeRootNode) -> bool {
    (r.sw is Zero && r.se is Zero && r.nw is Zero && r.ne is Zero) || (r.sw is Negative
        && r.se is Negative && r.nw is Negative && r.ne is Negative) || (r.sw is Positive
        && r.se is Positive && r.nw is Positive && r.ne is Positive)
}

/// No interior node of the tree keeps four children that are the same
/// sentinel: such a node is collapsed at construction.
pub open spec fn wf_tree(n: QuadTreeNode) -> bool
    decreases n,
{
    match n {
        QuadTreeNode::Root(r) => !all_same_sentinel(*r) && wf_tree(r.sw) && wf_tree(r.se)
            && wf_tree(r.nw) && wf_tree(r.ne),
        _ => true,
    }
}

/// Joins four built quadrant subtrees into one node, collapsing four copies
/// of the same sentinel into that sentinel.  The result is well-formed
/// whenever the four children are, which is the tree invariant: no emitted
/// interior node has four identical sentinel children.
pub fn collapse_children(
    sw: QuadTreeNode,
    se: QuadTreeNode,
    nw: QuadTreeNode,
    ne: QuadTreeNode,
) -> (r: QuadTreeNode)
    ensures
        all_same_sentinel(QuadTreeRootNode { sw, se, nw, ne }) ==> (r == sw),
        !all_same_sentinel(QuadTreeRootNode { sw, se, nw, ne }) ==> r == QuadTreeNode::Root(
            Box::new(QuadTreeRootNode { sw, se, nw, ne }),
        ),
        wf_tree(sw) && wf_tree(se) && wf_tree(nw) && wf_tree(ne) ==> wf_tree(r),
{
    let all_zero = matches!(sw, QuadTreeNode::Zero) && matches!(se, QuadTreeNode::Zero) && matches!(
        nw,
        QuadTreeNode::Zero,
    ) && matches!(ne, QuadTreeNode::Zero);
    if all_zero {
        return QuadTreeNode::Zero;
    }
    let all_pos = matches!(sw, QuadTreeNode::Positive) && matches!(se, QuadTreeNode::Positive)
        && matches!(nw, QuadTreeNode::Positive) && matches!(ne, QuadTreeNode::Positive);
    if all_pos {
        return QuadTreeNode::Positive;
    }
    let all_neg = matches!(sw, QuadTreeNode::Negative) && matches!(se, QuadTreeNode::Negative)
        && matches!(nw, QuadTreeNode::Negative) && matches!(ne, QuadTreeNode::Negative);
    if all_neg {
        return QuadTreeNode::Negative;
    }
    QuadTreeNode::Root(Box::new(QuadTreeRootNode { sw, se, nw, ne }))
}

/// The edge points of an interesting cell, in collection order: first each
/// corner whose sampled value is exactly zero (indices 0 to 3), then, for
/// each of the four edges in the bottom, left, right, top order whose two
/// corner values have strictly opposite signs (their product, sampled by the
/// caller, is negative), the crossing point interpolated by the caller.
/// The corner points collected first: each corner whose sampled value is
/// exactly zero, in index order.
pub open spec fn spec_corner_points(area: GraphBox, c: CornerValues) -> Seq<Point2D> {
    (if is_zero_bits(c.v0) {
        seq![Point2D(area.x_min, area.y_min)]
    } else {
        Seq::empty()
    }) + (if is_zero_bits(c.v1) {
        seq![Point2D(area.x_max, area.y_min)]
    } else {
        Seq::empty()
    }) + (if is_zero_bits(c.v2) {
        seq![Point2D(area.x_min, area.y_max)]
    } else {
        Seq::empty()
    }) + (if is_zero_bits(c.v3) {
        seq![Point2D(area.x_max, area.y_max)]
    } else {
        Seq::empty()
    })
}

/// The crossing points collected second: for each of the four edges in the
/// bottom, left, right, top order whose two corner values have strictly
/// opposite signs (their product, sampled by the caller, is negative), the
/// crossing point interpolated by the caller.
pub open spec fn spec_crossing_points(
    area: GraphBox,
    products: EdgeData,
    crossings: EdgeData,
) -> Seq<Point2D> {
    (if is_neg_bits(products.bottom) {
        seq![Point2D(crossings.bottom, area.y_min)]
    } else {
        Seq::empty()
    }) + (if is_neg_bits(products.left) {
        seq![Point2D(area.x_min, crossings.left)]
    } else {
        Seq::empty()
    }) + (if is_neg_bits(products.right) {
        seq![Point2D(area.x_max, crossings.right)]
    } else {
        Seq::empty()
    }) + (if is_neg_bits(products.top) {
        seq![Point2D(crossings.top, area.y_max)]
    } else {
        Seq::empty()
    })
}

/// The edge points of an interesting cell, in collection order: the zero
/// corners first, then the sign-change crossings.
pub open spec fn spec_edge_points(
    area: GraphBox,
    c: CornerValues,
    products: EdgeData,
    crossings: EdgeData,
) -> Seq<Point2D> {
    spec_corner_points(area, c) + spec_crossing_points(area, products, crossings)
}

fn collect_corner_points(area: &GraphBox, c: &CornerValues) -> (pts: Vec<Point2D>)
    ensures
        pts@ == spec_corner_points(*area, *c),
{
    let mut pts: Vec<Point2D> = Vec::new();
    if zero_bits(c.v0) {
        pts.push(Point2D(area.x_min, area.y_min));
    }
    if zero_bits(c.v1) {
        pts.push(Point2D(area.x_max, area.y_min));
    }
    if zero_bits(c.v2) {
        pts.push(Point2D(area.x_min, area.y_max));
    }
    if zero_bits(c.v3) {
        pts.push(Point2D(area.x_max, area.y_max));
    }
    proof {
        assert(pts@ =~= spec_corner_points(*area, *c));
    }
    pts
}

fn collect_crossing_points(
    area: &GraphBox,
    products: &EdgeData,
    crossings: &EdgeData,
) -> (pts: Vec<Point2D>)
    ensures
        pts@ == spec_crossing_points(*area, *products, *crossings),
{
    let mut pts: Vec<Point2D> = Vec::new();
    if neg_bits(products.bottom) {
        pts.push(Point2D(crossings.bottom, area.y_min));
    }
    if neg_bits(products.left) {
        pts.push(Point2D(area.x_min, crossings.left));
    }
    if neg_bits(products.right) {
        pts.push(Point2D(area.x_max, crossings.right));
    }
    if neg_bits(products.top) {
        pts.push(Point2D(crossings.top, area.y_max));
    }
    proof {
        assert(pts@ =~= spec_crossing_points(*area, *products, *crossings));
    }
    pts
}

/// Collects the edge points of an interesting cell.  `c` holds the corner
/// values, `products` the pairwise products of the two corner values across
/// each edge, and `crossings` the linearly interpolated crossing coordinate
/// for each edge (the varying coordinate; it is paired here with the fixed
/// one).
pub fn collect_edge_points(
    area: &GraphBox,
    c: &CornerValues,
    products: &EdgeData,
    crossings: &EdgeData,
) -> (pts: Vec<Point2D>)
    ensures
        pts@ == spec_edge_points(*area, *c, *products, *crossings),
{
    let mut pts = collect_corner_points(area, c);
    let mut cross = collect_crossing_points(area, products, crossings);
    pts.append(&mut cross);
    pts
}

/// Every collected edge point lies on one of the four edges of its cell:
/// at least one of its coordinates is pinned to a cell boundary.
pub proof fn law_edge_points_on_cell_edges(
    area: GraphBox,
    c: CornerValues,
    products: EdgeData,
    crossings: EdgeData,
)
    ensures
        forall|k: int|
            0 <= k < spec_edge_points(area, c, products, crossings).len() ==> {
                let p = #[trigger] spec_edge_points(area, c, products, crossings)[k];
                p.0 == area.x_min || p.0 == area.x_max || p.1 == area.y_min || p.1 == area.y_max
            },
{
    let pts = spec_edge_points(area, c, products, crossings);
    assert forall|k: int| 0 <= k < pts.len() implies {
        let p = #[trigger] pts[k];
        p.0 == area.x_min || p.0 == area.x_max || p.1 == area.y_min || p.1 == area.y_max
    } by {
        let cp = spec_corner_points(area, c);
        let xp = spec_crossing_points(area, products, crossings);
        if k < cp.len() {
            assert(pts[k] == cp[k]);
        } else {
            assert(pts[k] == xp[k - cp.len()]);
        }
    }
}

/// The four box-edge-constrained candidate vertices of a cell and the
/// least-squares error of each, in the `x = x_min`, `x = x_max`,
/// `y = y_min`, `y = y_max` order.
#[derive(Clone, Copy, PartialEq, Eq, Structural, Debug)]
pub struct ConstrainedCandidates {
    pub s0: Point2D,
    pub s1: Point2D,
    pub s2: Point2D,
    pub s3: Point2D,
    pub e0: u64,
    pub e1: u64,
    pub e2: u64,
    pub e3: u64,
}

/// The first candidate of the list whose error no later candidate strictly
/// undercuts, scanning left to right.
pub open spec fn spec_best_candidate(s: Seq<(Point2D, u64)>, best: (Point2D, u64)) -> Point2D
    decreases s,
{
    if s.len() == 0 {
        best.0
    } else if lt_bits(s[0].1, best.1) {
        spec_best_candidate(s.drop_first(), s[0])
    } else {
        spec_best_candidate(s.drop_first(), best)
    }
}

/// The candidates of the constrained solve that stay within the cell on
/// their free axis: the first two pin x, so their y must lie within the
/// cell's y range; the last two pin y, so their x must lie within the x
/// range.
pub open spec fn spec_valid_candidates(area: GraphBox, cand: ConstrainedCandidates) -> Seq<
    (Point2D, u64),
> {
    (if le_bits(area.y_min, cand.s0.1) && le_bits(cand.s0.1, area.y_max) {
        seq![(cand.s0, cand.e0)]
    } else {
        Seq::empty()
    }) + (if le_bits(area.y_min, cand.s1.1) && le_bits(cand.s1.1, area.y_max) {
        seq![(cand.s1, cand.e1)]
    } else {
        Seq::empty()
    }) + (if le_bits(area.x_min, cand.s2.0) && le_bits(cand.s2.0, area.x_max) {
        seq![(cand.s2, cand.e2)]
    } else {
        Seq::empty()
    }) + (if le_bits(area.x_min, cand.s3.0) && le_bits(cand.s3.0, area.x_max) {
        seq![(cand.s3, cand.e3)]
    } else {
        Seq::empty()
    })
}

/// The vertex a leaf keeps, given the unconstrained least-squares candidate
/// and the four constrained ones: the unconstrained candidate if it lies in
/// the closed cell; otherwise the valid constrained candidate with the least
/// error (the earliest wins ties); otherwise the cell's south-west corner.
pub open spec fn spec_choose_vertex(
    area: GraphBox,
    unconstrained: Point2D,
    cand: ConstrainedCandidates,
) -> Point2D {
    if in_box(area, unconstrained) {
        unconstrained
    } else {
        let valid = spec_valid_candidates(area, cand);
        if valid.len() > 0 {
            spec_best_candidate(valid.drop_first(), valid[0])
        } else {
            Point2D(area.x_min, area.y_min)
        }
    }
}

/// Chooses the vertex of a leaf cell from the caller's solver outputs: the
/// unconstrained candidate (or the edge-point mean where the normal system
/// was singular), and the four constrained candidates with their errors.
pub fn choose_leaf_vertex(
    area: &GraphBox,
    unconstrained: Point2D,
    cand: &ConstrainedCandidates,
) -> (r: Point2D)
    ensures
        r == spec_choose_vertex(*area, unconstrained, *cand),
        in_box(*area, unconstrained) ==> r == unconstrained,
{
    if point_in_box(area, unconstrained) {
        return unconstrained;
    }
    let mut valid: Vec<(Point2D, u64)> = Vec::new();
    if bits_le(area.y_min, cand.s0.1) && bits_le(cand.s0.1, area.y_max) {
        valid.push((cand.s0, cand.e0));
    }
    if bits_le(area.y_min, cand.s1.1) && bits_le(cand.s1.1, area.y_max) {
        valid.push((cand.s1, cand.e1));
    }
    if bits_le(area.x_min, cand.s2.0) && bits_le(cand.s2.0, area.x_max) {
        valid.push((cand.s2, cand.e2));
    }
    if bits_le(area.x_min, cand.s3.0) && bits_le(cand.s3.0, area.x_max) {
        valid.push((cand.s3, cand.e3));
    }
    proof {
        assert(valid@ =~= spec_valid_candidates(*area, *cand));
    }
    if valid.len() == 0 {
        return Point2D(area.x_min, area.y_min);
    }
    let mut best = valid[0];
    let mut k: usize = 1;
    while k < valid.len()
        invariant
            1 <= k <= valid@.len(),
            spec_best_candidate(valid@.drop_first(), valid@[0]) == spec_best_candidate(
                valid@.skip(k as int),
                best,
            ),
        decreases valid@.len() - k,
    {
        proof {
            assert(valid@.skip(k as int).drop_first() =~= valid@.skip(k as int + 1));
            assert(valid@.skip(k as int)[0] == valid@[k as int]);
        }
        if bits_lt(valid[k].1, best.1) {
            best = valid[k];
        }
        k += 1;
    }
    proof {
        assert(valid@.skip(valid@.len() as int) =~= Seq::<(Point2D, u64)>::empty());
    }
    best.0
}

/// A well-formed box: finite bounds, ordered on both axes.
pub open spec fn wf_box(area: GraphBox) -> bool {
    crate::ieee::is_finite_bits(area.x_min) && crate::ieee::is_finite_bits(area.x_max)
        && crate::ieee::is_finite_bits(area.y_min) && crate::ieee::is_finite_bits(area.y_max)
        && lt_bits(area.x_min, area.x_max) && lt_bits(area.y_min, area.y_max)
}

proof fn lemma_best_candidate_is_one(s: Seq<(Point2D, u64)>, best: (Point2D, u64))
    ensures
        spec_best_candidate(s, best) == best.0 || exists|i: int|
            0 <= i < s.len() && #[trigger] s[i].0 == spec_best_candidate(s, best),
    decreases s,
{
    if s.len() > 0 {
        if lt_bits(s[0].1, best.1) {
            lemma_best_candidate_is_one(s.drop_first(), s[0]);
            if spec_best_candidate(s, best) == s[0].0 {
                assert(s[0].0 == spec_best_candidate(s, best));
            } else {
                let i = choose|i: int|
                    0 <= i < s.drop_first().len() && #[trigger] s.drop_first()[i].0
                        == spec_best_candidate(s.drop_first(), s[0]);
                assert(s[i + 1].0 == spec_best_candidate(s, best));
            }
        } else {
            lemma_best_candidate_is_one(s.drop_first(), best);
            if spec_best_candidate(s, best) != best.0 {
                let i = choose|i: int|
                    0 <= i < s.drop_first().len() && #[trigger] s.drop_first()[i].0
                        == spec_best_candidate(s.drop_first(), best);
                assert(s[i + 1].0 == spec_best_candidate(s, best));
            }
        }
    }
}

/// The vertex chosen for a leaf lies in the closed cell, provided the box is
/// well-formed and each box-edge-constrained candidate lies on its pinned
/// cell edge (the free axis is checked by the selection itself).
pub proof fn law_leaf_vertex_in_cell(
    area: GraphBox,
    unconstrained: Point2D,
    cand: ConstrainedCandidates,
)
    requires
        wf_box(area),
        le_bits(area.x_min, cand.s0.0) && le_bits(cand.s0.0, area.x_max),
        le_bits(area.x_min, cand.s1.0) && le_bits(cand.s1.0, area.x_max),
        le_bits(area.y_min, cand.s2.1) && le_bits(cand.s2.1, area.y_max),
        le_bits(area.y_min, cand.s3.1) && le_bits(cand.s3.1, area.y_max),
    ensures
        in_box(area, spec_choose_vertex(area, unconstrained, cand)),
{
    let r = spec_choose_vertex(area, unconstrained, cand);
    if in_box(area, unconstrained) {
    } else {
        let valid = spec_valid_candidates(area, cand);
        assert forall|i: int| 0 <= i < valid.len() implies in_box(area, #[trigger] valid[i].0) by {
            assert(valid[i] == (cand.s0, cand.e0) || valid[i] == (cand.s1, cand.e1) || valid[i] == (
                cand.s2,
                cand.e2,
            ) || valid[i] == (cand.s3, cand.e3));
        }
        if valid.len() > 0 {
            lemma_best_candidate_is_one(valid.drop_first(), valid[0]);
            if r == valid[0].0 {
            } else {
                let i = choose|i: int|
                    0 <= i < valid.drop_first().len() && #[trigger] valid.drop_first()[i].0 == r;
                assert(valid[i + 1].0 == r);
            }
        } else {
            assert(r == Point2D(area.x_min, area.y_min));
        }
    }
}

/// The segments contributed by a subtree: every leaf yields one segment from
/// each of its edge points to its vertex, in edge-point order, leaves walked
/// in the south-west, south-east, north-west, north-east order.
pub open spec fn spec_segments(n: QuadTreeNode) -> Seq<Segment2D>
    decreases n,
{
    match n {
        QuadTreeNode::Root(r) => spec_segments(r.sw) + spec_segments(r.se) + spec_segments(r.nw)
            + spec_segments(r.ne),
        QuadTreeNode::Leaf(l) => Seq::new(
            l.edge_points@.len(),
            |i: int| Segment2D(l.edge_points@[i], l.vertex),
        ),
        _ => Seq::empty(),
    }
}

/// Collects the per-leaf segments of the tree.
pub fn get_segments(n: &QuadTreeNode) -> (segs: Vec<Segment2D>)
    ensures
        segs@ == spec_segments(*n),
    decreases *n,
{
    match n {
        QuadTreeNode::Root(r) => {
            let mut segs = get_segments(&r.sw);
            let mut segs_se = get_segments(&r.se);
            let mut segs_nw = get_segments(&r.nw);
            let mut segs_ne = get_segments(&r.ne);
            segs.append(&mut segs_se);
            segs.append(&mut segs_nw);
            segs.append(&mut segs_ne);
            segs
        },
        QuadTreeNode::Leaf(l) => {
            let mut segs: Vec<Segment2D> = Vec::new();
            let mut i: usize = 0;
            while i < l.edge_points.len()
                invariant
                    0 <= i <= l.edge_points@.len(),
                    segs@.len() == i,
                    forall|j: int|
                        0 <= j < i ==> segs@[j] == Segment2D(l.edge_points@[j], l.vertex),
                decreases l.edge_points@.len() - i,
            {
                let p = l.edge_points[i];
                segs.push(Segment2D(p, l.vertex));
                i += 1;
            }
            proof {
                assert(segs@ =~= spec_segments(*n));
            }
            segs
        },
        _ => Vec::new(),
    }
}

} // verus!
