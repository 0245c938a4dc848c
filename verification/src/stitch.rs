//! The stitcher: joins per-cell segments into polylines.
//!
//! Each interesting quadtree cell contributes short segments from an edge
//! point to the cell's vertex.  The stitcher greedily grows polylines by
//! attaching every incoming segment to the first open polyline whose first
//! or last point equals one of the segment's endpoints (bit-exact equality),
//! and starts a new two-point polyline when none matches.
//!
//! The joining is specified exactly (`spec_stitch`), and two derived
//! guarantees are proved of it: conservation — the multiset of unordered
//! endpoint pairs of the output polylines' edges equals the multiset of
//! unordered endpoint pairs of the input segments — and that every
//! polyline has at least two points.

use crate::point::{Contour2D, Point2D, Segment2D};
use vstd::multiset::Multiset;
use vstd::prelude::*;

verus! {

broadcast use vstd::std_specs::vec::group_vec_axioms, vstd::seq::group_seq_axioms, vstd::multiset::group_multiset_axioms, vstd::multiset::group_multiset_properties;

/// Lexicographic order of two points, as raw bit patterns.
pub open spec fn point_le(a: Point2D, b: Point2D) -> bool {
    a.0 < b.0 || (a.0 == b.0 && a.1 <= b.1)
}

/// An unordered endpoint pair, normalised so that the lexicographically
/// smaller point comes first.
pub open spec fn norm_edge(a: Point2D, b: Point2D) -> (Point2D, Point2D) {
    if point_le(a, b) {
        (a, b)
    } else {
        (b, a)
    }
}

/// The multiset of unordered edges of one polyline.
pub open spec fn contour_edges(c: Seq<Point2D>) -> Multiset<(Point2D, Point2D)>
    decreases c,
{
    if c.len() < 2 {
        Multiset::empty()
    } else {
        contour_edges(c.drop_last()).insert(norm_edge(c[c.len() - 2], c.last()))
    }
}

/// The multiset of unordered edges of a list of polylines.
pub open spec fn contours_edges(cs: Seq<Contour2D>) -> Multiset<(Point2D, Point2D)>
    decreases cs,
{
    if cs.len() == 0 {
        Multiset::empty()
    } else {
        contours_edges(cs.drop_last()).add(contour_edges(cs.last()@))
    }
}

/// The multiset of unordered endpoint pairs of a list of segments.
pub open spec fn segments_edges(ss: Seq<Segment2D>) -> Multiset<(Point2D, Point2D)>
    decreases ss,
{
    if ss.len() == 0 {
        Multiset::empty()
    } else {
        segments_edges(ss.drop_last()).insert(norm_edge(ss.last().0, ss.last().1))
    }
}

/// Every polyline of the list has at least two points.
pub open spec fn all_polylines(cs: Seq<Contour2D>) -> bool {
    forall|k: int| 0 <= k < cs.len() ==> #[trigger] cs[k]@.len() >= 2
}

proof fn lemma_segments_edges_take_step(ss: Seq<Segment2D>, i: int)
    requires
        0 <= i < ss.len(),
    ensures
        segments_edges(ss.take(i + 1)) == segments_edges(ss.take(i)).insert(
            norm_edge(ss[i].0, ss[i].1),
        ),
{
    let t = ss.take(i + 1);
    assert(t.drop_last() =~= ss.take(i));
    assert(t.last() == ss[i]);
}

proof fn lemma_contour_edges_prepend(c: Seq<Point2D>, x: Point2D)
    requires
        c.len() >= 1,
    ensures
        contour_edges(c.insert(0, x)) == contour_edges(c).insert(norm_edge(x, c[0])),
    decreases c,
{
    let e = c.insert(0, x);
    if c.len() == 1 {
        assert(e.len() == 2);
        assert(e.drop_last() =~= seq![x]);
        assert(e[0] == x && e[1] == c[0]);
        assert(contour_edges(e) == contour_edges(e.drop_last()).insert(norm_edge(x, c[0])));
        assert(contour_edges(e.drop_last()) =~= Multiset::<(Point2D, Point2D)>::empty());
        assert(contour_edges(c) =~= Multiset::<(Point2D, Point2D)>::empty());
    } else {
        assert(e.drop_last() =~= c.drop_last().insert(0, x));
        lemma_contour_edges_prepend(c.drop_last(), x);
        assert(c.drop_last()[0] == c[0]);
        assert(e[e.len() - 2] == c[c.len() - 2]);
        assert(e.last() == c.last());
        assert(contour_edges(e) == contour_edges(c.drop_last().insert(0, x)).insert(
            norm_edge(c[c.len() - 2], c.last()),
        ));
        assert(contour_edges(e) == contour_edges(c.drop_last()).insert(
            norm_edge(x, c[0]),
        ).insert(norm_edge(c[c.len() - 2], c.last())));
        assert(contour_edges(c.drop_last()).insert(norm_edge(x, c[0])).insert(
            norm_edge(c[c.len() - 2], c.last()),
        ) =~= contour_edges(c).insert(norm_edge(x, c[0])));
    }
}

proof fn lemma_contours_edges_update(cs: Seq<Contour2D>, j: int, c: Contour2D)
    requires
        0 <= j < cs.len(),
    ensures
        contours_edges(cs.update(j, c)).add(contour_edges(cs[j]@)) == contours_edges(cs).add(
            contour_edges(c@),
        ),
    decreases cs,
{
    let u = cs.update(j, c);
    if j == cs.len() - 1 {
        assert(u.drop_last() =~= cs.drop_last());
        assert(u.last() == c);
        assert(cs.last() == cs[j]);
        assert(contours_edges(u).add(contour_edges(cs[j]@)) =~= contours_edges(cs).add(
            contour_edges(c@),
        ));
    } else {
        assert(u.drop_last() =~= cs.drop_last().update(j, c));
        assert(u.last() == cs.last());
        lemma_contours_edges_update(cs.drop_last(), j, c);
        assert(cs.drop_last()[j] == cs[j]);
        assert(contours_edges(u) == contours_edges(cs.drop_last().update(j, c)).add(
            contour_edges(cs.last()@),
        ));
        assert(contours_edges(u).add(contour_edges(cs[j]@)) =~= contours_edges(
            cs.drop_last().update(j, c),
        ).add(contour_edges(cs[j]@)).add(contour_edges(cs.last()@)));
        assert(contours_edges(cs.drop_last().update(j, c)).add(contour_edges(cs[j]@)).add(
            contour_edges(cs.last()@),
        ) =~= contours_edges(cs.drop_last()).add(contour_edges(c@)).add(contour_edges(cs.last()@)));
        assert(contours_edges(cs.drop_last()).add(contour_edges(c@)).add(contour_edges(cs.last()@))
            =~= contours_edges(cs).add(contour_edges(c@)));
    }
}

proof fn lemma_contours_edges_push(cs: Seq<Contour2D>, c: Contour2D)
    ensures
        contours_edges(cs.push(c)) == contours_edges(cs).add(contour_edges(c@)),
{
    assert(cs.push(c).drop_last() =~= cs);
    assert(cs.push(c).last() == c);
}

/// The sequences of points of a list of polylines.
pub open spec fn views_of(cs: Seq<Contour2D>) -> Seq<Seq<Point2D>> {
    cs.map_values(|c: Contour2D| c@)
}

/// Whether the segment `(a, b)` can attach to the polyline: at one of its
/// two ends, in either orientation.
pub open spec fn attaches(c: Seq<Point2D>, a: Point2D, b: Point2D) -> bool {
    c.last() == a || c.first() == b || c.last() == b || c.first() == a
}

/// The polyline with the segment `(a, b)` attached, trying the four ways
/// in order: append `b` after a matching last point `a`; prepend `a`
/// before a matching first point `b`; append `a` after a matching last
/// point `b`; prepend `b` before a matching first point `a`.
pub open spec fn attach_one(c: Seq<Point2D>, a: Point2D, b: Point2D) -> Seq<Point2D> {
    if c.last() == a {
        c.push(b)
    } else if c.first() == b {
        c.insert(0, a)
    } else if c.last() == b {
        c.push(a)
    } else {
        c.insert(0, b)
    }
}

/// The first polyline index at or after `i` that the segment can attach
/// to, or the length of the list if none can.
pub open spec fn find_attach(cs: Seq<Seq<Point2D>>, a: Point2D, b: Point2D, i: int) -> int
    decreases cs.len() - i,
{
    if i < 0 || i >= cs.len() {
        cs.len() as int
    } else if attaches(cs[i], a, b) {
        i
    } else {
        find_attach(cs, a, b, i + 1)
    }
}

/// One step of the stitcher: the segment joins the first open polyline it
/// can attach to, and opens a new two-point polyline otherwise.
pub open spec fn stitch_step(cs: Seq<Seq<Point2D>>, a: Point2D, b: Point2D) -> Seq<Seq<Point2D>> {
    let j = find_attach(cs, a, b, 0);
    if j < cs.len() {
        cs.update(j, attach_one(cs[j], a, b))
    } else {
        cs.push(seq![a, b])
    }
}

/// The polylines the greedy stitcher leaves after consuming the segments
/// in order.
pub open spec fn spec_stitch(ss: Seq<Segment2D>) -> Seq<Seq<Point2D>>
    decreases ss,
{
    if ss.len() == 0 {
        Seq::empty()
    } else {
        stitch_step(spec_stitch(ss.drop_last()), ss.last().0, ss.last().1)
    }
}

proof fn lemma_find_attach_found(cs: Seq<Seq<Point2D>>, a: Point2D, b: Point2D, j: int)
    requires
        0 <= j < cs.len(),
        attaches(cs[j], a, b),
        forall|k: int| 0 <= k < j ==> !attaches(#[trigger] cs[k], a, b),
    ensures
        find_attach(cs, a, b, 0) == j,
{
    lemma_find_attach_from(cs, a, b, 0, j);
}

proof fn lemma_find_attach_from(cs: Seq<Seq<Point2D>>, a: Point2D, b: Point2D, i: int, j: int)
    requires
        0 <= i <= j < cs.len(),
        attaches(cs[j], a, b),
        forall|k: int| i <= k < j ==> !attaches(#[trigger] cs[k], a, b),
    ensures
        find_attach(cs, a, b, i) == j,
    decreases j - i,
{
    if i < j {
        lemma_find_attach_from(cs, a, b, i + 1, j);
    }
}

proof fn lemma_find_attach_none(cs: Seq<Seq<Point2D>>, a: Point2D, b: Point2D, i: int)
    requires
        0 <= i <= cs.len(),
        forall|k: int| i <= k < cs.len() ==> !attaches(#[trigger] cs[k], a, b),
    ensures
        find_attach(cs, a, b, i) == cs.len(),
    decreases cs.len() - i,
{
    if i < cs.len() {
        lemma_find_attach_none(cs, a, b, i + 1);
    }
}

/// Joins the given segments into polylines, in input order.  Each segment is
/// appended or prepended to the first polyline whose end or start equals one
/// of its endpoints, and opens a new polyline otherwise.
///
/// The result is exactly what the greedy algorithm leaves
/// (`spec_stitch`); in particular it carries exactly the input
/// connectivity — the multiset of unordered endpoint pairs drawn from the
/// polylines equals the multiset of unordered input segment endpoint
/// pairs — and no polyline is shorter than two points.
#[verifier::loop_isolation(false)]
pub fn segments_to_contours(segments: &Vec<Segment2D>) -> (contours: Vec<Contour2D>)
    ensures
        views_of(contours@) == spec_stitch(segments@),
        contours_edges(contours@) == segments_edges(segments@),
        all_polylines(contours@),
{
    let mut contours: Vec<Contour2D> = Vec::new();
    let mut i: usize = 0;
    proof {
        assert(segments@.take(0) =~= Seq::<Segment2D>::empty());
    }
    proof {
        assert(views_of(contours@) =~= spec_stitch(segments@.take(0)));
    }
    while i < segments.len()
        invariant
            0 <= i <= segments.len(),
            views_of(contours@) == spec_stitch(segments@.take(i as int)),
            contours_edges(contours@) == segments_edges(segments@.take(i as int)),
            all_polylines(contours@),
        decreases segments.len() - i,
    {
        let a = segments[i].0;
        let b = segments[i].1;
        proof {
            lemma_segments_edges_take_step(segments@, i as int);
            assert(segments@.take(i as int + 1).drop_last() =~= segments@.take(i as int));
            assert(segments@.take(i as int + 1).last() == segments@[i as int]);
        }
        let ghost pre = contours@;
        let mut j: usize = 0;
        let mut done = false;
        while j < contours.len() && !done
            invariant
                0 <= j <= contours.len(),
                !done ==> contours@ == pre,
                !done ==> forall|k: int|
                    0 <= k < j ==> !attaches(#[trigger] views_of(pre)[k], a, b),
                all_polylines(contours@),
                done ==> views_of(contours@) == stitch_step(views_of(pre), a, b),
                done ==> contours_edges(contours@) == segments_edges(
                    segments@.take(i as int + 1),
                ),
            decreases contours.len() - j, (if done { 0int } else { 1int }),
        {
            let clen = contours[j].len();
            let matches_here = contours[j][clen - 1] == a || contours[j][0] == b || contours[j][
                clen - 1
            ] == b || contours[j][0] == a;
            proof {
                assert(views_of(pre)[j as int] == pre[j as int]@);
                assert(pre[j as int]@.last() == pre[j as int]@[pre[j as int]@.len() - 1]);
                assert(pre[j as int]@.first() == pre[j as int]@[0]);
                assert(matches_here == attaches(views_of(pre)[j as int], a, b));
            }
            if matches_here {
                let mut c = contours.remove(j);
                let ghost c0 = c@;
                proof {
                    assert(pre.remove(j as int).insert(j as int, c) =~= pre.update(j as int, c));
                }
                if c[c.len() - 1] == a {
                    c.push(b);
                    proof {
                        assert(c@.drop_last() =~= c0);
                        assert(contour_edges(c@) == contour_edges(c0).insert(norm_edge(a, b)));
                    }
                } else if c[0] == b {
                    c.insert(0, a);
                    proof {
                        lemma_contour_edges_prepend(c0, a);
                        assert(norm_edge(a, c0[0]) == norm_edge(a, b));
                    }
                } else if c[c.len() - 1] == b {
                    c.push(a);
                    proof {
                        assert(c@.drop_last() =~= c0);
                        assert(norm_edge(c0[c0.len() - 1], a) == norm_edge(a, b));
                    }
                } else {
                    c.insert(0, b);
                    proof {
                        lemma_contour_edges_prepend(c0, b);
                        assert(norm_edge(b, c0[0]) == norm_edge(a, b));
                    }
                }
                contours.insert(j, c);
                done = true;
                proof {
                    assert(contours@ =~= pre.update(j as int, c));
                    assert(views_of(pre).len() == pre.len());
                    lemma_find_attach_found(views_of(pre), a, b, j as int);
                    assert(find_attach(views_of(pre), a, b, 0) == j as int);
                    assert(c@ == attach_one(views_of(pre)[j as int], a, b));
                    assert(views_of(contours@) =~= views_of(pre).update(j as int, c@));
                    assert(stitch_step(views_of(pre), a, b) == views_of(pre).update(
                        j as int,
                        attach_one(views_of(pre)[j as int], a, b),
                    ));
                    assert(views_of(pre).update(j as int, c@) == views_of(pre).update(
                        j as int,
                        attach_one(views_of(pre)[j as int], a, b),
                    ));
                    assert(views_of(contours@) == views_of(pre).update(j as int, c@));
                    assert(views_of(contours@) == stitch_step(views_of(pre), a, b));
                    lemma_contours_edges_update(pre, j as int, c);
                    assert(contour_edges(c@) == contour_edges(pre[j as int]@).insert(
                        norm_edge(a, b),
                    ));
                    assert(contours_edges(pre.update(j as int, c)).add(
                        contour_edges(pre[j as int]@),
                    ) =~= contours_edges(pre).add(contour_edges(pre[j as int]@)).insert(
                        norm_edge(a, b),
                    ));
                    let ghost m1 = contours_edges(pre.update(j as int, c));
                    let ghost m2 = contours_edges(pre);
                    let ghost mc = contour_edges(pre[j as int]@);
                    let ghost ne = norm_edge(a, b);
                    assert(m1.add(mc) == m2.add(mc.insert(ne)));
                    assert forall|x: (Point2D, Point2D)| #[trigger] m1.count(x) == m2.insert(
                        ne,
                    ).count(x) by {
                        assert(m1.add(mc).count(x) == m2.add(mc.insert(ne)).count(x));
                        assert(m1.count(x) + mc.count(x) == m2.count(x) + mc.insert(ne).count(x));
                        if x == ne {
                            assert(mc.insert(ne).count(x) == mc.count(x) + 1);
                            assert(m2.insert(ne).count(x) == m2.count(x) + 1);
                        } else {
                            assert(mc.insert(ne).count(x) == mc.count(x));
                            assert(m2.insert(ne).count(x) == m2.count(x));
                        }
                    }
                    assert(m1 =~= m2.insert(ne));
                }
            } else {
                j += 1;
            }
        }
        if !done {
            let mut c: Contour2D = Vec::new();
            c.push(a);
            c.push(b);
            proof {
                assert(j == pre.len());
                assert(views_of(pre).len() == pre.len());
                lemma_find_attach_none(views_of(pre), a, b, 0);
                assert(find_attach(views_of(pre), a, b, 0) == views_of(pre).len());
                assert(c@ =~= seq![a, b]);
                assert(c@.drop_last() =~= seq![a]);
                assert(contour_edges(c@.drop_last()) =~= Multiset::<(Point2D, Point2D)>::empty());
                assert(contour_edges(c@) =~= Multiset::<(Point2D, Point2D)>::empty().insert(
                    norm_edge(a, b),
                ));
                lemma_contours_edges_push(pre, c);
            }
            contours.push(c);
            proof {
                assert(views_of(contours@) =~= views_of(pre).push(seq![a, b]));
                assert(views_of(contours@) == stitch_step(views_of(pre), a, b));
            }
        }
        i += 1;
    }
    proof {
        assert(segments@.take(segments@.len() as int) =~= segments@);
    }
    contours
}

} // verus!
