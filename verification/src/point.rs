//! Plane geometry carriers.
//!
//! A `Point2D` holds the two coordinates of a point as encoded binary64 bit
//! patterns (see `ieee`).  Equality of points is bit equality of both
//! coordinates: the stitcher joins segments only where the coordinates were
//! produced by the very same arithmetic, so no epsilon is wanted.

use vstd::prelude::*;

verus! {

/// A point of the plane: the bit patterns of its x and y coordinates.
#[derive(Clone, Copy, PartialEq, Eq, Structural, Debug)]
pub struct Point2D(pub u64, pub u64);

/// A line segment between two points.
#[derive(Clone, Copy, PartialEq, Eq, Structural, Debug)]
pub struct Segment2D(pub Point2D, pub Point2D);

/// An ordered polyline; the output unit of the grapher.
pub type Contour2D = Vec<Point2D>;

} // verus!
