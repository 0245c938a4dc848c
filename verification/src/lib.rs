//! A verified core for a 2-D implicit-equation grapher.
//!
//! The crate renders equations `L = R` over two real variables as polyline
//! contours: a symbolic expression engine differentiates and simplifies the
//! signed function `L - R`, an adaptive quadtree discovers where its sign
//! changes, a per-cell solver places one representative vertex, and a
//! stitcher joins the resulting segments into contours.  Real numbers are
//! modelled as IEEE-754 binary64 bit patterns (see `ieee`); the floating
//! point arithmetic itself is performed by the caller, and every decision
//! made on its results is verified here.

pub mod domain;
pub mod driver;
pub mod expr;
pub mod ieee;
pub mod mathjson;
pub mod point;
pub mod quadtree;
pub mod sets;
pub mod stitch;
