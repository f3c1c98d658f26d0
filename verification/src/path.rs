//! The items a path is made of. Every number is held as the binary64
//! encoding of the value it stands for (see `point`).
//!
//! Lines and Bézier curves compare with `==` point by point, as numbers.
//! Arcs, ellipses and path items have no `==`: their radii and angles are
//! encodings, and comparing encodings is not comparing numbers.
use vstd::prelude::*;
use crate::point::Point;

verus! {

/// A straight segment from the first point to the second.
#[derive(Clone, Copy, Debug, PartialEq)]
pub struct Line(pub Point, pub Point);

/// A circular arc around `center` from angle `angle1` to angle `angle2`
/// (radians).
#[derive(Clone, Copy, Debug)]
pub struct Arc {
    pub center: Point,
    pub radius: u64,
    pub angle1: u64,
    pub angle2: u64,
}

/// An elliptic arc around `center`, whose axes are turned by `rotation`,
/// from angle `angle1` to angle `angle2` (radians).
#[derive(Clone, Copy, Debug)]
pub struct Ellipse {
    pub center: Point,
    pub radius_x: u64,
    pub radius_y: u64,
    pub rotation: u64,
    pub angle1: u64,
    pub angle2: u64,
}

/// A quadratic Bézier curve.
#[derive(Clone, Copy, Debug, PartialEq)]
pub struct Quad {
    pub start: Point,
    pub end: Point,
    pub control1: Point,
}

/// A cubic Bézier curve.
#[derive(Clone, Copy, Debug, PartialEq)]
pub struct Cubic {
    pub start: Point,
    pub end: Point,
    pub control1: Point,
    pub control2: Point,
}

/// One piece of a path. `Jump` starts a new sub-path; `CloseAndJump`
/// closes the current one first.
#[derive(Clone, Copy, Debug)]
pub enum PathItem {
    Line(Line),
    Arc(Arc),
    Ellipse(Ellipse),
    Quad(Quad),
    Cubic(Cubic),
    CloseAndJump,
    Jump,
}

/// A path: its items in drawing order.
#[derive(Debug)]
pub struct Path(pub Vec<PathItem>);

/// The item is a curve: something flattening turns into lines.
pub open spec fn is_curve(item: PathItem) -> bool {
    item is Arc || item is Ellipse || item is Quad || item is Cubic
}

/// The item breaks the path into sub-paths.
pub open spec fn is_jump(item: PathItem) -> bool {
    item is CloseAndJump || item is Jump
}

} // verus!
