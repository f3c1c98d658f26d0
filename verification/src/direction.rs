//! The direction from one point to another, and the order in which a line's
//! end points are rasterised.
use vstd::prelude::*;
use crate::point::{
    coord_eq, coord_eq_spec, coord_lt, coord_lt_spec, is_ordered_point, order_key, point_eq_spec,
    Point,
};

verus! {

/// The compass direction from a first point to a second one; `Top` is
/// towards smaller `y`.
#[derive(Debug, Clone, Copy, PartialEq, Eq, Structural)]
pub enum Direction {
    Top,
    Bottom,
    Left,
    Right,
    TopLeft,
    TopRight,
    BottomLeft,
    BottomRight,
    No,
}

/// How the second coordinate stands to the first along one axis:
/// `0` equal, `1` greater, `-1` anything else (smaller, or unordered
/// because one of them is a NaN).
pub open spec fn axis_step(a: u64, b: u64) -> int {
    if coord_eq_spec(a, b) {
        0
    } else if coord_lt_spec(a, b) {
        1
    } else {
        -1
    }
}

/// The direction that two axis steps make.
pub open spec fn direction_of_steps(sx: int, sy: int) -> Direction {
    if sx == 0 {
        if sy == 0 {
            Direction::No
        } else if sy == 1 {
            Direction::Bottom
        } else {
            Direction::Top
        }
    } else if sx == 1 {
        if sy == 0 {
            Direction::Right
        } else if sy == 1 {
            Direction::BottomRight
        } else {
            Direction::TopRight
        }
    } else {
        if sy == 0 {
            Direction::Left
        } else if sy == 1 {
            Direction::BottomLeft
        } else {
            Direction::TopLeft
        }
    }
}

/// The direction from `p1` to `p2`.
pub open spec fn dir_spec(p1: Point, p2: Point) -> Direction {
    direction_of_steps(axis_step(p1.0, p2.0), axis_step(p1.1, p2.1))
}

/// The direction pointing the other way.
pub open spec fn opposite(d: Direction) -> Direction {
    match d {
        Direction::Top => Direction::Bottom,
        Direction::Bottom => Direction::Top,
        Direction::Left => Direction::Right,
        Direction::Right => Direction::Left,
        Direction::TopLeft => Direction::BottomRight,
        Direction::TopRight => Direction::BottomLeft,
        Direction::BottomLeft => Direction::TopRight,
        Direction::BottomRight => Direction::TopLeft,
        Direction::No => Direction::No,
    }
}

/// `p` comes before `q` when sorted by `x`, then by `y` (the order in which
/// a line is drawn from its first end point).
pub open spec fn before_or_same(p: Point, q: Point) -> bool {
    !(coord_lt_spec(q.0, p.0) || (coord_eq_spec(p.0, q.0) && coord_lt_spec(q.1, p.1)))
}

/// The direction from `p1` to `p2`.
pub fn dir(p1: Point, p2: Point) -> (d: Direction)
    ensures
        d == dir_spec(p1, p2),
        is_ordered_point(p1) && is_ordered_point(p2) ==> direction_agrees_with_order(p1, p2, d),
{
    proof {
        if is_ordered_point(p1) && is_ordered_point(p2) {
            lemma_dir_follows_axes(p1, p2);
        }
    }
    if coord_eq(p1.0, p2.0) {
        if coord_eq(p1.1, p2.1) {
            Direction::No
        } else if coord_lt(p1.1, p2.1) {
            Direction::Bottom
        } else {
            Direction::Top
        }
    } else if coord_lt(p1.0, p2.0) {
        if coord_eq(p1.1, p2.1) {
            Direction::Right
        } else if coord_lt(p1.1, p2.1) {
            Direction::BottomRight
        } else {
            Direction::TopRight
        }
    } else {
        if coord_eq(p1.1, p2.1) {
            Direction::Left
        } else if coord_lt(p1.1, p2.1) {
            Direction::BottomLeft
        } else {
            Direction::TopLeft
        }
    }
}

/// The end points of a line in drawing order: swapped when the first comes
/// after the second by `x`, or by `y` at equal `x`.
pub fn order_endpoints(p1: Point, p2: Point) -> (r: (Point, Point))
    ensures
        r == (if before_or_same(p1, p2) { (p1, p2) } else { (p2, p1) }),
{
    if coord_lt(p2.0, p1.0) || (coord_eq(p1.0, p2.0) && coord_lt(p2.1, p1.1)) {
        (p2, p1)
    } else {
        (p1, p2)
    }
}

/// A point without NaN coordinates has no direction to itself.
pub proof fn lemma_dir_same_point(p: Point)
    requires
        is_ordered_point(p),
    ensures
        dir_spec(p, p) == Direction::No,
{
}

/// Between points without NaN coordinates, the direction back is the
/// opposite of the direction forth.
pub proof fn lemma_dir_reverse(p1: Point, p2: Point)
    requires
        is_ordered_point(p1),
        is_ordered_point(p2),
    ensures
        dir_spec(p2, p1) == opposite(dir_spec(p1, p2)),
{
}

/// Once the end points of a line without NaN coordinates are put in drawing
/// order, the direction from the first to the second never points left and
/// never straight up.
pub proof fn lemma_ordered_endpoints_direction(p1: Point, p2: Point)
    requires
        is_ordered_point(p1),
        is_ordered_point(p2),
    ensures
        ({
            let (a, b) = if before_or_same(p1, p2) { (p1, p2) } else { (p2, p1) };
            let d = dir_spec(a, b);
            d == Direction::No || d == Direction::Bottom || d == Direction::Right
                || d == Direction::TopRight || d == Direction::BottomRight
        }),
{
}

/// For end points without NaN coordinates, putting them in drawing order
/// gives the same line whichever comes first: numerically equal end points,
/// in the same order, and so the same direction.
pub proof fn lemma_order_endpoints_symmetric(p1: Point, p2: Point)
    requires
        is_ordered_point(p1),
        is_ordered_point(p2),
    ensures
        ({
            let (a, b) = if before_or_same(p1, p2) { (p1, p2) } else { (p2, p1) };
            let (c, d) = if before_or_same(p2, p1) { (p2, p1) } else { (p1, p2) };
            &&& point_eq_spec(a, c)
            &&& point_eq_spec(b, d)
            &&& dir_spec(a, b) == dir_spec(c, d)
        }),
{
}

/// How a direction from `p1` to `p2` stands with the numeric order of
/// their coordinates: it points down exactly when `p2` lies below `p1`
/// (greater `y`), up exactly when above, right exactly when `p2` lies to
/// the right (greater `x`), left exactly when to the left; whatever the
/// other axis does.
pub open spec fn direction_agrees_with_order(p1: Point, p2: Point, d: Direction) -> bool {
    &&& (d == Direction::Bottom || d == Direction::BottomLeft || d == Direction::BottomRight)
        <==> order_key(p1.1) < order_key(p2.1)
    &&& (d == Direction::Top || d == Direction::TopLeft || d == Direction::TopRight) <==> order_key(
        p2.1,
    ) < order_key(p1.1)
    &&& (d == Direction::Right || d == Direction::TopRight || d == Direction::BottomRight)
        <==> order_key(p1.0) < order_key(p2.0)
    &&& (d == Direction::Left || d == Direction::TopLeft || d == Direction::BottomLeft)
        <==> order_key(p2.0) < order_key(p1.0)
}

/// Between points without NaN coordinates, the vertical part of the
/// direction follows the numeric order of the `y` coordinates alone, and
/// the horizontal part that of the `x` coordinates alone.
pub proof fn lemma_dir_follows_axes(p1: Point, p2: Point)
    requires
        is_ordered_point(p1),
        is_ordered_point(p2),
    ensures
        direction_agrees_with_order(p1, p2, dir_spec(p1, p2)),
{
}

} // verus!
