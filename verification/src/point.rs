//! Points of the plane.
//!
//! A coordinate is held as the IEEE-754 binary64 encoding of the number it
//! stands for. The library never does arithmetic on coordinates; it only
//! compares them, and it compares them as IEEE-754 does: a NaN is unordered
//! and unequal to everything, and the two zeros are equal.
use vstd::prelude::*;

verus! {

/// The sign bit of a binary64 encoding.
pub const SIGN_BIT: u64 = 0x8000_0000_0000_0000;

/// The exponent field of a binary64 encoding.
pub const EXPONENT_BITS: u64 = 0x7ff0_0000_0000_0000;

/// The fraction field of a binary64 encoding.
pub const FRACTION_BITS: u64 = 0x000f_ffff_ffff_ffff;

/// Everything but the sign bit.
pub const MAGNITUDE_BITS: u64 = 0x7fff_ffff_ffff_ffff;

/// The encoding of positive zero.
pub const ZERO: u64 = 0;

/// A point `(x, y)`; `y` grows downwards, as on a raster image.
///
/// `==` on points compares the numbers, coordinate by coordinate, as
/// `point_eq` does.
#[derive(Clone, Copy, Debug)]
pub struct Point(pub u64, pub u64);

/// Whether the encoding stands for a NaN.
pub open spec fn is_nan(c: u64) -> bool {
    (c & EXPONENT_BITS) == EXPONENT_BITS && (c & FRACTION_BITS) != 0
}

/// A number whose order on non-NaN encodings is the order of the reals
/// they stand for: the magnitude, negated when the sign bit is set.
pub open spec fn order_key(c: u64) -> int {
    if (c & SIGN_BIT) != 0 {
        -((c & MAGNITUDE_BITS) as int)
    } else {
        (c & MAGNITUDE_BITS) as int
    }
}

/// `a == b` on the numbers that the encodings stand for.
pub open spec fn coord_eq_spec(a: u64, b: u64) -> bool {
    !is_nan(a) && !is_nan(b) && order_key(a) == order_key(b)
}

/// `a < b` on the numbers that the encodings stand for.
pub open spec fn coord_lt_spec(a: u64, b: u64) -> bool {
    !is_nan(a) && !is_nan(b) && order_key(a) < order_key(b)
}

/// Neither coordinate of the point is a NaN.
pub open spec fn is_ordered_point(p: Point) -> bool {
    !is_nan(p.0) && !is_nan(p.1)
}

/// `p == q` on points: both coordinates are equal numbers.
pub open spec fn point_eq_spec(p: Point, q: Point) -> bool {
    coord_eq_spec(p.0, q.0) && coord_eq_spec(p.1, q.1)
}

/// Whether `c` encodes a NaN.
pub fn coord_is_nan(c: u64) -> (r: bool)
    ensures
        r == is_nan(c),
{
    (c & EXPONENT_BITS) == EXPONENT_BITS && (c & FRACTION_BITS) != 0
}

/// Numeric equality of two coordinates.
pub fn coord_eq(a: u64, b: u64) -> (r: bool)
    ensures
        r == coord_eq_spec(a, b),
{
    if coord_is_nan(a) || coord_is_nan(b) {
        return false;
    }
    let ma = a & MAGNITUDE_BITS;
    let mb = b & MAGNITUDE_BITS;
    let neg_a = (a & SIGN_BIT) != 0;
    let neg_b = (b & SIGN_BIT) != 0;
    if neg_a == neg_b {
        ma == mb
    } else {
        ma == 0 && mb == 0
    }
}

/// Numeric `a < b` of two coordinates.
pub fn coord_lt(a: u64, b: u64) -> (r: bool)
    ensures
        r == coord_lt_spec(a, b),
{
    if coord_is_nan(a) || coord_is_nan(b) {
        return false;
    }
    let ma = a & MAGNITUDE_BITS;
    let mb = b & MAGNITUDE_BITS;
    let neg_a = (a & SIGN_BIT) != 0;
    let neg_b = (b & SIGN_BIT) != 0;
    if !neg_a && !neg_b {
        ma < mb
    } else if neg_a && neg_b {
        mb < ma
    } else if neg_a {
        !(ma == 0 && mb == 0)
    } else {
        false
    }
}

/// Numeric equality of two points, coordinate by coordinate.
pub fn point_eq(p: Point, q: Point) -> (r: bool)
    ensures
        r == point_eq_spec(p, q),
{
    coord_eq(p.0, q.0) && coord_eq(p.1, q.1)
}

impl PartialEq for Point {
    fn eq(&self, other: &Self) -> (r: bool) {
        point_eq(*self, *other)
    }
}

impl vstd::std_specs::cmp::PartialEqSpecImpl for Point {
    open spec fn obeys_eq_spec() -> bool {
        true
    }

    open spec fn eq_spec(&self, other: &Point) -> bool {
        point_eq_spec(*self, *other)
    }
}

} // verus!
