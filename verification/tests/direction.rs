use nanachi::direction::{dir, order_endpoints, Direction};
use nanachi::point::{coord_eq, coord_is_nan, coord_lt, point_eq, Point};

fn pt(x: f64, y: f64) -> Point {
    Point(x.to_bits(), y.to_bits())
}

#[test]
fn coordinates_compare_as_numbers() {
    assert!(coord_eq(0.0f64.to_bits(), (-0.0f64).to_bits()));
    assert!(coord_eq(1.5f64.to_bits(), 1.5f64.to_bits()));
    assert!(!coord_eq(1.5f64.to_bits(), 2.5f64.to_bits()));
    assert!(!coord_eq(f64::NAN.to_bits(), f64::NAN.to_bits()));
    assert!(coord_is_nan(f64::NAN.to_bits()));
    assert!(!coord_is_nan(f64::INFINITY.to_bits()));
    assert!(coord_lt((-3.0f64).to_bits(), (-2.0f64).to_bits()));
    assert!(coord_lt((-1.0f64).to_bits(), 0.0f64.to_bits()));
    assert!(coord_lt(1.0f64.to_bits(), f64::INFINITY.to_bits()));
    assert!(coord_lt(f64::NEG_INFINITY.to_bits(), (-1e300f64).to_bits()));
    assert!(!coord_lt((-0.0f64).to_bits(), 0.0f64.to_bits()));
    assert!(!coord_lt(0.0f64.to_bits(), (-0.0f64).to_bits()));
    assert!(!coord_lt(2.0f64.to_bits(), 1.0f64.to_bits()));
    assert!(!coord_lt(f64::NAN.to_bits(), 1.0f64.to_bits()));
    assert!(!coord_lt(1.0f64.to_bits(), f64::NAN.to_bits()));
}

#[test]
fn coordinate_order_agrees_with_f64() {
    let values = [
        f64::NEG_INFINITY, -1e10, -2.5, -1.0, -1e-300, -0.0, 0.0, 1e-300, 0.5, 1.0, 3.25, 1e10,
        f64::INFINITY, f64::NAN,
    ];
    for &a in values.iter() {
        for &b in values.iter() {
            assert_eq!(coord_eq(a.to_bits(), b.to_bits()), a == b, "{} == {}", a, b);
            assert_eq!(coord_lt(a.to_bits(), b.to_bits()), a < b, "{} < {}", a, b);
        }
    }
}

#[test]
fn points_compare_by_both_coordinates() {
    assert!(point_eq(pt(1.0, -0.0), pt(1.0, 0.0)));
    assert!(!point_eq(pt(1.0, 2.0), pt(1.0, 3.0)));
    assert!(!point_eq(pt(f64::NAN, 2.0), pt(f64::NAN, 2.0)));
}

#[test]
fn dir_gives_each_direction() {
    let o = pt(5.0, 5.0);
    assert_eq!(dir(o, o), Direction::No);
    assert_eq!(dir(o, pt(5.0, 9.0)), Direction::Bottom);
    assert_eq!(dir(o, pt(5.0, 1.0)), Direction::Top);
    assert_eq!(dir(o, pt(9.0, 5.0)), Direction::Right);
    assert_eq!(dir(o, pt(1.0, 5.0)), Direction::Left);
    assert_eq!(dir(o, pt(9.0, 9.0)), Direction::BottomRight);
    assert_eq!(dir(o, pt(9.0, 1.0)), Direction::TopRight);
    assert_eq!(dir(o, pt(1.0, 9.0)), Direction::BottomLeft);
    assert_eq!(dir(o, pt(1.0, 1.0)), Direction::TopLeft);
}

#[test]
fn dir_treats_signed_zeros_as_equal_and_nan_as_unordered() {
    assert_eq!(dir(pt(0.0, 0.0), pt(-0.0, -0.0)), Direction::No);
    assert_eq!(dir(pt(f64::NAN, 0.0), pt(1.0, 0.0)), Direction::Left);
    assert_eq!(dir(pt(0.0, f64::NAN), pt(0.0, 1.0)), Direction::Top);
    assert_eq!(dir(pt(f64::NAN, f64::NAN), pt(f64::NAN, f64::NAN)), Direction::TopLeft);
}

#[test]
fn dir_back_is_opposite_of_dir_forth() {
    let pts = [pt(0.0, 0.0), pt(0.0, 3.0), pt(2.0, 0.0), pt(2.0, 3.0), pt(-1.0, -4.0)];
    let opposite = |d: Direction| match d {
        Direction::Top => Direction::Bottom,
        Direction::Bottom => Direction::Top,
        Direction::Left => Direction::Right,
        Direction::Right => Direction::Left,
        Direction::TopLeft => Direction::BottomRight,
        Direction::TopRight => Direction::BottomLeft,
        Direction::BottomLeft => Direction::TopRight,
        Direction::BottomRight => Direction::TopLeft,
        Direction::No => Direction::No,
    };
    for &a in pts.iter() {
        for &b in pts.iter() {
            assert_eq!(dir(b, a), opposite(dir(a, b)));
        }
    }
}

#[test]
fn order_endpoints_sorts_by_x_then_y() {
    let a = pt(1.0, 5.0);
    let b = pt(3.0, 0.0);
    assert_eq!(order_endpoints(a, b), (a, b));
    assert_eq!(order_endpoints(b, a), (a, b));
    let c = pt(1.0, 2.0);
    assert_eq!(order_endpoints(a, c), (c, a));
    assert_eq!(order_endpoints(c, a), (c, a));
    assert_eq!(order_endpoints(a, a), (a, a));
}

#[test]
fn ordered_endpoints_never_point_left_or_up() {
    let pts = [pt(0.0, 0.0), pt(0.0, 3.0), pt(2.0, 0.0), pt(2.0, 3.0), pt(-1.0, -4.0), pt(2.0, -1.0)];
    for &a in pts.iter() {
        for &b in pts.iter() {
            let (p, q) = order_endpoints(a, b);
            let d = dir(p, q);
            assert!(matches!(
                d,
                Direction::No | Direction::Bottom | Direction::Right | Direction::TopRight | Direction::BottomRight
            ));
        }
    }
}

#[test]
fn point_equality_is_numeric() {
    assert!(pt(0.0, -0.0) == pt(-0.0, 0.0));
    assert!(pt(1.0, 2.0) != pt(1.0, 2.5));
    assert!(pt(f64::NAN, 2.0) != pt(f64::NAN, 2.0));
}

#[test]
fn drawing_order_does_not_depend_on_argument_order() {
    let pts = [pt(0.0, 0.0), pt(-0.0, 0.0), pt(0.0, 3.0), pt(2.0, -0.0), pt(2.0, 3.0), pt(-1.0, -4.0)];
    for &a in pts.iter() {
        for &b in pts.iter() {
            let (p, q) = order_endpoints(a, b);
            let (r, s) = order_endpoints(b, a);
            assert!(p == r && q == s);
            assert_eq!(dir(p, q), dir(r, s));
        }
    }
}
