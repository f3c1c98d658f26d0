use nanachi::path::{Arc, Cubic, Ellipse, Line, Path, PathItem, Quad};
use nanachi::path_flatten::{flatten_lines, path_flatten, path_flatten_only_cubic, Flatten, FlattenStep};
use nanachi::point::Point;

fn pt(x: f64, y: f64) -> Point {
    Point(x.to_bits(), y.to_bits())
}

/// Compares item lists by their encodings, bit for bit.
fn assert_items(a: &[PathItem], b: &[PathItem]) {
    assert_eq!(format!("{:?}", a), format!("{:?}", b));
}

fn line(a: Point, b: Point) -> PathItem {
    PathItem::Line(Line(a, b))
}

fn quad() -> PathItem {
    PathItem::Quad(Quad { start: pt(0.0, 0.0), end: pt(4.0, 0.0), control1: pt(2.0, 2.0) })
}

fn cubic() -> PathItem {
    PathItem::Cubic(Cubic {
        start: pt(10.0, 0.0),
        end: pt(13.0, 0.0),
        control1: pt(11.0, 1.0),
        control2: pt(12.0, 1.0),
    })
}

fn arc() -> PathItem {
    PathItem::Arc(Arc { center: pt(0.0, 0.0), radius: 1.0f64.to_bits(), angle1: 0, angle2: 1.0f64.to_bits() })
}

fn ellipse() -> PathItem {
    PathItem::Ellipse(Ellipse {
        center: pt(0.0, 0.0),
        radius_x: 2.0f64.to_bits(),
        radius_y: 1.0f64.to_bits(),
        rotation: 0,
        angle1: 0,
        angle2: 1.0f64.to_bits(),
    })
}

#[test]
fn lines_and_jumps_stay() {
    let items = vec![line(pt(0.0, 0.0), pt(1.0, 1.0)), PathItem::Jump, PathItem::CloseAndJump];
    let flats = vec![vec![], vec![], vec![]];
    let r = path_flatten(&Path(items.clone()), &flats);
    assert_items(&r.0, &items);
}

#[test]
fn quad_becomes_lines_without_repeats() {
    let items = vec![quad()];
    let flats = vec![vec![pt(1.0, 1.0), pt(1.0, 1.0), pt(2.0, 1.5), pt(-0.0, 0.0), pt(4.0, 0.0)]];
    let r = path_flatten(&Path(items), &flats);
    assert_items(
        &r.0,
        &vec![
            line(pt(0.0, 0.0), pt(1.0, 1.0)),
            line(pt(1.0, 1.0), pt(2.0, 1.5)),
            line(pt(2.0, 1.5), pt(-0.0, 0.0)),
            line(pt(-0.0, 0.0), pt(4.0, 0.0)),
        ]
    );
}

#[test]
fn point_equal_to_start_adds_no_line() {
    // -0.0 equals 0.0, so the first point adds nothing.
    let items = vec![quad()];
    let flats = vec![vec![pt(-0.0, 0.0), pt(4.0, 0.0)]];
    let r = path_flatten(&Path(items), &flats);
    assert_items(&r.0, &[line(pt(0.0, 0.0), pt(4.0, 0.0))]);
}

#[test]
fn nan_points_are_never_equal() {
    let items = vec![quad()];
    let n = pt(f64::NAN, 0.0);
    let flats = vec![vec![n, n]];
    let r = path_flatten(&Path(items), &flats);
    assert_items(&r.0, &[line(pt(0.0, 0.0), n), line(n, n)]);
}

#[test]
fn arc_starts_at_its_first_point() {
    let items = vec![arc(), PathItem::Jump, ellipse()];
    let flats = vec![
        vec![pt(1.0, 0.0), pt(0.8, 0.6), pt(0.6, 0.8)],
        vec![],
        vec![pt(2.0, 0.0)],
    ];
    let r = path_flatten(&Path(items), &flats);
    assert_items(
        &r.0,
        &vec![line(pt(1.0, 0.0), pt(0.8, 0.6)), line(pt(0.8, 0.6), pt(0.6, 0.8)), PathItem::Jump]
    );
}

#[test]
fn flattening_twice_changes_nothing() {
    let items = vec![quad(), PathItem::CloseAndJump, cubic(), arc()];
    let flats = vec![vec![pt(2.0, 1.0), pt(4.0, 0.0)], vec![], vec![pt(13.0, 0.0)], vec![pt(1.0, 0.0), pt(0.0, 1.0)]];
    let once = path_flatten(&Path(items), &flats);
    assert!(once.0.iter().all(|i| matches!(i, PathItem::Line(_) | PathItem::Jump | PathItem::CloseAndJump)));
    let again = vec![vec![]; once.0.len()];
    let twice = path_flatten(&once, &again);
    assert_items(&twice.0, &once.0);
    let jumps: Vec<_> = once.0.iter().filter(|i| matches!(i, PathItem::Jump | PathItem::CloseAndJump)).collect();
    assert_eq!(jumps.len(), 1);
    assert!(matches!(jumps[0], PathItem::CloseAndJump));
}

#[test]
fn only_cubic_keeps_other_curves() {
    let items = vec![quad(), cubic(), arc(), PathItem::Jump];
    let flats = vec![vec![pt(9.0, 9.0)], vec![pt(11.0, 0.5), pt(13.0, 0.0)], vec![pt(9.0, 9.0)], vec![]];
    let r = path_flatten_only_cubic(&Path(items), &flats);
    assert_items(
        &r.0,
        &vec![
            quad(),
            line(pt(10.0, 0.0), pt(11.0, 0.5)),
            line(pt(11.0, 0.5), pt(13.0, 0.0)),
            arc(),
            PathItem::Jump,
        ]
    );
}

#[test]
fn only_cubic_agrees_with_full_flattening_on_cubic_paths() {
    let items = vec![line(pt(0.0, 0.0), pt(10.0, 0.0)), cubic(), PathItem::Jump];
    let flats = vec![vec![], vec![pt(11.0, 0.5), pt(11.0, 0.5), pt(13.0, 0.0)], vec![]];
    let a = path_flatten(&Path(items.clone()), &flats);
    let b = path_flatten_only_cubic(&Path(items), &flats);
    assert_items(&a.0, &b.0);
}

#[test]
fn line_by_line_flattening_keeps_repeats_and_drops_jumps() {
    let items = vec![line(pt(0.0, 0.0), pt(1.0, 0.0)), PathItem::Jump, quad(), arc(), PathItem::CloseAndJump];
    let flats = vec![
        vec![],
        vec![],
        vec![pt(1.0, 1.0), pt(1.0, 1.0)],
        vec![pt(1.0, 0.0), pt(0.0, 1.0)],
        vec![],
    ];
    let r = flatten_lines(&items, &flats);
    assert_items(
        &r,
        &vec![
            line(pt(0.0, 0.0), pt(1.0, 0.0)),
            line(pt(0.0, 0.0), pt(1.0, 1.0)),
            line(pt(1.0, 1.0), pt(1.0, 1.0)),
            line(pt(1.0, 0.0), pt(0.0, 1.0)),
        ]
    );
}

#[test]
fn flatten_asks_for_items_one_at_a_time() {
    let mut f = Flatten::new();
    assert!(f.needs_item());
    assert!(matches!(f.next(), FlattenStep::NeedItem));
    f.next_state(Some(line(pt(0.0, 0.0), pt(1.0, 0.0))), vec![]);
    assert!(!f.needs_item());
    match f.next() {
        FlattenStep::Item(x) => assert_items(&[x], &[line(pt(0.0, 0.0), pt(1.0, 0.0))]),
        _ => panic!("expected a line"),
    }
    assert!(f.needs_item());
    f.next_state(Some(PathItem::Jump), vec![]);
    assert!(f.needs_item());
    f.next_state(Some(cubic()), vec![pt(13.0, 0.0)]);
    assert!(!f.needs_item());
    match f.next() {
        FlattenStep::Item(x) => assert_items(&[x], &[line(pt(10.0, 0.0), pt(13.0, 0.0))]),
        _ => panic!("expected a line"),
    }
    assert!(!f.needs_item());
    assert!(matches!(f.next(), FlattenStep::NeedItem));
    assert!(f.needs_item());
    f.next_state(None, vec![]);
    assert!(matches!(f.next(), FlattenStep::Done));
    assert!(matches!(f.next(), FlattenStep::Done));
}

#[test]
fn markers_then_end_stop_asking() {
    let mut f = Flatten::new();
    f.next_state(Some(PathItem::Jump), vec![]);
    assert!(f.needs_item());
    f.next_state(Some(PathItem::CloseAndJump), vec![]);
    assert!(f.needs_item());
    f.next_state(None, vec![]);
    assert!(!f.needs_item());
    assert!(matches!(f.next(), FlattenStep::Done));
    assert!(!f.needs_item());
}

#[test]
fn cubic_first_then_everything_is_everything() {
    let items = vec![quad(), cubic(), arc(), PathItem::Jump];
    let flats = vec![
        vec![pt(1.0, 1.0), pt(4.0, 0.0)],
        vec![pt(11.0, 0.5), pt(13.0, 0.0)],
        vec![pt(1.0, 0.0), pt(0.0, 1.0)],
        vec![],
    ];
    let once = path_flatten_only_cubic(&Path(items.clone()), &flats);
    // Each item keeps the points of the item it came from.
    let again = vec![flats[0].clone(), vec![], vec![], flats[2].clone(), vec![]];
    assert_eq!(once.0.len(), again.len());
    let twice = path_flatten(&once, &again);
    let direct = path_flatten(&Path(items), &flats);
    assert_items(&twice.0, &direct.0);
}

#[test]
fn line_by_line_matches_path_flatten_without_jumps() {
    let items = vec![line(pt(0.0, 0.0), pt(1.0, 0.0)), PathItem::Jump, quad(), arc(), PathItem::CloseAndJump, cubic()];
    let flats = vec![
        vec![],
        vec![],
        vec![pt(1.0, 1.0), pt(4.0, 0.0)],
        vec![pt(1.0, 0.0), pt(0.0, 1.0), pt(-1.0, 0.0)],
        vec![],
        vec![pt(12.0, 1.0), pt(13.0, 0.0)],
    ];
    let lines = flatten_lines(&items, &flats);
    let flat = path_flatten(&Path(items), &flats);
    let without_jumps: Vec<PathItem> =
        flat.0.into_iter().filter(|i| !matches!(i, PathItem::Jump | PathItem::CloseAndJump)).collect();
    assert_items(&lines, &without_jumps);
}

#[test]
fn lines_compare_as_numbers() {
    assert!(Line(pt(0.0, 1.0), pt(2.0, 3.0)) == Line(pt(-0.0, 1.0), pt(2.0, 3.0)));
    assert!(Line(pt(f64::NAN, 1.0), pt(2.0, 3.0)) != Line(pt(f64::NAN, 1.0), pt(2.0, 3.0)));
}
