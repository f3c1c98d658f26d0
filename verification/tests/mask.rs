use nanachi::direction::Direction;
use nanachi::draw_path::{covered_pixels, draw_straight, paired_position, safe_put_pixel, walk_step};
use nanachi::mask::Mask;

#[test]
fn blank_mask_has_nothing_drawn() {
    let m = Mask::blank(4, 3);
    assert_eq!(m.dimensions(), (4, 3));
    assert!(covered_pixels(&m).is_empty());
}

#[test]
fn put_pixel_inside_and_outside() {
    let mut m = Mask::blank(4, 3);
    safe_put_pixel(&mut m, 2, 1, 7);
    safe_put_pixel(&mut m, -1, 1, 9);
    safe_put_pixel(&mut m, 4, 0, 9);
    safe_put_pixel(&mut m, 0, 3, 9);
    safe_put_pixel(&mut m, 3, 2, 200);
    assert_eq!(covered_pixels(&m), vec![(2, 1, 7), (3, 2, 200)]);
    safe_put_pixel(&mut m, 2, 1, 0);
    assert_eq!(covered_pixels(&m), vec![(3, 2, 200)]);
    assert_eq!(m.dimensions(), (4, 3));
}

#[test]
fn covered_pixels_are_listed_row_by_row() {
    let mut m = Mask::blank(3, 3);
    safe_put_pixel(&mut m, 2, 0, 1);
    safe_put_pixel(&mut m, 0, 2, 3);
    safe_put_pixel(&mut m, 0, 0, 2);
    safe_put_pixel(&mut m, 1, 1, 4);
    assert_eq!(covered_pixels(&m), vec![(0, 0, 2), (2, 0, 1), (1, 1, 4), (0, 2, 3)]);
}

#[test]
fn straight_down_stops_before_the_end_row() {
    let mut m = Mask::blank(5, 6);
    draw_straight(&mut m, (1, 1), (1, 4), Direction::Bottom);
    assert_eq!(covered_pixels(&m), vec![(1, 1, 255), (1, 2, 255), (1, 3, 255)]);
}

#[test]
fn straight_right_is_clipped() {
    let mut m = Mask::blank(3, 2);
    draw_straight(&mut m, (-2, 1), (6, 1), Direction::Right);
    assert_eq!(covered_pixels(&m), vec![(0, 1, 255), (1, 1, 255), (2, 1, 255)]);
}

#[test]
fn other_directions_draw_only_the_start() {
    let mut m = Mask::blank(4, 4);
    draw_straight(&mut m, (1, 2), (3, 0), Direction::TopRight);
    assert_eq!(covered_pixels(&m), vec![(1, 2, 255)]);
    let mut m = Mask::blank(4, 4);
    draw_straight(&mut m, (1, 2), (1, 2), Direction::No);
    assert_eq!(covered_pixels(&m), vec![(1, 2, 255)]);
}

#[test]
fn walk_steps_up_down_and_right() {
    let mut m = Mask::blank(4, 4);
    let p = walk_step(&mut m, (1, 2), Direction::TopRight, true);
    assert_eq!(p, (1, 1));
    let p = walk_step(&mut m, p, Direction::TopRight, false);
    assert_eq!(p, (2, 1));
    let q = walk_step(&mut m, (0, 0), Direction::BottomRight, true);
    assert_eq!(q, (0, 1));
    let r = walk_step(&mut m, (3, 3), Direction::BottomRight, false);
    assert_eq!(r, (4, 3));
    assert_eq!(covered_pixels(&m), vec![(0, 1, 255), (1, 1, 255), (2, 1, 255)]);
}

#[test]
fn pixels_pair_up_by_row_order() {
    assert_eq!(paired_position(1, 1, 3, 3, 2), Some((1, 1)));
    assert_eq!(paired_position(1, 1, 3, 2, 4), Some((0, 2)));
    assert_eq!(paired_position(2, 1, 3, 2, 2), None);
    assert_eq!(paired_position(0, 0, 3, 0, 5), None);
    assert_eq!(paired_position(u32::MAX, u32::MAX, u32::MAX, u32::MAX, u32::MAX), None);
    assert_eq!(paired_position(0, 0, 1, 1, 1), Some((0, 0)));
}
