//! Drawing lines on a coverage mask, pixel by pixel.
//!
//! A line is drawn from its first end point (see `order_endpoints`) at the
//! pixel its coordinates truncate to. Going straight down or right, the
//! pixels up to, and not including, the end pixel's row or column are
//! drawn. Going diagonally, the line is walked one pixel at a time; which
//! way each step goes is decided by where the line crosses the pixel's
//! edges, which is floating-point work left to the caller.
use vstd::prelude::*;
use crate::direction::Direction;
use crate::mask::{mask_height, mask_pixels, mask_width, Mask};

verus! {

/// The value a drawn pixel gets.
pub const INK: u8 = 255;

/// Whether the position passes the bounds test of `safe_put_pixel`: both
/// coordinates non-negative and below the width and height taken as `i32`.
pub open spec fn visible(k: (int, int), w: u32, h: u32) -> bool {
    &&& 0 <= k.0 && k.0 < (w as i32) as int
    &&& 0 <= k.1 && k.1 < (h as i32) as int
}

/// The pixels after setting each visible position of `s` to `v`.
pub open spec fn paint(pixels: Map<(int, int), u8>, w: u32, h: u32, s: Set<(int, int)>, v: u8) -> Map<
    (int, int),
    u8,
> {
    Map::new(
        |k: (int, int)| pixels.contains_key(k),
        |k: (int, int)|
            if s.contains(k) && visible(k, w, h) {
                v
            } else {
                pixels[k]
            },
    )
}

/// The mask `after` is `before` with the positions of `s` painted `v`.
pub open spec fn painted(before: Mask, after: Mask, s: Set<(int, int)>, v: u8) -> bool {
    &&& mask_width(after) == mask_width(before)
    &&& mask_height(after) == mask_height(before)
    &&& mask_pixels(after) == paint(
        mask_pixels(before),
        mask_width(before),
        mask_height(before),
        s,
        v,
    )
}

/// The pixels of a line drawn from `start` towards `end` before any
/// diagonal walk: the start pixel, and, going down or right, the pixels
/// from the start up to the end's row or column, that one excluded.
pub open spec fn straight_pixels(start: (i32, i32), end: (i32, i32), d: Direction) -> Set<
    (int, int),
> {
    let ghost first = set![(start.0 as int, start.1 as int)];
    match d {
        Direction::Bottom => first + Set::new(
            |k: (int, int)| k.0 == start.0 && start.1 <= k.1 < end.1,
        ),
        Direction::Right => first + Set::new(
            |k: (int, int)| k.1 == start.1 && start.0 <= k.0 < end.0,
        ),
        _ => first,
    }
}

/// The pixel one step of a diagonal walk leads to: up (for `TopRight`) or
/// down (for `BottomRight`) when `vertical`, else right.
pub open spec fn walk_next(p: (i32, i32), d: Direction, vertical: bool) -> (int, int) {
    if vertical {
        if d == Direction::TopRight {
            (p.0 as int, p.1 - 1)
        } else {
            (p.0 as int, p.1 + 1)
        }
    } else {
        (p.0 + 1, p.1 as int)
    }
}

/// Painting more positions, one after the other, is painting them all.
pub proof fn lemma_paint_twice(
    pixels: Map<(int, int), u8>,
    w: u32,
    h: u32,
    s: Set<(int, int)>,
    t: Set<(int, int)>,
    v: u8,
)
    ensures
        paint(paint(pixels, w, h, s, v), w, h, t, v) == paint(pixels, w, h, s + t, v),
{
    assert(paint(paint(pixels, w, h, s, v), w, h, t, v) =~= paint(pixels, w, h, s + t, v));
}

/// Sets the pixel at `(x, y)` to `value` when it lies inside the mask, and
/// does nothing otherwise.
pub fn safe_put_pixel(buf: &mut Mask, x: i32, y: i32, value: u8)
    ensures
        painted(*old(buf), *final(buf), set![(x as int, y as int)], value),
        mask_width(*old(buf)) <= i32::MAX && mask_height(*old(buf)) <= i32::MAX && 0 <= x
            < mask_width(*old(buf)) && 0 <= y < mask_height(*old(buf)) ==> mask_pixels(
            *final(buf),
        )[(x as int, y as int)] == value,
        forall|k: (int, int)|
            k != (x as int, y as int) && #[trigger] mask_pixels(*old(buf)).contains_key(k)
                ==> mask_pixels(*final(buf)).contains_key(k) && mask_pixels(*final(buf))[k]
                == mask_pixels(*old(buf))[k],
{
    let w = buf.width();
    let h = buf.height();
    let ghost before = mask_pixels(*buf);
    if 0 <= x && x < w as i32 && 0 <= y && y < h as i32 {
        buf.put_pixel(x as u32, y as u32, value);
        assert(mask_pixels(*buf) =~= paint(before, w, h, set![(x as int, y as int)], value));
    } else {
        assert(before =~= paint(before, w, h, set![(x as int, y as int)], value));
    }
}

/// Draws the start pixel of a line and, when the line goes straight down
/// or straight right, the pixels from there up to the end pixel's row or
/// column, that one excluded.
pub fn draw_straight(buf: &mut Mask, start: (i32, i32), end: (i32, i32), d: Direction)
    ensures
        painted(*old(buf), *final(buf), straight_pixels(start, end, d), INK),
        d != Direction::Bottom && d != Direction::Right ==> painted(
            *old(buf),
            *final(buf),
            set![(start.0 as int, start.1 as int)],
            INK,
        ),
{
    proof {
        lemma_straight_pixels_shape(start, end, d);
    }
    let ghost before = *buf;
    let ghost first = set![(start.0 as int, start.1 as int)];
    safe_put_pixel(buf, start.0, start.1, INK);
    match d {
        Direction::Bottom => {
            let mut y = start.1;
            assert(first + Set::new(|k: (int, int)| k.0 == start.0 && start.1 <= k.1 < y) =~= first);
            while y < end.1
                invariant
                    start.1 <= y,
                    y <= end.1 || y == start.1,
                    painted(
                        before,
                        *buf,
                        first + Set::new(|k: (int, int)| k.0 == start.0 && start.1 <= k.1 < y),
                        INK,
                    ),
                decreases end.1 - y,
            {
                let ghost s = first + Set::new(
                    |k: (int, int)| k.0 == start.0 && start.1 <= k.1 < y,
                );
                safe_put_pixel(buf, start.0, y, INK);
                proof {
                    lemma_paint_twice(
                        mask_pixels(before),
                        mask_width(before),
                        mask_height(before),
                        s,
                        set![(start.0 as int, y as int)],
                        INK,
                    );
                    assert(s + set![(start.0 as int, y as int)] =~= first + Set::new(
                        |k: (int, int)| k.0 == start.0 && start.1 <= k.1 < y + 1,
                    ));
                }
                y = y + 1;
            }
            proof {
                assert(first + Set::new(|k: (int, int)| k.0 == start.0 && start.1 <= k.1 < y)
                    =~= straight_pixels(start, end, d));
            }
        },
        Direction::Right => {
            let mut x = start.0;
            assert(first + Set::new(|k: (int, int)| k.1 == start.1 && start.0 <= k.0 < x) =~= first);
            while x < end.0
                invariant
                    start.0 <= x,
                    x <= end.0 || x == start.0,
                    painted(
                        before,
                        *buf,
                        first + Set::new(|k: (int, int)| k.1 == start.1 && start.0 <= k.0 < x),
                        INK,
                    ),
                decreases end.0 - x,
            {
                let ghost s = first + Set::new(
                    |k: (int, int)| k.1 == start.1 && start.0 <= k.0 < x,
                );
                safe_put_pixel(buf, x, start.1, INK);
                proof {
                    lemma_paint_twice(
                        mask_pixels(before),
                        mask_width(before),
                        mask_height(before),
                        s,
                        set![(x as int, start.1 as int)],
                        INK,
                    );
                    assert(s + set![(x as int, start.1 as int)] =~= first + Set::new(
                        |k: (int, int)| k.1 == start.1 && start.0 <= k.0 < x + 1,
                    ));
                }
                x = x + 1;
            }
            proof {
                assert(first + Set::new(|k: (int, int)| k.1 == start.1 && start.0 <= k.0 < x)
                    =~= straight_pixels(start, end, d));
            }
        },
        _ => {
            assert(first =~= straight_pixels(start, end, d));
        },
    }
}

/// One step of a diagonal walk: moves the current pixel up (`TopRight`) or
/// down (`BottomRight`) when `vertical`, else right, and draws the pixel it
/// moves to.
pub fn walk_step(buf: &mut Mask, p: (i32, i32), d: Direction, vertical: bool) -> (q: (i32, i32))
    requires
        d == Direction::TopRight || d == Direction::BottomRight,
        vertical && d == Direction::TopRight ==> p.1 > i32::MIN,
        vertical && d == Direction::BottomRight ==> p.1 < i32::MAX,
        !vertical ==> p.0 < i32::MAX,
    ensures
        (q.0 as int, q.1 as int) == walk_next(p, d, vertical),
        painted(*old(buf), *final(buf), set![(q.0 as int, q.1 as int)], INK),
{
    let q = if vertical {
        if d == Direction::TopRight {
            (p.0, p.1 - 1)
        } else {
            (p.0, p.1 + 1)
        }
    } else {
        (p.0 + 1, p.1)
    };
    safe_put_pixel(buf, q.0, q.1, INK);
    q
}

/// The drawn pixels among the first `n` of row `y`, left to right, each
/// with its value.
pub open spec fn covered_in_row(pixels: Map<(int, int), u8>, y: int, n: int) -> Seq<
    (u32, u32, u8),
>
    decreases n,
{
    if n <= 0 {
        Seq::empty()
    } else {
        let v = pixels[(n - 1, y)];
        covered_in_row(pixels, y, n - 1) + if v != 0 {
            seq![((n - 1) as u32, y as u32, v)]
        } else {
            Seq::empty()
        }
    }
}

/// The drawn pixels of the first `n` rows of a mask `w` pixels wide, row by
/// row, each with its value.
pub open spec fn covered_rows(pixels: Map<(int, int), u8>, w: int, n: int) -> Seq<(u32, u32, u8)>
    decreases n,
{
    if n <= 0 {
        Seq::empty()
    } else {
        covered_rows(pixels, w, n - 1) + covered_in_row(pixels, n - 1, w)
    }
}

/// The pixels of the mask that are not 0, with their values, in the order
/// in which an image's pixels are walked (row by row, left to right): the
/// pixels whose color a drawn mask changes.
pub fn covered_pixels(mask: &Mask) -> (r: Vec<(u32, u32, u8)>)
    ensures
        r@ == covered_rows(mask_pixels(*mask), mask_width(*mask) as int, mask_height(*mask) as int),
{
    let (w, h) = mask.dimensions();
    let mut out: Vec<(u32, u32, u8)> = Vec::new();
    for y in 0..h
        invariant
            w == mask_width(*mask),
            h == mask_height(*mask),
            out@ == covered_rows(mask_pixels(*mask), w as int, y as int),
    {
        for x in 0..w
            invariant
                w == mask_width(*mask),
                h == mask_height(*mask),
                y < h,
                out@ == covered_rows(mask_pixels(*mask), w as int, y as int) + covered_in_row(
                    mask_pixels(*mask),
                    y as int,
                    x as int,
                ),
        {
            let v = mask.pixel(x, y);
            if v != 0 {
                out.push((x, y, v));
            }
            proof {
                let pre = covered_rows(mask_pixels(*mask), w as int, y as int);
                let row = covered_in_row(mask_pixels(*mask), y as int, x as int);
                if v != 0 {
                    assert(pre + row + seq![(x, y, v)] =~= pre + (row + seq![(x, y, v)]));
                } else {
                    assert(pre + row + Seq::empty() =~= pre + row);
                }
            }
        }
    }
    out
}

/// Exactly the drawn pixels of the mask are listed, each with its value.
pub proof fn lemma_covered_pixels_exact(pixels: Map<(int, int), u8>, w: int, h: int, x: u32, y: u32, v: u8)
    requires
        w <= u32::MAX + 1,
        h <= u32::MAX + 1,
    ensures
        covered_rows(pixels, w, h).contains((x, y, v)) <==> (x < w && y < h && v != 0
            && pixels[(x as int, y as int)] == v),
    decreases h,
{
    if h > 0 {
        lemma_covered_pixels_exact(pixels, w, h - 1, x, y, v);
        lemma_covered_in_row_exact(pixels, h - 1, w, x, y, v);
        let a = covered_rows(pixels, w, h - 1);
        let b = covered_in_row(pixels, h - 1, w);
        if (a + b).contains((x, y, v)) {
            let i = choose|i: int| 0 <= i < (a + b).len() && (a + b)[i] == (x, y, v);
            if i < a.len() {
                assert(a[i] == (x, y, v));
            } else {
                assert(b[i - a.len()] == (x, y, v));
            }
        }
        if a.contains((x, y, v)) {
            let i = choose|i: int| 0 <= i < a.len() && a[i] == (x, y, v);
            assert((a + b)[i] == (x, y, v));
        }
        if b.contains((x, y, v)) {
            let i = choose|i: int| 0 <= i < b.len() && b[i] == (x, y, v);
            assert((a + b)[a.len() + i] == (x, y, v));
        }
    }
}

proof fn lemma_covered_in_row_exact(pixels: Map<(int, int), u8>, row: int, n: int, x: u32, y: u32, v: u8)
    requires
        0 <= row <= u32::MAX,
        n <= u32::MAX + 1,
    ensures
        covered_in_row(pixels, row, n).contains((x, y, v)) <==> (x < n && y == row && v != 0
            && pixels[(x as int, y as int)] == v),
    decreases n,
{
    if n > 0 {
        lemma_covered_in_row_exact(pixels, row, n - 1, x, y, v);
        let a = covered_in_row(pixels, row, n - 1);
        let c = pixels[(n - 1, row)];
        let b: Seq<(u32, u32, u8)> = if c != 0 {
            seq![((n - 1) as u32, row as u32, c)]
        } else {
            Seq::empty()
        };
        if (a + b).contains((x, y, v)) {
            let i = choose|i: int| 0 <= i < (a + b).len() && (a + b)[i] == (x, y, v);
            if i < a.len() {
                assert(a[i] == (x, y, v));
            } else {
                assert(b[i - a.len()] == (x, y, v));
            }
        }
        if a.contains((x, y, v)) {
            let i = choose|i: int| 0 <= i < a.len() && a[i] == (x, y, v);
            assert((a + b)[i] == (x, y, v));
        }
        if x == n - 1 && y == row && v != 0 && pixels[(x as int, y as int)] == v {
            assert((a + b)[a.len() as int] == (x, y, v));
        }
    }
}

/// Where pixel `(x, y)` of a mask `src_width` pixels wide lands on an image
/// of `width` by `height` pixels when both are walked side by side in row
/// order: the image pixel with the same place in that order, if the image
/// has that many pixels.
pub open spec fn paired_position_spec(x: u32, y: u32, src_width: u32, width: u32, height: u32) -> Option<
    (u32, u32),
> {
    let index = y * src_width + x;
    if index < width * height {
        Some(((index % width as int) as u32, (index / width as int) as u32))
    } else {
        None
    }
}

/// The image pixel that pixel `(x, y)` of a mask `src_width` pixels wide
/// pairs with when the mask and an image of `width` by `height` pixels are
/// walked side by side in row order.
pub fn paired_position(x: u32, y: u32, src_width: u32, width: u32, height: u32) -> (r: Option<
    (u32, u32),
>)
    ensures
        r == paired_position_spec(x, y, src_width, width, height),
        pairs_in_row_order(x, y, src_width, width, height, r),
{
    proof {
        lemma_paired_position_row_order(x, y, src_width, width, height);
    }
    assert(0 <= y * src_width <= 0xffff_ffff * 0xffff_ffff) by (nonlinear_arith);
    assert(0 <= width * height <= 0xffff_ffff * 0xffff_ffff) by (nonlinear_arith);
    let index: u64 = y as u64 * src_width as u64 + x as u64;
    let size: u64 = width as u64 * height as u64;
    if index < size {
        let w = width as u64;
        assert(w > 0) by (nonlinear_arith)
            requires
                index < w * height,
                index >= 0,
        ;
        assert(index % w < w);
        assert(index / w < height) by (nonlinear_arith)
            requires
                w > 0,
                index < w * height,
        ;
        Some(((index % w) as u32, (index / w) as u32))
    } else {
        None
    }
}

/// Painting a set of positions, on an image whose width and height fit in
/// `i32`, sets every position of the set that lies inside the image to the
/// value, and leaves every position outside the set as it was; no position
/// is added or removed.
pub proof fn lemma_paint_inside_outside(
    pixels: Map<(int, int), u8>,
    w: u32,
    h: u32,
    s: Set<(int, int)>,
    v: u8,
)
    requires
        w <= i32::MAX,
        h <= i32::MAX,
    ensures
        paint(pixels, w, h, s, v).dom() == pixels.dom(),
        forall|k: (int, int)|
            #[trigger] pixels.contains_key(k) && s.contains(k) && 0 <= k.0 < w && 0 <= k.1 < h
                ==> paint(pixels, w, h, s, v)[k] == v,
        forall|k: (int, int)|
            #[trigger] pixels.contains_key(k) && !s.contains(k) ==> paint(pixels, w, h, s, v)[k]
                == pixels[k],
{
    assert(paint(pixels, w, h, s, v).dom() =~= pixels.dom());
}

/// The straight part of a line is its start pixel and, only when the line
/// goes straight down or straight right, the run in the start's column
/// (down to the end's row, excluded) or row (up to the end's column,
/// excluded). Any other direction, diagonal ones included, draws only the
/// start pixel.
pub proof fn lemma_straight_pixels_shape(start: (i32, i32), end: (i32, i32), d: Direction)
    ensures
        d != Direction::Bottom && d != Direction::Right ==> straight_pixels(start, end, d) == set![
            (start.0 as int, start.1 as int),
        ],
        d == Direction::Bottom ==> forall|k: (int, int)|
            #[trigger] straight_pixels(start, end, d).contains(k) <==> k == (
                start.0 as int,
                start.1 as int,
            ) || (k.0 == start.0 && start.1 <= k.1 < end.1),
        d == Direction::Right ==> forall|k: (int, int)|
            #[trigger] straight_pixels(start, end, d).contains(k) <==> k == (
                start.0 as int,
                start.1 as int,
            ) || (k.1 == start.1 && start.0 <= k.0 < end.0),
{
}

/// What pairing a mask pixel with an image pixel in row order means: the
/// image pixel is inside the image and has the mask pixel's place in row
/// order, and there is none exactly when the image has too few pixels; on
/// a mask and an image of equal size each pixel pairs with itself.
pub open spec fn pairs_in_row_order(
    x: u32,
    y: u32,
    src_width: u32,
    width: u32,
    height: u32,
    r: Option<(u32, u32)>,
) -> bool {
    &&& r matches Some(p) ==> p.0 < width && p.1 < height && p.1 * width + p.0 == y * src_width
        + x
    &&& r is None ==> y * src_width + x >= width * height
    &&& src_width == width && x < width && y < height ==> r == Some((x, y))
}

/// `paired_position_spec` pairs pixels in row order.
pub proof fn lemma_paired_position_row_order(
    x: u32,
    y: u32,
    src_width: u32,
    width: u32,
    height: u32,
)
    ensures
        pairs_in_row_order(
            x,
            y,
            src_width,
            width,
            height,
            paired_position_spec(x, y, src_width, width, height),
        ),
{
    let index: int = y * src_width + x;
    let w = width as int;
    let h = height as int;
    if index < w * h {
        assert(w > 0) by (nonlinear_arith)
            requires
                index < w * h,
                index >= 0,
                h >= 0,
        ;
        vstd::arithmetic::div_mod::lemma_fundamental_div_mod(index, w);
        let q = index / w;
        let rm = index % w;
        assert(0 <= rm < w);
        assert(0 <= q) by (nonlinear_arith)
            requires
                index == w * q + rm,
                rm < w,
                index >= 0,
                w > 0,
        ;
        assert(q < h) by (nonlinear_arith)
            requires
                index == w * q + rm,
                0 <= rm,
                index < w * h,
                w > 0,
        ;
        assert(q * w + rm == index) by (nonlinear_arith)
            requires
                index == w * q + rm,
        ;
        if src_width == width && x < width && y < height {
            vstd::arithmetic::div_mod::lemma_fundamental_div_mod_converse(index, w, y as int, x as int);
        }
    } else {
        if src_width == width && x < width && y < height {
            assert(index < w * h) by (nonlinear_arith)
                requires
                    index == y * w + x,
                    x < w,
                    y < h,
                    0 <= x,
                    0 <= y,
            ;
        }
    }
}

} // verus!
