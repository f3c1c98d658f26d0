//! Turning the curves of a path into straight lines.
//!
//! Approximating a curve by points within a tolerance is floating-point work
//! that the caller does; these functions take, for each item of the path, the
//! points that approximate it, and build the flattened path from them.
//!
//! For an arc or an ellipse the points run from the arc's first point to its
//! last. For a quadratic or cubic curve they run from the first point after
//! the curve's start to its end.
use vstd::prelude::*;
use crate::point::{is_ordered_point, point_eq, point_eq_spec, Point, ZERO};
use crate::path::{is_curve, is_jump, Line, Path, PathItem};

verus! {

/// The lines of a polyline that starts at `p` and goes through `qs` in
/// turn; a point equal to the current one adds no line.
pub open spec fn polyline(p: Point, qs: Seq<Point>) -> Seq<PathItem>
    decreases qs.len(),
{
    if qs.len() == 0 {
        Seq::empty()
    } else if point_eq_spec(p, qs[0]) {
        polyline(p, qs.drop_first())
    } else {
        seq![PathItem::Line(Line(p, qs[0]))] + polyline(qs[0], qs.drop_first())
    }
}

/// What flattening makes of one item, given the points that approximate it.
pub open spec fn flatten_item(item: PathItem, pts: Seq<Point>) -> Seq<PathItem> {
    match item {
        PathItem::Arc(_) => polyline(pts[0], pts),
        PathItem::Ellipse(_) => polyline(pts[0], pts),
        PathItem::Quad(q) => polyline(q.start, pts),
        PathItem::Cubic(c) => polyline(c.start, pts),
        _ => seq![item],
    }
}

/// What flattening only the cubic curves makes of one item.
pub open spec fn flatten_cubic_item(item: PathItem, pts: Seq<Point>) -> Seq<PathItem> {
    match item {
        PathItem::Cubic(c) => polyline(c.start, pts),
        _ => seq![item],
    }
}

/// The flattening of the first `n` items.
pub open spec fn flatten_items(items: Seq<PathItem>, flats: Seq<Vec<Point>>, n: int) -> Seq<
    PathItem,
>
    decreases n,
{
    if n <= 0 {
        Seq::empty()
    } else {
        flatten_items(items, flats, n - 1) + flatten_item(items[n - 1], flats[n - 1]@)
    }
}

/// The flattening of the cubic curves among the first `n` items.
pub open spec fn flatten_cubic_items(items: Seq<PathItem>, flats: Seq<Vec<Point>>, n: int) -> Seq<
    PathItem,
>
    decreases n,
{
    if n <= 0 {
        Seq::empty()
    } else {
        flatten_cubic_items(items, flats, n - 1) + flatten_cubic_item(items[n - 1], flats[n - 1]@)
    }
}

/// There is one list of points per item, and an arc's or an ellipse's list
/// holds at least its first point.
pub open spec fn flattenings_fit(items: Seq<PathItem>, flats: Seq<Vec<Point>>) -> bool {
    &&& flats.len() == items.len()
    &&& forall|i: int|
        0 <= i < items.len() && (items[i] is Arc || items[i] is Ellipse) ==> flats[i]@.len() > 0
}

/// Appends the polyline from `start` through `pts`.
fn push_polyline(out: &mut Vec<PathItem>, start: Point, pts: &Vec<Point>)
    ensures
        final(out)@ == old(out)@ + polyline(start, pts@),
{
    let mut p = start;
    let n = pts.len();
    let ghost initial = old(out)@;
    assert(pts@.skip(0) =~= pts@);
    for j in 0..n
        invariant
            n == pts.len(),
            initial + polyline(start, pts@) == out@ + polyline(p, pts@.skip(j as int)),
    {
        let q = pts[j];
        assert(pts@.skip(j as int).drop_first() =~= pts@.skip(j + 1));
        if !point_eq(p, q) {
            out.push(PathItem::Line(Line(p, q)));
            p = q;
        }
    }
    assert(pts@.skip(n as int) =~= Seq::<Point>::empty());
    assert(out@ + Seq::<PathItem>::empty() =~= out@);
}

/// Flattens a path: each curve becomes the lines through the points given
/// for it, skipping points equal to the one before; lines and jumps stay
/// as they are.
pub fn path_flatten(path: &Path, flattened: &Vec<Vec<Point>>) -> (r: Path)
    requires
        flattenings_fit(path.0@, flattened@),
    ensures
        r.0@ == flatten_items(path.0@, flattened@, path.0@.len() as int),
{
    let mut pis: Vec<PathItem> = Vec::new();
    let n = path.0.len();
    for i in 0..n
        invariant
            n == path.0@.len(),
            flattenings_fit(path.0@, flattened@),
            pis@ == flatten_items(path.0@, flattened@, i as int),
    {
        let item = path.0[i];
        let pts = &flattened[i];
        match item {
            PathItem::Arc(_) | PathItem::Ellipse(_) => {
                push_polyline(&mut pis, pts[0], pts);
            },
            PathItem::Quad(q) => {
                push_polyline(&mut pis, q.start, pts);
            },
            PathItem::Cubic(c) => {
                push_polyline(&mut pis, c.start, pts);
            },
            _ => {
                pis.push(item);
            },
        }
    }
    Path(pis)
}

/// Flattens only the cubic curves of a path; every other item stays as it
/// is. The points given for items that are not cubic curves are not read.
pub fn path_flatten_only_cubic(path: &Path, flattened: &Vec<Vec<Point>>) -> (r: Path)
    requires
        flattened@.len() == path.0@.len(),
    ensures
        r.0@ == flatten_cubic_items(path.0@, flattened@, path.0@.len() as int),
{
    let mut pis: Vec<PathItem> = Vec::new();
    let n = path.0.len();
    for i in 0..n
        invariant
            n == path.0@.len(),
            flattened@.len() == n,
            pis@ == flatten_cubic_items(path.0@, flattened@, i as int),
    {
        let item = path.0[i];
        match item {
            PathItem::Cubic(c) => {
                push_polyline(&mut pis, c.start, &flattened[i]);
            },
            _ => {
                pis.push(item);
            },
        }
    }
    Path(pis)
}

/// The segment an item holds, when it is a line.
pub open spec fn segment(item: PathItem) -> Line {
    match item {
        PathItem::Line(l) => l,
        _ => Line(Point(0, 0), Point(0, 0)),
    }
}

/// The polyline that stands for a curve is one chain of lines starting at
/// the curve's start: each line begins where the one before it ends, and no
/// line joins two equal points.
pub proof fn lemma_polyline_is_chain(p: Point, qs: Seq<Point>)
    ensures
        ({
            let ls = polyline(p, qs);
            &&& forall|k: int| 0 <= k < ls.len() ==> #[trigger] ls[k] is Line
            &&& forall|k: int|
                0 <= k < ls.len() ==> !point_eq_spec(#[trigger] segment(ls[k]).0, segment(ls[k]).1)
            &&& ls.len() > 0 ==> segment(ls[0]).0 == p
            &&& forall|k: int|
                0 <= k < ls.len() - 1 ==> #[trigger] segment(ls[k]).1 == segment(ls[k + 1]).0
        }),
    decreases qs.len(),
{
    if qs.len() > 0 {
        let rest = qs.drop_first();
        if point_eq_spec(p, qs[0]) {
            lemma_polyline_is_chain(p, rest);
        } else {
            lemma_polyline_is_chain(qs[0], rest);
            let tail = polyline(qs[0], rest);
            let ls = polyline(p, qs);
            assert(ls == seq![PathItem::Line(Line(p, qs[0]))] + tail);
            assert forall|k: int| 0 <= k < ls.len() - 1 implies #[trigger] segment(ls[k]).1
                == segment(ls[k + 1]).0 by {
                if k > 0 {
                    assert(ls[k] == tail[k - 1]);
                    assert(ls[k + 1] == tail[k]);
                }
            }
            assert forall|k: int| 0 <= k < ls.len() implies #[trigger] ls[k] is Line by {
                if k > 0 {
                    assert(ls[k] == tail[k - 1]);
                }
            }
            assert forall|k: int| 0 <= k < ls.len() implies !point_eq_spec(
                #[trigger] segment(ls[k]).0,
                segment(ls[k]).1,
            ) by {
                if k > 0 {
                    assert(ls[k] == tail[k - 1]);
                }
            }
        }
    }
}

proof fn lemma_flatten_item_no_curve(item: PathItem, pts: Seq<Point>)
    ensures
        forall|k: int|
            0 <= k < flatten_item(item, pts).len() ==> !is_curve(#[trigger] flatten_item(item, pts)[k]),
{
    match item {
        PathItem::Arc(_) => lemma_polyline_is_chain(pts[0], pts),
        PathItem::Ellipse(_) => lemma_polyline_is_chain(pts[0], pts),
        PathItem::Quad(q) => lemma_polyline_is_chain(q.start, pts),
        PathItem::Cubic(c) => lemma_polyline_is_chain(c.start, pts),
        _ => {},
    }
}

/// Flattening leaves no curve in a path: only lines and jumps.
pub proof fn lemma_flatten_has_no_curves(items: Seq<PathItem>, flats: Seq<Vec<Point>>, n: int)
    ensures
        forall|k: int|
            0 <= k < flatten_items(items, flats, n).len() ==> !is_curve(
                #[trigger] flatten_items(items, flats, n)[k],
            ),
    decreases n,
{
    if n > 0 {
        lemma_flatten_has_no_curves(items, flats, n - 1);
        lemma_flatten_item_no_curve(items[n - 1], flats[n - 1]@);
        let a = flatten_items(items, flats, n - 1);
        let b = flatten_item(items[n - 1], flats[n - 1]@);
        assert forall|k: int| 0 <= k < (a + b).len() implies !is_curve(#[trigger] (a + b)[k]) by {
            if k >= a.len() {
                assert((a + b)[k] == b[k - a.len()]);
            }
        }
    }
}

/// A path without curves comes out of flattening unchanged.
pub proof fn lemma_flatten_without_curves_is_identity(items: Seq<PathItem>, flats: Seq<Vec<Point>>)
    requires
        forall|i: int| 0 <= i < items.len() ==> !is_curve(#[trigger] items[i]),
    ensures
        flatten_items(items, flats, items.len() as int) == items,
{
    lemma_flatten_identity_prefix(items, flats, items.len() as int);
    assert(items.take(items.len() as int) =~= items);
}

proof fn lemma_flatten_identity_prefix(items: Seq<PathItem>, flats: Seq<Vec<Point>>, n: int)
    requires
        0 <= n <= items.len(),
        forall|i: int| 0 <= i < items.len() ==> !is_curve(#[trigger] items[i]),
    ensures
        flatten_items(items, flats, n) == items.take(n),
    decreases n,
{
    if n > 0 {
        lemma_flatten_identity_prefix(items, flats, n - 1);
        assert(!is_curve(items[n - 1]));
        assert(items.take(n - 1).push(items[n - 1]) =~= items.take(n));
    } else {
        assert(items.take(0) =~= Seq::<PathItem>::empty());
    }
}

/// Flattening a flattened path changes nothing, whatever points are given
/// the second time.
pub proof fn lemma_flatten_idempotent(
    items: Seq<PathItem>,
    flats: Seq<Vec<Point>>,
    again: Seq<Vec<Point>>,
)
    ensures
        ({
            let once = flatten_items(items, flats, items.len() as int);
            flatten_items(once, again, once.len() as int) == once
        }),
{
    let once = flatten_items(items, flats, items.len() as int);
    lemma_flatten_has_no_curves(items, flats, items.len() as int);
    lemma_flatten_without_curves_is_identity(once, again);
}

proof fn lemma_polyline_has_no_jump(p: Point, qs: Seq<Point>)
    ensures
        polyline(p, qs).filter(|x: PathItem| is_jump(x)) == Seq::<PathItem>::empty(),
    decreases qs.len(),
{
    let pred = |x: PathItem| is_jump(x);
    if qs.len() > 0 {
        let rest = qs.drop_first();
        if point_eq_spec(p, qs[0]) {
            lemma_polyline_has_no_jump(p, rest);
        } else {
            lemma_polyline_has_no_jump(qs[0], rest);
            let head = seq![PathItem::Line(Line(p, qs[0]))];
            Seq::filter_distributes_over_add(head, polyline(qs[0], rest), pred);
            reveal_with_fuel(Seq::filter, 2);
            assert(head.drop_last() =~= Seq::<PathItem>::empty());
            assert(head.filter(pred) =~= Seq::<PathItem>::empty());
            assert(Seq::<PathItem>::empty() + Seq::<PathItem>::empty() =~= Seq::<PathItem>::empty());
        }
    } else {
        reveal_with_fuel(Seq::filter, 1);
    }
}

proof fn lemma_flatten_item_jumps(item: PathItem, pts: Seq<Point>)
    ensures
        flatten_item(item, pts).filter(|x: PathItem| is_jump(x)) == seq![item].filter(
            |x: PathItem| is_jump(x),
        ),
{
    let pred = |x: PathItem| is_jump(x);
    reveal_with_fuel(Seq::filter, 2);
    assert(seq![item].drop_last() =~= Seq::<PathItem>::empty());
    match item {
        PathItem::Arc(_) => lemma_polyline_has_no_jump(pts[0], pts),
        PathItem::Ellipse(_) => lemma_polyline_has_no_jump(pts[0], pts),
        PathItem::Quad(q) => lemma_polyline_has_no_jump(q.start, pts),
        PathItem::Cubic(c) => lemma_polyline_has_no_jump(c.start, pts),
        _ => {},
    }
    if is_curve(item) {
        assert(seq![item].filter(pred) =~= Seq::<PathItem>::empty());
    }
}

proof fn lemma_flatten_jumps_prefix(items: Seq<PathItem>, flats: Seq<Vec<Point>>, n: int)
    requires
        0 <= n <= items.len(),
    ensures
        flatten_items(items, flats, n).filter(|x: PathItem| is_jump(x)) == items.take(n).filter(
            |x: PathItem| is_jump(x),
        ),
    decreases n,
{
    let pred = |x: PathItem| is_jump(x);
    if n > 0 {
        lemma_flatten_jumps_prefix(items, flats, n - 1);
        lemma_flatten_item_jumps(items[n - 1], flats[n - 1]@);
        Seq::filter_distributes_over_add(
            flatten_items(items, flats, n - 1),
            flatten_item(items[n - 1], flats[n - 1]@),
            pred,
        );
        assert(items.take(n - 1) + seq![items[n - 1]] =~= items.take(n));
        Seq::filter_distributes_over_add(items.take(n - 1), seq![items[n - 1]], pred);
    } else {
        reveal_with_fuel(Seq::filter, 1);
        assert(items.take(0) =~= Seq::<PathItem>::empty());
    }
}

/// Flattening keeps the sub-path structure: the jumps of the result are the
/// jumps of the path, in the same order.
pub proof fn lemma_flatten_keeps_jumps(items: Seq<PathItem>, flats: Seq<Vec<Point>>)
    ensures
        flatten_items(items, flats, items.len() as int).filter(|x: PathItem| is_jump(x))
            == items.filter(|x: PathItem| is_jump(x)),
{
    lemma_flatten_jumps_prefix(items, flats, items.len() as int);
    assert(items.take(items.len() as int) =~= items);
}

proof fn lemma_flatten_cubic_item_no_cubic(item: PathItem, pts: Seq<Point>)
    ensures
        forall|k: int|
            0 <= k < flatten_cubic_item(item, pts).len() ==> !(#[trigger] flatten_cubic_item(
                item,
                pts,
            )[k] is Cubic),
{
    if let PathItem::Cubic(c) = item {
        lemma_polyline_is_chain(c.start, pts);
    }
}

/// Flattening the cubic curves leaves no cubic curve in a path.
pub proof fn lemma_flatten_cubic_has_no_cubic(items: Seq<PathItem>, flats: Seq<Vec<Point>>, n: int)
    ensures
        forall|k: int|
            0 <= k < flatten_cubic_items(items, flats, n).len() ==> !(
            #[trigger] flatten_cubic_items(items, flats, n)[k] is Cubic),
    decreases n,
{
    if n > 0 {
        lemma_flatten_cubic_has_no_cubic(items, flats, n - 1);
        lemma_flatten_cubic_item_no_cubic(items[n - 1], flats[n - 1]@);
        let a = flatten_cubic_items(items, flats, n - 1);
        let b = flatten_cubic_item(items[n - 1], flats[n - 1]@);
        assert forall|k: int| 0 <= k < (a + b).len() implies !((#[trigger] (a + b)[k]) is Cubic) by {
            if k >= a.len() {
                assert((a + b)[k] == b[k - a.len()]);
            }
        }
    }
}

/// On a path whose only curves are cubic, flattening everything and
/// flattening only the cubic curves give the same path.
pub proof fn lemma_flatten_cubic_agrees(items: Seq<PathItem>, flats: Seq<Vec<Point>>, n: int)
    requires
        n <= items.len(),
        forall|i: int|
            0 <= i < items.len() ==> !(#[trigger] items[i] is Arc || items[i] is Ellipse
                || items[i] is Quad),
    ensures
        flatten_items(items, flats, n) == flatten_cubic_items(items, flats, n),
    decreases n,
{
    if n > 0 {
        lemma_flatten_cubic_agrees(items, flats, n - 1);
        assert(!(items[n - 1] is Arc || items[n - 1] is Ellipse || items[n - 1] is Quad));
    }
}

/// The lines from `p` through each of `qs` in turn, one line per point.
pub open spec fn chain(p: Point, qs: Seq<Point>) -> Seq<PathItem>
    decreases qs.len(),
{
    if qs.len() == 0 {
        Seq::empty()
    } else {
        seq![PathItem::Line(Line(p, qs[0]))] + chain(qs[0], qs.drop_first())
    }
}

/// The lines that the line-by-line flattening yields for one item, given
/// the points that approximate it. Jumps yield nothing.
pub open spec fn stream_item(item: PathItem, pts: Seq<Point>) -> Seq<PathItem> {
    match item {
        PathItem::Line(l) => seq![PathItem::Line(l)],
        PathItem::Arc(_) => chain(pts[0], pts.drop_first()),
        PathItem::Ellipse(_) => chain(pts[0], pts.drop_first()),
        PathItem::Quad(q) => chain(q.start, pts),
        PathItem::Cubic(c) => chain(c.start, pts),
        _ => Seq::empty(),
    }
}

/// The lines that the line-by-line flattening yields for the first `n`
/// items.
pub open spec fn stream_items(items: Seq<PathItem>, flats: Seq<Vec<Point>>, n: int) -> Seq<
    PathItem,
>
    decreases n,
{
    if n <= 0 {
        Seq::empty()
    } else {
        stream_items(items, flats, n - 1) + stream_item(items[n - 1], flats[n - 1]@)
    }
}

/// What the line-by-line flattening is doing.
enum FlattenState {
    /// One line is left, from the last point to this one.
    Line(Point),
    /// Lines through these points from the given index on are left.
    Lines(Vec<Point>, usize),
    /// The next item of the path is needed.
    Pending,
    /// The path has no more items.
    End,
}

/// What one step of the line-by-line flattening gives.
pub enum FlattenStep {
    /// The next line.
    Item(PathItem),
    /// The next item of the path has to be handed over first, with
    /// `next_state`.
    NeedItem,
    /// There are no more lines.
    Done,
}

/// The flattening of a path into lines, one line at a time.
///
/// The path's items are handed over one by one with `next_state` (with the
/// points that approximate each, as for `path_flatten`), each time `next`
/// asks for one. Unlike `path_flatten`, this yields a line for every point,
/// equal or not to the one before, and drops the jumps.
pub struct Flatten {
    last: Point,
    state: FlattenState,
}

impl Flatten {
    #[verifier::type_invariant]
    spec fn well_formed(self) -> bool {
        match self.state {
            FlattenState::Lines(ps, i) => i <= ps@.len(),
            _ => true,
        }
    }

    /// The lines that will come out before another item is needed.
    pub closed spec fn pending(self) -> Seq<PathItem> {
        match self.state {
            FlattenState::Line(p) => seq![PathItem::Line(Line(self.last, p))],
            FlattenState::Lines(ps, i) => chain(self.last, ps@.skip(i as int)),
            _ => Seq::empty(),
        }
    }

    /// The next item of the path is needed now.
    pub closed spec fn awaiting(self) -> bool {
        self.state is Pending
    }

    /// Exactly one line is left, the one of a line item: once it is out,
    /// the next item is needed at once.
    pub closed spec fn single_line(self) -> bool {
        self.state is Line
    }

    /// The path has run out of items.
    pub closed spec fn finished(self) -> bool {
        self.state is End
    }

    /// A finished flattening asks for no more items and has no lines left;
    /// one that asks for an item has no lines left either.
    pub proof fn lemma_states(self)
        ensures
            self.finished() ==> !self.awaiting() && self.pending() == Seq::<PathItem>::empty(),
            self.awaiting() ==> !self.finished() && self.pending() == Seq::<PathItem>::empty(),
            self.single_line() ==> !self.finished() && !self.awaiting() && self.pending().len()
                == 1,
    {
    }

    /// A flattening that waits for the first item of the path.
    pub fn new() -> (f: Flatten)
        ensures
            f.awaiting(),
            !f.finished(),
            f.pending() == Seq::<PathItem>::empty(),
    {
        Flatten { last: Point(ZERO, ZERO), state: FlattenState::Pending }
    }

    /// Whether the next item of the path is needed now.
    pub fn needs_item(&self) -> (r: bool)
        ensures
            r == self.awaiting(),
    {
        match self.state {
            FlattenState::Pending => true,
            _ => false,
        }
    }

    /// Hands over the next item of the path, with the points that
    /// approximate it, or `None` when the path has no more items.
    pub fn next_state(&mut self, item: Option<PathItem>, points: Vec<Point>)
        requires
            old(self).awaiting(),
            item matches Some(it) && (it is Arc || it is Ellipse) ==> points@.len() > 0,
        ensures
            item is None ==> final(self).finished() && !final(self).awaiting()
                && final(self).pending() == Seq::<PathItem>::empty(),
            item matches Some(it) ==> {
                &&& final(self).pending() == stream_item(it, points@)
                &&& !final(self).finished()
                &&& final(self).awaiting() == is_jump(it)
                &&& final(self).single_line() == it is Line
            },
    {
        match item {
            None => {
                self.state = FlattenState::End;
            },
            Some(PathItem::Line(l)) => {
                self.last = l.0;
                self.state = FlattenState::Line(l.1);
            },
            Some(PathItem::Arc(_)) | Some(PathItem::Ellipse(_)) => {
                self.last = points[0];
                proof {
                    assert(points@.skip(1) =~= points@.drop_first());
                }
                self.state = FlattenState::Lines(points, 1);
            },
            Some(PathItem::Quad(q)) => {
                self.last = q.start;
                proof {
                    assert(points@.skip(0) =~= points@);
                }
                self.state = FlattenState::Lines(points, 0);
            },
            Some(PathItem::Cubic(c)) => {
                self.last = c.start;
                proof {
                    assert(points@.skip(0) =~= points@);
                }
                self.state = FlattenState::Lines(points, 0);
            },
            Some(_) => {
                self.state = FlattenState::Pending;
            },
        }
    }

    /// The next line, or what is needed before there can be one.
    pub fn next(&mut self) -> (step: FlattenStep)
        ensures
            old(self).pending().len() > 0 ==> {
                &&& step == FlattenStep::Item(old(self).pending()[0])
                &&& final(self).pending() == old(self).pending().drop_first()
                &&& !final(self).finished()
                &&& final(self).awaiting() == old(self).single_line()
                &&& !final(self).single_line()
            },
            old(self).pending().len() == 0 && !old(self).finished() ==> {
                &&& step is NeedItem
                &&& final(self).awaiting()
                &&& final(self).pending() == Seq::<PathItem>::empty()
                &&& !final(self).finished()
            },
            old(self).finished() ==> {
                &&& step is Done
                &&& final(self).finished()
                &&& !final(self).awaiting()
                &&& final(self).pending() == Seq::<PathItem>::empty()
            },
    {
        proof {
            use_type_invariant(&*self);
        }
        let mut state = FlattenState::End;
        std::mem::swap(&mut state, &mut self.state);
        match state {
            FlattenState::Line(p) => {
                let line = PathItem::Line(Line(self.last, p));
                self.state = FlattenState::Pending;
                FlattenStep::Item(line)
            },
            FlattenState::Lines(ps, i) => {
                if i == ps.len() {
                    self.state = FlattenState::Pending;
                    FlattenStep::NeedItem
                } else {
                    let q = ps[i];
                    let line = PathItem::Line(Line(self.last, q));
                    proof {
                        assert(ps@.skip(i as int).drop_first() =~= ps@.skip(i + 1));
                    }
                    self.last = q;
                    self.state = FlattenState::Lines(ps, i + 1);
                    FlattenStep::Item(line)
                }
            },
            FlattenState::Pending => {
                self.state = FlattenState::Pending;
                FlattenStep::NeedItem
            },
            FlattenState::End => FlattenStep::Done,
        }
    }
}

/// A copy of a list of points.
fn copy_points(pts: &Vec<Point>) -> (r: Vec<Point>)
    ensures
        r@ == pts@,
{
    let mut r: Vec<Point> = Vec::new();
    for j in 0..pts.len()
        invariant
            r@ == pts@.take(j as int),
    {
        r.push(pts[j]);
        assert(pts@.take(j as int).push(pts@[j as int]) =~= pts@.take(j + 1));
    }
    assert(pts@.take(pts@.len() as int) =~= pts@);
    r
}

/// Runs the line-by-line flattening over a whole path, handing over each
/// item when it is asked for, and collects what comes out: for each line
/// that line, for each curve the chain of lines through its points, and
/// nothing for the jumps.
pub fn flatten_lines(items: &Vec<PathItem>, flattened: &Vec<Vec<Point>>) -> (r: Vec<PathItem>)
    requires
        flattenings_fit(items@, flattened@),
    ensures
        r@ == stream_items(items@, flattened@, items@.len() as int),
{
    let n = items.len();
    let mut out: Vec<PathItem> = Vec::new();
    let mut f = Flatten::new();
    let mut i: usize = 0;
    loop
        invariant_except_break
            n == items@.len(),
            flattenings_fit(items@, flattened@),
            i <= n,
            out@ + f.pending() == stream_items(items@, flattened@, i as int),
            f.finished() ==> i == n,
            f.awaiting() ==> f.pending().len() == 0,
        ensures
            out@ == stream_items(items@, flattened@, n as int),
        decreases (n - i) + (if f.finished() { 0int } else { 1int }), f.pending().len(), (if f.awaiting() { 0int } else { 1int }),
    {
        match f.next() {
            FlattenStep::Item(x) => {
                out.push(x);
            },
            FlattenStep::NeedItem => {
                if i < n {
                    let pts = copy_points(&flattened[i]);
                    f.next_state(Some(items[i]), pts);
                    i = i + 1;
                } else {
                    f.next_state(None, Vec::new());
                }
            },
            FlattenStep::Done => {
                break;
            },
        }
    }
    out
}

/// No point of `qs` equals the one before it (the first is compared
/// with `p`).
pub open spec fn never_repeats(p: Point, qs: Seq<Point>) -> bool {
    &&& qs.len() > 0 ==> !point_eq_spec(p, qs[0])
    &&& forall|k: int| 0 <= k < qs.len() - 1 ==> !point_eq_spec(#[trigger] qs[k], qs[k + 1])
}

/// When no point of a curve's approximation equals the one before it,
/// `path_flatten` and the line-by-line flattening give the curve the same
/// lines.
pub proof fn lemma_polyline_without_repeats(p: Point, qs: Seq<Point>)
    requires
        never_repeats(p, qs),
    ensures
        polyline(p, qs) == chain(p, qs),
    decreases qs.len(),
{
    if qs.len() > 0 {
        let rest = qs.drop_first();
        assert forall|k: int| 0 <= k < rest.len() - 1 implies !point_eq_spec(
            #[trigger] rest[k],
            rest[k + 1],
        ) by {
            assert(rest[k] == qs[k + 1]);
            assert(rest[k + 1] == qs[k + 2]);
        }
        if rest.len() > 0 {
            assert(rest[0] == qs[1]);
        }
        lemma_polyline_without_repeats(qs[0], rest);
    }
}

/// The line-by-line flattening of a curve is one chain of lines starting at
/// the curve's start, each beginning where the one before it ends.
pub proof fn lemma_chain_is_connected(p: Point, qs: Seq<Point>)
    ensures
        ({
            let ls = chain(p, qs);
            &&& ls.len() == qs.len()
            &&& forall|k: int| 0 <= k < ls.len() ==> #[trigger] ls[k] is Line
            &&& forall|k: int| 0 <= k < ls.len() ==> #[trigger] segment(ls[k]).1 == qs[k]
            &&& ls.len() > 0 ==> segment(ls[0]).0 == p
            &&& forall|k: int|
                0 <= k < ls.len() - 1 ==> #[trigger] segment(ls[k]).1 == segment(ls[k + 1]).0
        }),
    decreases qs.len(),
{
    if qs.len() > 0 {
        let rest = qs.drop_first();
        lemma_chain_is_connected(qs[0], rest);
        let tail = chain(qs[0], rest);
        let ls = chain(p, qs);
        assert forall|k: int| 0 < k < ls.len() implies ls[k] == tail[k - 1] by {}
        assert forall|k: int| 0 <= k < ls.len() implies #[trigger] segment(ls[k]).1 == qs[k] by {
            if k > 0 {
                assert(ls[k] == tail[k - 1]);
                assert(rest[k - 1] == qs[k]);
            }
        }
        assert forall|k: int| 0 <= k < ls.len() implies #[trigger] ls[k] is Line by {
            if k > 0 {
                assert(ls[k] == tail[k - 1]);
            }
        }
        assert forall|k: int| 0 <= k < ls.len() - 1 implies #[trigger] segment(ls[k]).1
            == segment(ls[k + 1]).0 by {
            if k > 0 {
                assert(ls[k] == tail[k - 1]);
                assert(ls[k + 1] == tail[k]);
            }
        }
    }
}

/// A path without cubic curves comes out of `path_flatten_only_cubic`
/// unchanged.
pub proof fn lemma_flatten_cubic_without_cubic_is_identity(
    items: Seq<PathItem>,
    flats: Seq<Vec<Point>>,
    n: int,
)
    requires
        0 <= n <= items.len(),
        forall|i: int| 0 <= i < items.len() ==> !(#[trigger] items[i] is Cubic),
    ensures
        flatten_cubic_items(items, flats, n) == items.take(n),
    decreases n,
{
    if n > 0 {
        lemma_flatten_cubic_without_cubic_is_identity(items, flats, n - 1);
        assert(!(items[n - 1] is Cubic));
        assert(items.take(n - 1).push(items[n - 1]) =~= items.take(n));
    } else {
        assert(items.take(0) =~= Seq::<PathItem>::empty());
    }
}

/// The line-by-line flattening yields nothing but lines.
pub proof fn lemma_stream_only_lines(items: Seq<PathItem>, flats: Seq<Vec<Point>>, n: int)
    ensures
        forall|k: int|
            0 <= k < stream_items(items, flats, n).len() ==> #[trigger] stream_items(
                items,
                flats,
                n,
            )[k] is Line,
    decreases n,
{
    if n > 0 {
        lemma_stream_only_lines(items, flats, n - 1);
        let a = stream_items(items, flats, n - 1);
        let item = items[n - 1];
        let pts = flats[n - 1]@;
        let b = stream_item(item, pts);
        match item {
            PathItem::Arc(_) => lemma_chain_is_connected(pts[0], pts.drop_first()),
            PathItem::Ellipse(_) => lemma_chain_is_connected(pts[0], pts.drop_first()),
            PathItem::Quad(q) => lemma_chain_is_connected(q.start, pts),
            PathItem::Cubic(c) => lemma_chain_is_connected(c.start, pts),
            _ => {},
        }
        assert forall|k: int| 0 <= k < (a + b).len() implies #[trigger] (a + b)[k] is Line by {
            if k >= a.len() {
                assert((a + b)[k] == b[k - a.len()]);
            }
        }
    }
}

/// Flattening the first `n` items reads only those items, and only the
/// points given for the curves among them.
pub proof fn lemma_flatten_reads_prefix(
    items: Seq<PathItem>,
    flats: Seq<Vec<Point>>,
    items2: Seq<PathItem>,
    flats2: Seq<Vec<Point>>,
    n: int,
)
    requires
        forall|i: int|
            0 <= i < n ==> #[trigger] items[i] == items2[i] && (is_curve(items[i]) ==> flats[i]@
                == flats2[i]@),
    ensures
        flatten_items(items, flats, n) == flatten_items(items2, flats2, n),
    decreases n,
{
    if n > 0 {
        lemma_flatten_reads_prefix(items, flats, items2, flats2, n - 1);
        assert(items[n - 1] == items2[n - 1]);
    }
}

/// Flattening two paths one after the other is flattening the path made of
/// both.
pub proof fn lemma_flatten_concat(
    a: Seq<PathItem>,
    fa: Seq<Vec<Point>>,
    b: Seq<PathItem>,
    fb: Seq<Vec<Point>>,
)
    requires
        fa.len() == a.len(),
        fb.len() == b.len(),
    ensures
        flatten_items(a + b, fa + fb, (a.len() + b.len()) as int) == flatten_items(a, fa, a.len() as int)
            + flatten_items(b, fb, b.len() as int),
    decreases b.len(),
{
    if b.len() == 0 {
        lemma_flatten_reads_prefix(a + b, fa + fb, a, fa, a.len() as int);
        assert(flatten_items(b, fb, 0) =~= Seq::<PathItem>::empty());
        assert(flatten_items(a, fa, a.len() as int) + Seq::<PathItem>::empty() =~= flatten_items(
            a,
            fa,
            a.len() as int,
        ));
    } else {
        let b1 = b.drop_last();
        let fb1 = fb.drop_last();
        lemma_flatten_concat(a, fa, b1, fb1);
        lemma_flatten_reads_prefix(a + b, fa + fb, a + b1, fa + fb1, (a.len() + b1.len()) as int);
        lemma_flatten_reads_prefix(b, fb, b1, fb1, b1.len() as int);
        let n = (a.len() + b.len()) as int;
        assert((a + b)[n - 1] == b[b.len() - 1]);
        assert((fa + fb)[n - 1] == fb[fb.len() - 1]);
        let x = flatten_items(a, fa, a.len() as int);
        let y = flatten_items(b1, fb1, b1.len() as int);
        let z = flatten_item(b[b.len() - 1], fb[fb.len() - 1]@);
        assert(x + y + z =~= x + (y + z));
    }
}

/// The points that the items of a path flattened only at its cubic curves
/// are given when that path is flattened again: each item keeps the points
/// of the item it came from. (The lines that a cubic curve became read no
/// points.)
pub open spec fn carried_flats(items: Seq<PathItem>, flats: Seq<Vec<Point>>, n: int) -> Seq<
    Vec<Point>,
>
    decreases n,
{
    if n <= 0 {
        Seq::empty()
    } else {
        carried_flats(items, flats, n - 1) + Seq::new(
            flatten_cubic_item(items[n - 1], flats[n - 1]@).len(),
            |j: int| flats[n - 1],
        )
    }
}

proof fn lemma_flatten_after_cubic_prefix(items: Seq<PathItem>, flats: Seq<Vec<Point>>, n: int)
    requires
        0 <= n <= items.len(),
        flats.len() == items.len(),
    ensures
        carried_flats(items, flats, n).len() == flatten_cubic_items(items, flats, n).len(),
        flatten_items(
            flatten_cubic_items(items, flats, n),
            carried_flats(items, flats, n),
            flatten_cubic_items(items, flats, n).len() as int,
        ) == flatten_items(items, flats, n),
    decreases n,
{
    if n > 0 {
        lemma_flatten_after_cubic_prefix(items, flats, n - 1);
        let a = flatten_cubic_items(items, flats, n - 1);
        let fa = carried_flats(items, flats, n - 1);
        let x = items[n - 1];
        let pts = flats[n - 1]@;
        let c = flatten_cubic_item(x, pts);
        let d = Seq::new(c.len(), |j: int| flats[n - 1]);
        lemma_flatten_concat(a, fa, c, d);
        if let PathItem::Cubic(cu) = x {
            lemma_polyline_is_chain(cu.start, pts);
            assert forall|k: int| 0 <= k < c.len() implies !is_curve(#[trigger] c[k]) by {
                assert(c[k] is Line);
            }
            lemma_flatten_without_curves_is_identity(c, d);
        } else {
            assert(c == seq![x]);
            assert(flatten_items(c, d, 1) == flatten_items(c, d, 0) + flatten_item(x, pts));
            assert(flatten_items(c, d, 0) + flatten_item(x, pts) =~= flatten_item(x, pts));
        }
    }
}

/// Flattening only the cubic curves first, then everything, gives what
/// flattening everything at once gives, when each item keeps the points of
/// the item it came from.
pub proof fn lemma_flatten_after_cubic(
    items: Seq<PathItem>,
    flats: Seq<Vec<Point>>,
    again: Seq<Vec<Point>>,
)
    requires
        flats.len() == items.len(),
        again.len() == flatten_cubic_items(items, flats, items.len() as int).len(),
        forall|k: int|
            0 <= k < again.len() && is_curve(
                #[trigger] flatten_cubic_items(items, flats, items.len() as int)[k],
            ) ==> again[k]@ == carried_flats(items, flats, items.len() as int)[k]@,
    ensures
        ({
            let once = flatten_cubic_items(items, flats, items.len() as int);
            flatten_items(once, again, once.len() as int) == flatten_items(
                items,
                flats,
                items.len() as int,
            )
        }),
{
    let n = items.len() as int;
    let once = flatten_cubic_items(items, flats, n);
    lemma_flatten_after_cubic_prefix(items, flats, n);
    lemma_flatten_reads_prefix(once, again, once, carried_flats(items, flats, n), once.len() as int);
}

/// The points of an item's approximation never repeat: no point equals
/// the one before it, starting from the point the item's lines start at.
pub open spec fn curve_never_repeats(item: PathItem, pts: Seq<Point>) -> bool {
    match item {
        PathItem::Arc(_) => pts.len() > 0 && is_ordered_point(pts[0]) && never_repeats(
            pts[0],
            pts.drop_first(),
        ),
        PathItem::Ellipse(_) => pts.len() > 0 && is_ordered_point(pts[0]) && never_repeats(
            pts[0],
            pts.drop_first(),
        ),
        PathItem::Quad(q) => never_repeats(q.start, pts),
        PathItem::Cubic(c) => never_repeats(c.start, pts),
        _ => true,
    }
}

proof fn lemma_filter_keeps_all(s: Seq<PathItem>, pred: spec_fn(PathItem) -> bool)
    requires
        forall|k: int| 0 <= k < s.len() ==> pred(#[trigger] s[k]),
    ensures
        s.filter(pred) == s,
    decreases s.len(),
{
    reveal_with_fuel(Seq::filter, 1);
    if s.len() > 0 {
        let t = s.drop_last();
        assert forall|k: int| 0 <= k < t.len() implies pred(#[trigger] t[k]) by {
            assert(t[k] == s[k]);
        }
        lemma_filter_keeps_all(t, pred);
        assert(pred(s[s.len() - 1]));
        assert(t.push(s.last()) =~= s);
    }
}

proof fn lemma_stream_item_is_flatten_item(item: PathItem, pts: Seq<Point>)
    requires
        curve_never_repeats(item, pts),
    ensures
        stream_item(item, pts) == flatten_item(item, pts).filter(|x: PathItem| !is_jump(x)),
{
    let pred = |x: PathItem| !is_jump(x);
    reveal_with_fuel(Seq::filter, 2);
    match item {
        PathItem::Arc(_) | PathItem::Ellipse(_) => {
            let p0 = pts[0];
            assert(point_eq_spec(p0, p0));
            assert(pts.drop_first() == pts.drop_first());
            assert(polyline(p0, pts) == polyline(p0, pts.drop_first()));
            lemma_polyline_without_repeats(p0, pts.drop_first());
            lemma_polyline_is_chain(p0, pts.drop_first());
            lemma_filter_keeps_all(polyline(p0, pts.drop_first()), pred);
        },
        PathItem::Quad(q) => {
            lemma_polyline_without_repeats(q.start, pts);
            lemma_polyline_is_chain(q.start, pts);
            lemma_filter_keeps_all(polyline(q.start, pts), pred);
        },
        PathItem::Cubic(c) => {
            lemma_polyline_without_repeats(c.start, pts);
            lemma_polyline_is_chain(c.start, pts);
            lemma_filter_keeps_all(polyline(c.start, pts), pred);
        },
        _ => {
            assert(seq![item].drop_last() =~= Seq::<PathItem>::empty());
            if is_jump(item) {
                assert(seq![item].filter(pred) =~= Seq::<PathItem>::empty());
            } else {
                assert(seq![item].filter(pred) =~= seq![item]);
            }
        },
    }
}

proof fn lemma_stream_prefix(items: Seq<PathItem>, flats: Seq<Vec<Point>>, n: int)
    requires
        0 <= n <= items.len(),
        flats.len() == items.len(),
        forall|i: int| 0 <= i < items.len() ==> curve_never_repeats(#[trigger] items[i], flats[i]@),
    ensures
        stream_items(items, flats, n) == flatten_items(items, flats, n).filter(
            |x: PathItem| !is_jump(x),
        ),
    decreases n,
{
    let pred = |x: PathItem| !is_jump(x);
    if n > 0 {
        lemma_stream_prefix(items, flats, n - 1);
        lemma_stream_item_is_flatten_item(items[n - 1], flats[n - 1]@);
        Seq::filter_distributes_over_add(
            flatten_items(items, flats, n - 1),
            flatten_item(items[n - 1], flats[n - 1]@),
            pred,
        );
    } else {
        reveal_with_fuel(Seq::filter, 1);
    }
}

/// When no curve's approximation repeats a point, the line-by-line
/// flattening yields exactly the lines of `path_flatten`, without the
/// jumps.
pub proof fn lemma_stream_is_flatten_without_jumps(items: Seq<PathItem>, flats: Seq<Vec<Point>>)
    requires
        flats.len() == items.len(),
        forall|i: int| 0 <= i < items.len() ==> curve_never_repeats(#[trigger] items[i], flats[i]@),
    ensures
        stream_items(items, flats, items.len() as int) == flatten_items(
            items,
            flats,
            items.len() as int,
        ).filter(|x: PathItem| !is_jump(x)),
{
    lemma_stream_prefix(items, flats, items.len() as int);
}

/// The points the lines of a curve go through, in order: an arc's or an
/// ellipse's points from its first one; a Bézier curve's start, then its
/// points.
pub open spec fn curve_points(item: PathItem, pts: Seq<Point>) -> Seq<Point> {
    match item {
        PathItem::Quad(q) => seq![q.start] + pts,
        PathItem::Cubic(c) => seq![c.start] + pts,
        _ => pts,
    }
}

proof fn lemma_chain_indices(p: Point, qs: Seq<Point>)
    ensures
        chain(p, qs).len() == qs.len(),
        forall|k: int|
            0 <= k < qs.len() ==> #[trigger] chain(p, qs)[k] == PathItem::Line(
                Line((seq![p] + qs)[k], qs[k]),
            ),
{
    lemma_chain_is_connected(p, qs);
    let ls = chain(p, qs);
    assert forall|k: int| 0 <= k < qs.len() implies #[trigger] chain(p, qs)[k] == PathItem::Line(
        Line((seq![p] + qs)[k], qs[k]),
    ) by {
        assert(ls[k] is Line);
        assert(segment(ls[k]).1 == qs[k]);
        if k > 0 {
            assert(segment(ls[k - 1]).1 == segment(ls[k]).0);
            assert(segment(ls[k - 1]).1 == qs[k - 1]);
            assert((seq![p] + qs)[k] == qs[k - 1]);
        } else {
            assert(segment(ls[0]).0 == p);
            assert((seq![p] + qs)[0] == p);
        }
        let l = segment(ls[k]);
        assert(ls[k] == PathItem::Line(l));
        assert(l == Line(l.0, l.1));
    }
}

/// A curve whose points never repeat (none numerically equal to the one
/// before it, and an arc's or ellipse's first point without NaN) becomes,
/// in `path_flatten` and in the line-by-line flattening alike, the lines
/// from each of its points to the next: one line fewer than it has points.
pub proof fn lemma_curve_becomes_its_lines(item: PathItem, pts: Seq<Point>)
    requires
        is_curve(item),
        (item is Arc || item is Ellipse) ==> pts.len() > 0 && is_ordered_point(pts[0]),
        forall|k: int|
            0 <= k < curve_points(item, pts).len() - 1 ==> !point_eq_spec(
                #[trigger] curve_points(item, pts)[k],
                curve_points(item, pts)[k + 1],
            ),
    ensures
        ({
            let v = curve_points(item, pts);
            &&& flatten_item(item, pts).len() == v.len() - 1
            &&& stream_item(item, pts).len() == v.len() - 1
            &&& forall|k: int|
                0 <= k < v.len() - 1 ==> #[trigger] flatten_item(item, pts)[k] == PathItem::Line(
                    Line(v[k], v[k + 1]),
                )
            &&& forall|k: int|
                0 <= k < v.len() - 1 ==> #[trigger] stream_item(item, pts)[k] == PathItem::Line(
                    Line(v[k], v[k + 1]),
                )
        }),
{
    let v = curve_points(item, pts);
    let (p, qs) = if item is Arc || item is Ellipse {
        (pts[0], pts.drop_first())
    } else if let PathItem::Quad(q) = item {
        (q.start, pts)
    } else {
        (item->Cubic_0.start, pts)
    };
    assert(v =~= seq![p] + qs);
    assert forall|k: int| 0 <= k < qs.len() - 1 implies !point_eq_spec(#[trigger] qs[k], qs[k + 1]) by {
        assert(qs[k] == v[k + 1]);
        assert(qs[k + 1] == v[k + 2]);
    }
    if qs.len() > 0 {
        assert(v[0] == p);
        assert(v[1] == qs[0]);
    }
    assert(never_repeats(p, qs));
    lemma_polyline_without_repeats(p, qs);
    lemma_chain_indices(p, qs);
    if item is Arc || item is Ellipse {
        assert(point_eq_spec(p, p));
        assert(polyline(p, pts) == polyline(p, qs));
    }
    assert forall|k: int| 0 <= k < v.len() - 1 implies #[trigger] flatten_item(item, pts)[k]
        == PathItem::Line(Line(v[k], v[k + 1])) by {
        assert(chain(p, qs)[k] == PathItem::Line(Line((seq![p] + qs)[k], qs[k])));
        assert(v[k + 1] == qs[k]);
    }
    assert forall|k: int| 0 <= k < v.len() - 1 implies #[trigger] stream_item(item, pts)[k]
        == PathItem::Line(Line(v[k], v[k + 1])) by {
        assert(chain(p, qs)[k] == PathItem::Line(Line((seq![p] + qs)[k], qs[k])));
        assert(v[k + 1] == qs[k]);
    }
}

} // verus!
