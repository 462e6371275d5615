use vstd::prelude::*;

verus! {

/// A rectangle in widget coordinates: top-left corner and size.
#[derive(Clone, Copy, PartialEq, Eq, Structural, Debug)]
pub struct Rect {
    pub x: i32,
    pub y: i32,
    pub width: i32,
    pub height: i32,
}

/// The right and bottom edges of `r` fit in an `i32`.
pub open spec fn edges_fit(r: Rect) -> bool {
    &&& i32::MIN <= r.x + r.width <= i32::MAX
    &&& i32::MIN <= r.y + r.height <= i32::MAX
}

/// The band `a` covers part of `b`: `a` has an area, and the two share interior
/// points. Edges that only touch do not overlap, and a band without width or height
/// covers nothing.
pub open spec fn overlaps(a: Rect, b: Rect) -> bool {
    &&& a.width > 0 && a.height > 0
    &&& a.x < b.x + b.width
    &&& b.x < a.x + a.width
    &&& a.y < b.y + b.height
    &&& b.y < a.y + a.height
}

/// Whether the right and bottom edges of `r` fit in an `i32`.
pub fn rect_fits(r: &Rect) -> (b: bool)
    ensures
        b == edges_fit(*r),
{
    let right = r.x as i64 + r.width as i64;
    let bottom = r.y as i64 + r.height as i64;
    i32::MIN as i64 <= right && right <= i32::MAX as i64 && i32::MIN as i64 <= bottom && bottom
        <= i32::MAX as i64
}

/// Whether the rubber band `a` covers the item bounds `b`.
pub fn rect_overlaps(a: &Rect, b: &Rect) -> (r: bool)
    requires
        edges_fit(*a),
        edges_fit(*b),
    ensures
        r == overlaps(*a, *b),
{
    a.width > 0 && a.height > 0 && a.x < b.x + b.width && b.x < a.x + a.width && a.y < b.y
        + b.height && b.y < a.y + a.height
}

/// The rectangle spanned by two corners, whichever way the drag went.
pub open spec fn span(ax: int, ay: int, bx: int, by: int) -> (int, int, int, int) {
    let x0 = if ax < bx { ax } else { bx };
    let y0 = if ay < by { ay } else { by };
    let x1 = if ax < bx { bx } else { ax };
    let y1 = if ay < by { by } else { ay };
    (x0, y0, x1 - x0, y1 - y0)
}

/// The corners are close enough that the spanned size fits in an `i32`.
pub open spec fn span_fits(ax: i32, ay: i32, bx: i32, by: i32) -> bool {
    &&& (if ax < bx { bx - ax } else { ax - bx }) <= i32::MAX
    &&& (if ay < by { by - ay } else { ay - by }) <= i32::MAX
}

/// Whether the box spanned by two corners has a size that fits in an `i32`.
pub fn corners_fit(ax: i32, ay: i32, bx: i32, by: i32) -> (b: bool)
    ensures
        b == span_fits(ax, ay, bx, by),
{
    let w: i64 = if ax < bx {
        bx as i64 - ax as i64
    } else {
        ax as i64 - bx as i64
    };
    let h: i64 = if ay < by {
        by as i64 - ay as i64
    } else {
        ay as i64 - by as i64
    };
    w <= i32::MAX as i64 && h <= i32::MAX as i64
}

/// The rectangle with corners `(ax, ay)` and `(bx, by)`, with non-negative size.
pub fn normalized_rect(ax: i32, ay: i32, bx: i32, by: i32) -> (r: Rect)
    requires
        span_fits(ax, ay, bx, by),
    ensures
        (r.x as int, r.y as int, r.width as int, r.height as int) == span(
            ax as int,
            ay as int,
            bx as int,
            by as int,
        ),
{
    let x0 = if ax < bx {
        ax
    } else {
        bx
    };
    let y0 = if ay < by {
        ay
    } else {
        by
    };
    let x1 = if ax < bx {
        bx
    } else {
        ax
    };
    let y1 = if ay < by {
        by
    } else {
        ay
    };
    Rect { x: x0, y: y0, width: x1 - x0, height: y1 - y0 }
}

/// A drag selects only once its box is more than 4 pixels across (diagonally).
pub open spec fn is_drag(r: Rect) -> bool {
    r.width * r.width + r.height * r.height > 16
}

/// Whether a rubber band is big enough to count as a selection drag.
pub fn is_selection_drag(r: &Rect) -> (b: bool)
    ensures
        b == is_drag(*r),
{
    let w = r.width as i128;
    let h = r.height as i128;
    proof {
        assert(w * w <= 0x4000_0000_0000_0000) by (nonlinear_arith)
            requires
                -0x8000_0000 <= w <= 0x7fff_ffff,
        {}
        assert(h * h <= 0x4000_0000_0000_0000) by (nonlinear_arith)
            requires
                -0x8000_0000 <= h <= 0x7fff_ffff,
        {}
        assert(w * w >= 0 && h * h >= 0) by (nonlinear_arith);
    }
    w * w + h * h > 16
}

/// `v` clamped to `[lo, hi]`.
pub open spec fn clamped(v: int, lo: int, hi: int) -> int {
    if v < lo {
        lo
    } else if v > hi {
        hi
    } else {
        v
    }
}

/// How far a popup at `pos` with extent `size` must move to lie inside `[0, limit)`;
/// when it is larger than the limit it is put at 0.
pub open spec fn slide(pos: int, size: int, limit: int) -> int {
    clamped(pos, 0, if limit - size > 0 {
        limit - size
    } else {
        0
    }) - pos
}

/// The popup move stays in `i32` range.
pub open spec fn slide_fits(pos: i32, size: i32, limit: i32) -> bool {
    &&& i32::MIN <= limit - size <= i32::MAX
    &&& i32::MIN <= slide(pos as int, size as int, limit as int) <= i32::MAX
}

/// Whether the shift of a popup at `pos` of extent `size` into `[0, limit)` can be
/// computed in `i32`.
pub fn shift_fits(pos: i32, size: i32, limit: i32) -> (b: bool)
    ensures
        b == slide_fits(pos, size, limit),
{
    let room: i64 = limit as i64 - size as i64;
    if room < i32::MIN as i64 || room > i32::MAX as i64 {
        return false;
    }
    let top: i64 = if room > 0 {
        room
    } else {
        0
    };
    let p = pos as i64;
    let target: i64 = if p < 0 {
        0
    } else if p > top {
        top
    } else {
        p
    };
    let d = target - p;
    i32::MIN as i64 <= d && d <= i32::MAX as i64
}

/// The shift that brings a popup at `(px, py)` of size `(pw, ph)` inside a window of
/// size `(ww, wh)`; `(0, 0)` when it is inside already.
pub fn popup_shift(px: i32, py: i32, pw: i32, ph: i32, ww: i32, wh: i32) -> (r: (i32, i32))
    requires
        slide_fits(px, pw, ww),
        slide_fits(py, ph, wh),
    ensures
        r.0 == slide(px as int, pw as int, ww as int),
        r.1 == slide(py as int, ph as int, wh as int),
{
    let max_x = if ww - pw > 0 {
        ww - pw
    } else {
        0
    };
    let max_y = if wh - ph > 0 {
        wh - ph
    } else {
        0
    };
    let tx = if px < 0 {
        0
    } else if px > max_x {
        max_x
    } else {
        px
    };
    let ty = if py < 0 {
        0
    } else if py > max_y {
        max_y
    } else {
        py
    };
    (tx - px, ty - py)
}

/// Between two rectangles that both have an area, or both have none, overlap does not
/// depend on their order.
pub proof fn law_overlap_symmetric(a: Rect, b: Rect)
    requires
        (a.width > 0 && a.height > 0) == (b.width > 0 && b.height > 0),
    ensures
        overlaps(a, b) == overlaps(b, a),
{
}

/// An item lying wholly above or below the band, or wholly left or right of it, is not
/// covered, however the two line up the other way.
pub proof fn law_separated_not_covered(a: Rect, b: Rect)
    requires
        a.y + a.height <= b.y || b.y + b.height <= a.y || a.x + a.width <= b.x || b.x + b.width
            <= a.x,
    ensures
        !overlaps(a, b),
{
}

/// A band with an area covers every item that shares an interior point with it: one
/// that reaches past each of its edges from the inside.
pub proof fn law_shared_point_covered(a: Rect, b: Rect, px: int, py: int)
    requires
        a.width > 0 && a.height > 0,
        a.x <= px < a.x + a.width,
        a.y <= py < a.y + a.height,
        b.x <= px < b.x + b.width,
        b.y <= py < b.y + b.height,
    ensures
        overlaps(a, b),
{
}

/// A band without width or height selects nothing.
pub proof fn law_empty_band_covers_nothing(a: Rect, b: Rect)
    requires
        a.width <= 0 || a.height <= 0,
    ensures
        !overlaps(a, b),
{
}

/// The box spanned by two corners does not depend on which was pressed first, has no
/// negative size, and contains both corners.
pub proof fn law_span(ax: int, ay: int, bx: int, by: int)
    ensures
        span(ax, ay, bx, by) == span(bx, by, ax, ay),
        span(ax, ay, bx, by).2 >= 0,
        span(ax, ay, bx, by).3 >= 0,
        ({
            let s = span(ax, ay, bx, by);
            &&& s.0 <= ax <= s.0 + s.2
            &&& s.0 <= bx <= s.0 + s.2
            &&& s.1 <= ay <= s.1 + s.3
            &&& s.1 <= by <= s.1 + s.3
        }),
{
}

/// After the shift a popup that fits starts inside the window and ends inside it.
pub proof fn law_slide_inside(pos: int, size: int, limit: int)
    requires
        0 <= size <= limit,
    ensures
        0 <= pos + slide(pos, size, limit),
        pos + slide(pos, size, limit) + size <= limit,
        0 <= pos && pos + size <= limit ==> slide(pos, size, limit) == 0,
{
}

} // verus!
