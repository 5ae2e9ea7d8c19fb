use vstd::prelude::*;

verus! {

/// Axis-aligned rectangle in pixel coordinates: `x`/`y` is the top-left
/// corner, which may lie outside the canvas (decoded boxes are not clamped).
#[derive(Clone, Copy, Debug, PartialEq, Eq, Structural)]
pub struct Rect {
    pub x: i32,
    pub y: i32,
    pub width: i32,
    pub height: i32,
}

pub open spec fn imin(a: int, b: int) -> int {
    if a <= b {
        a
    } else {
        b
    }
}

pub open spec fn imax(a: int, b: int) -> int {
    if a >= b {
        a
    } else {
        b
    }
}

/// Non-negative part of an integer.
pub open spec fn pos(a: int) -> int {
    if a >= 0 {
        a
    } else {
        0
    }
}

/// Area of a rectangle; a non-positive extent counts as an empty rectangle.
pub open spec fn area(r: Rect) -> int {
    pos(r.width as int) * pos(r.height as int)
}

/// Area of the intersection of two rectangles.
pub open spec fn inter_area(a: Rect, b: Rect) -> int {
    pos(
        imin(a.x as int + a.width as int, b.x as int + b.width as int) - imax(
            a.x as int,
            b.x as int,
        ),
    ) * pos(
        imin(a.y as int + a.height as int, b.y as int + b.height as int) - imax(
            a.y as int,
            b.y as int,
        ),
    )
}

/// Area of the union of two rectangles.
pub open spec fn union_area(a: Rect, b: Rect) -> int {
    area(a) + area(b) - inter_area(a, b)
}

/// Whether the intersection-over-union of `a` and `b` strictly exceeds the
/// threshold `iou_thresh`, given in millionths. The comparison
/// `inter / union > thresh` is carried out as the cross-multiplication
/// `inter * SCALE > thresh * union`, so no division is needed and two
/// rectangles with an empty union never exceed any non-negative threshold.
pub open spec fn overlaps(a: Rect, b: Rect, iou_thresh: i64) -> bool {
    inter_area(a, b) * (crate::fixed::SCALE as int) > (iou_thresh as int) * union_area(a, b)
}

/// `overlaps` does not depend on the order of its two rectangles.
pub proof fn lemma_overlaps_sym(a: Rect, b: Rect, iou_thresh: i64)
    ensures
        overlaps(a, b, iou_thresh) == overlaps(b, a, iou_thresh),
{
    assert(inter_area(a, b) == inter_area(b, a));
    assert(union_area(a, b) == union_area(b, a));
}

/// Executable overlap test, matching `overlaps`.
pub fn overlaps_exec(a: &Rect, b: &Rect, iou_thresh: i64) -> (r: bool)
    requires
        0 <= iou_thresh <= crate::fixed::SCALE,
    ensures
        r == overlaps(*a, *b, iou_thresh),
{
    let ax2 = a.x as i128 + a.width as i128;
    let bx2 = b.x as i128 + b.width as i128;
    let ay2 = a.y as i128 + a.height as i128;
    let by2 = b.y as i128 + b.height as i128;
    let x2 = if ax2 <= bx2 { ax2 } else { bx2 };
    let x1 = if a.x >= b.x { a.x as i128 } else { b.x as i128 };
    let y2 = if ay2 <= by2 { ay2 } else { by2 };
    let y1 = if a.y >= b.y { a.y as i128 } else { b.y as i128 };
    let iw = if x2 - x1 >= 0 { x2 - x1 } else { 0 };
    let ih = if y2 - y1 >= 0 { y2 - y1 } else { 0 };
    let aw = if a.width >= 0 { a.width as i128 } else { 0 };
    let ah = if a.height >= 0 { a.height as i128 } else { 0 };
    let bw = if b.width >= 0 { b.width as i128 } else { 0 };
    let bh = if b.height >= 0 { b.height as i128 } else { 0 };
    assert(iw * ih <= 0x1_0000_0000_0000_0000_0000 && iw * ih >= 0) by (nonlinear_arith)
        requires
            0 <= iw <= 0x2_0000_0000,
            0 <= ih <= 0x2_0000_0000,
    ;
    assert(aw * ah <= 0x1_0000_0000_0000_0000_0000 && aw * ah >= 0) by (nonlinear_arith)
        requires
            0 <= aw <= 0x1_0000_0000,
            0 <= ah <= 0x1_0000_0000,
    ;
    assert(bw * bh <= 0x1_0000_0000_0000_0000_0000 && bw * bh >= 0) by (nonlinear_arith)
        requires
            0 <= bw <= 0x1_0000_0000,
            0 <= bh <= 0x1_0000_0000,
    ;
    let inter = iw * ih;
    let uni = aw * ah + bw * bh - inter;
    assert(0 <= inter * 1_000_000i128 <= 0x10_0000_0000_0000_0000_0000_0000) by (nonlinear_arith)
        requires
            0 <= inter <= 0x1_0000_0000_0000_0000_0000,
    ;
    assert(-0x10_0000_0000_0000_0000_0000_0000 <= (iou_thresh as i128) * uni
        <= 0x20_0000_0000_0000_0000_0000_0000) by (nonlinear_arith)
        requires
            0 <= iou_thresh <= 1_000_000,
            -0x1_0000_0000_0000_0000_0000 <= uni <= 0x2_0000_0000_0000_0000_0000,
    ;
    inter * (crate::fixed::SCALE as i128) > (iou_thresh as i128) * uni
}

} // verus!
