use vstd::prelude::*;
use crate::error::DetectError;
use crate::fixed::{rnd_div, round_div, lemma_rnd_div_le};

verus! {

/// The letterbox scale ratio `min(tw/w, th/h)` as an exact fraction
/// `(numerator, denominator)`, clamped to `1` when upscaling is not allowed.
pub open spec fn ratio(w: int, h: int, tw: int, th: int, allow_upscale: bool) -> (int, int)
    recommends
        w > 0 && h > 0,
{
    let raw = if tw * h <= th * w {
        (tw, w)
    } else {
        (th, h)
    };
    if !allow_upscale && raw.0 > raw.1 {
        (raw.1, raw.1)
    } else {
        raw
    }
}

/// Basic facts about the ratio: it is positive, scaling the source
/// dimensions by it stays within the target, and without upscaling it never
/// exceeds one.
pub proof fn lemma_ratio_bounds(w: int, h: int, tw: int, th: int, allow_upscale: bool)
    requires
        w > 0,
        h > 0,
        tw > 0,
        th > 0,
    ensures
        ({
            let r = ratio(w, h, tw, th, allow_upscale);
            &&& r.0 >= 1
            &&& r.1 >= 1
            &&& w * r.0 <= tw * r.1
            &&& h * r.0 <= th * r.1
            &&& (!allow_upscale ==> r.0 <= r.1)
        }),
{
    if tw * h <= th * w {
        if !allow_upscale && tw > w {
            assert(w * w <= tw * w && h * w <= th * w) by (nonlinear_arith)
                requires
                    w > 0,
                    h > 0,
                    tw > 0,
                    th > 0,
                    tw * h <= th * w,
                    tw > w,
            ;
        } else {
            assert(w * tw <= tw * w && h * tw <= th * w) by (nonlinear_arith)
                requires
                    tw * h <= th * w,
            ;
        }
    } else {
        if !allow_upscale && th > h {
            assert(w * h <= tw * h && h * h <= th * h) by (nonlinear_arith)
                requires
                    w > 0,
                    h > 0,
                    tw > 0,
                    th > 0,
                    th * w < tw * h,
                    th > h,
            ;
        } else {
            assert(w * th <= tw * h && h * th <= th * h) by (nonlinear_arith)
                requires
                    th * w < tw * h,
                    h > 0,
            ;
        }
    }
}

/// The bookkeeping of an aspect-ratio-preserving letterbox resize: the
/// dimensions `nw`/`nh` of the resized (unpadded) content and the constant
/// padding on each side that fills the target canvas exactly.
#[derive(Clone, Copy, Debug, PartialEq, Eq, Structural)]
pub struct LetterboxPlan {
    pub nw: i32,
    pub nh: i32,
    pub top: i32,
    pub bottom: i32,
    pub left: i32,
    pub right: i32,
}

/// Computes the letterbox plan for a `w`-by-`h` image resized into a
/// `tw`-by-`th` canvas.
///
/// The resized dimensions are the source dimensions scaled by
/// `min(tw/w, th/h)` (clamped to `1` when `allow_upscale` is false) and
/// rounded to the nearest pixel; the leftover canvas space is split evenly,
/// with the odd pixel going to the bottom/right side, so the four paddings
/// sum exactly to the leftover space.
pub fn letterbox_plan(w: i32, h: i32, tw: i32, th: i32, allow_upscale: bool) -> (r: Result<
    LetterboxPlan,
    DetectError,
>)
    ensures
        match r {
            Ok(p) => {
                let rr = ratio(w as int, h as int, tw as int, th as int, allow_upscale);
                &&& w > 0 && h > 0 && tw > 0 && th > 0
                &&& p.nw as int == rnd_div(w as int * rr.0, rr.1)
                &&& p.nh as int == rnd_div(h as int * rr.0, rr.1)
                &&& 0 <= p.nw <= tw
                &&& 0 <= p.nh <= th
                &&& p.top as int == (th - p.nh) as int / 2
                &&& p.left as int == (tw - p.nw) as int / 2
                &&& p.top + p.bottom == th - p.nh
                &&& p.left + p.right == tw - p.nw
                &&& p.nw + p.left + p.right == tw
                &&& p.nh + p.top + p.bottom == th
                &&& 0 <= p.top <= p.bottom
                &&& 0 <= p.left <= p.right
                &&& (!allow_upscale ==> p.nw <= w && p.nh <= h && rr.0 <= rr.1)
            },
            Err(e) => {
                &&& e == DetectError::InvalidInput
                &&& (w <= 0 || h <= 0 || tw <= 0 || th <= 0)
            },
        },
{
    if w <= 0 || h <= 0 || tw <= 0 || th <= 0 {
        return Err(DetectError::InvalidInput);
    }
    let w64 = w as i64;
    let h64 = h as i64;
    let tw64 = tw as i64;
    let th64 = th as i64;
    assert(0 < tw64 * h64 < 0x4000_0000_0000_0000 && 0 < th64 * w64 < 0x4000_0000_0000_0000)
        by (nonlinear_arith)
        requires
            0 < tw64 < 0x8000_0000,
            0 < h64 < 0x8000_0000,
            0 < th64 < 0x8000_0000,
            0 < w64 < 0x8000_0000,
    ;
    let raw: (i64, i64) = if tw64 * h64 <= th64 * w64 {
        (tw64, w64)
    } else {
        (th64, h64)
    };
    let rn: i64 = if !allow_upscale && raw.0 > raw.1 {
        raw.1
    } else {
        raw.0
    };
    let rd: i64 = raw.1;
    proof {
        lemma_ratio_bounds(w as int, h as int, tw as int, th as int, allow_upscale);
    }
    let ghost rr = ratio(w as int, h as int, tw as int, th as int, allow_upscale);
    assert(rn as int == rr.0 && rd as int == rr.1);
    let ghost wi = w as int;
    let ghost hi = h as int;
    let ghost rni = rn as int;
    assert(0 < wi * rni < 0x4000_0000_0000_0000 && 0 < hi * rni < 0x4000_0000_0000_0000)
        by (nonlinear_arith)
        requires
            0 < wi < 0x8000_0000,
            0 < hi < 0x8000_0000,
            0 < rni < 0x8000_0000,
    ;
    let nw128 = round_div(w as i128 * rn as i128, rd as i128);
    let nh128 = round_div(h as i128 * rn as i128, rd as i128);
    proof {
        lemma_rnd_div_le(w as int * rr.0, rr.1, tw as int);
        lemma_rnd_div_le(h as int * rr.0, rr.1, th as int);
        if !allow_upscale {
            assert(w as int * rr.0 <= w as int * rr.1) by (nonlinear_arith)
                requires
                    w > 0,
                    rr.0 <= rr.1,
            ;
            assert(h as int * rr.0 <= h as int * rr.1) by (nonlinear_arith)
                requires
                    h > 0,
                    rr.0 <= rr.1,
            ;
            lemma_rnd_div_le(w as int * rr.0, rr.1, w as int);
            lemma_rnd_div_le(h as int * rr.0, rr.1, h as int);
        }
    }
    let nw = nw128 as i32;
    let nh = nh128 as i32;
    let dw = tw - nw;
    let dh = th - nh;
    let top = ((dh as u32) / 2) as i32;
    let bottom = dh - top;
    let left = ((dw as u32) / 2) as i32;
    let right = dw - left;
    Ok(LetterboxPlan { nw, nh, top, bottom, left, right })
}

} // verus!
