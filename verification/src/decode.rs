use vstd::prelude::*;
use crate::error::DetectError;
use crate::fixed::{rnd_div, sat_i32, round_div, sat_to_i32, mul_i64, SCALE};
use crate::rect::Rect;

verus! {

/// Element at column `j` of anchor row `i` in a row-major tensor with
/// `attrs` columns.
pub open spec fn elem(data: Seq<i64>, attrs: int, i: int, j: int) -> int {
    data[i * attrs + j] as int
}

/// Combined confidence of class channel `c` of anchor `i`: objectness
/// (column 4) times the class probability (column `5 + c`). Both factors are
/// in millionths, so the product is in millionth-squared units.
pub open spec fn class_score(data: Seq<i64>, attrs: int, i: int, c: int) -> int {
    elem(data, attrs, i, 4) * elem(data, attrs, i, 5 + c)
}

/// Best class among channels `0..k` of anchor `i`: the first channel whose
/// combined confidence is maximal.
pub open spec fn best_class_upto(data: Seq<i64>, attrs: int, i: int, k: int) -> int
    decreases k,
{
    if k <= 1 {
        0
    } else {
        let b = best_class_upto(data, attrs, i, k - 1);
        if class_score(data, attrs, i, k - 1) > class_score(data, attrs, i, b) {
            k - 1
        } else {
            b
        }
    }
}

/// Best class of anchor `i` over all of its `attrs - 5` class channels.
pub open spec fn best_class(data: Seq<i64>, attrs: int, i: int) -> int {
    best_class_upto(data, attrs, i, attrs - 5)
}

/// Combined confidence of the best class of anchor `i`.
pub open spec fn anchor_score(data: Seq<i64>, attrs: int, i: int) -> int {
    class_score(data, attrs, i, best_class(data, attrs, i))
}

/// Decoded box of anchor `i`: the centre/size columns `0..4` are converted
/// from millionths of a pixel to whole pixels (`x = cx - w/2`,
/// `y = cy - h/2`), rounded to the nearest pixel and saturated into `i32`.
pub open spec fn anchor_box(data: Seq<i64>, attrs: int, i: int) -> Rect {
    Rect {
        x: sat_i32(
            rnd_div(2 * elem(data, attrs, i, 0) - elem(data, attrs, i, 2), 2 * SCALE as int),
        ) as i32,
        y: sat_i32(
            rnd_div(2 * elem(data, attrs, i, 1) - elem(data, attrs, i, 3), 2 * SCALE as int),
        ) as i32,
        width: sat_i32(rnd_div(elem(data, attrs, i, 2), SCALE as int)) as i32,
        height: sat_i32(rnd_div(elem(data, attrs, i, 3), SCALE as int)) as i32,
    }
}

/// The best class over `0..k` is in range, its combined confidence is
/// maximal among those channels, and every earlier channel scores strictly
/// less (the first maximum wins ties).
pub proof fn lemma_best_class_props(data: Seq<i64>, attrs: int, i: int, k: int)
    requires
        1 <= k,
    ensures
        0 <= best_class_upto(data, attrs, i, k) < k,
        forall|c: int|
            0 <= c < k ==> #[trigger] class_score(data, attrs, i, c) <= class_score(
                data,
                attrs,
                i,
                best_class_upto(data, attrs, i, k),
            ),
        forall|c: int|
            0 <= c < best_class_upto(data, attrs, i, k) ==> #[trigger] class_score(data, attrs, i, c)
                < class_score(data, attrs, i, best_class_upto(data, attrs, i, k)),
    decreases k,
{
    if k > 1 {
        lemma_best_class_props(data, attrs, i, k - 1);
    }
}

/// The per-anchor candidates read out of a raw output tensor: parallel
/// sequences of boxes, combined confidences and best-class indices, all in
/// the anchor order of the tensor.
#[derive(Debug)]
pub struct Decoded {
    pub boxes: Vec<Rect>,
    pub scores: Vec<i128>,
    pub class_indices: Vec<usize>,
}

/// The candidate sequences are exactly the per-anchor readout of `data`.
pub open spec fn decoded_ok(
    data: Seq<i64>,
    anchors: int,
    attrs: int,
    boxes: Seq<Rect>,
    scores: Seq<i128>,
    classes: Seq<usize>,
) -> bool {
    &&& boxes.len() == anchors
    &&& scores.len() == anchors
    &&& classes.len() == anchors
    &&& forall|i: int| 0 <= i < anchors ==> boxes[i] == anchor_box(data, attrs, i)
    &&& forall|i: int| 0 <= i < anchors ==> scores[i] as int == anchor_score(data, attrs, i)
    &&& forall|i: int| 0 <= i < anchors ==> classes[i] as int == best_class(data, attrs, i)
}

/// Reads a raw output tensor, reinterpreted as `num_anchors` rows of
/// `num_attributes` columns `[cx, cy, w, h, objectness, class scores...]`,
/// into one candidate per anchor.
///
/// Fails with `ShapeError` exactly when the element count does not equal
/// `num_anchors * num_attributes`, and with `InvalidInput` exactly when the
/// count matches but a row is too short to hold the four box parameters, the
/// objectness and at least one class channel.
pub fn decode(data: &Vec<i64>, num_anchors: usize, num_attributes: usize) -> (r: Result<
    Decoded,
    DetectError,
>)
    ensures
        match r {
            Ok(d) => {
                &&& data@.len() == num_anchors as int * num_attributes as int
                &&& num_attributes >= 6
                &&& decoded_ok(
                    data@,
                    num_anchors as int,
                    num_attributes as int,
                    d.boxes@,
                    d.scores@,
                    d.class_indices@,
                )
                &&& forall|i: int|
                    0 <= i < num_anchors ==> 0 <= #[trigger] best_class(
                        data@,
                        num_attributes as int,
                        i,
                    ) < num_attributes - 5
                &&& forall|i: int, c: int|
                    0 <= i < num_anchors && 0 <= c < num_attributes - 5 ==> #[trigger] class_score(
                        data@,
                        num_attributes as int,
                        i,
                        c,
                    ) <= anchor_score(data@, num_attributes as int, i)
                &&& forall|i: int, c: int|
                    0 <= i < num_anchors && 0 <= c < best_class(data@, num_attributes as int, i)
                        ==> #[trigger] class_score(data@, num_attributes as int, i, c) < anchor_score(
                        data@,
                        num_attributes as int,
                        i,
                    )
            },
            Err(e) => {
                ||| (data@.len() != num_anchors as int * num_attributes as int
                    && e == DetectError::ShapeError)
                ||| (data@.len() == num_anchors as int * num_attributes as int && num_attributes < 6
                    && e == DetectError::InvalidInput)
            },
        },
{
    let ghost an = num_anchors as int;
    let ghost at = num_attributes as int;
    proof {
        assert(0 <= an * at < 0x1_0000_0000_0000_0000_0000_0000_0000_0000) by (nonlinear_arith)
            requires
                0 <= an < 0x1_0000_0000_0000_0000,
                0 <= at < 0x1_0000_0000_0000_0000,
        ;
    }
    let need = (num_anchors as u128) * (num_attributes as u128);
    if (data.len() as u128) != need {
        return Err(DetectError::ShapeError);
    }
    if num_attributes < 6 {
        return Err(DetectError::InvalidInput);
    }
    let dl = data.len();
    assert(dl as int == an * at && dl <= usize::MAX);
    let mut boxes: Vec<Rect> = Vec::new();
    let mut scores: Vec<i128> = Vec::new();
    let mut classes: Vec<usize> = Vec::new();
    let nclasses = num_attributes - 5;
    for i in 0..num_anchors
        invariant
            data@.len() == an * at,
            an * at <= usize::MAX as int,
            num_attributes >= 6,
            nclasses == num_attributes - 5,
            an == num_anchors as int,
            at == num_attributes as int,
            boxes.len() == i,
            scores.len() == i,
            classes.len() == i,
            forall|t: int| 0 <= t < i ==> boxes@[t] == anchor_box(data@, at, t),
            forall|t: int| 0 <= t < i ==> scores@[t] as int == anchor_score(data@, at, t),
            forall|t: int| 0 <= t < i ==> classes@[t] as int == best_class(data@, at, t),
    {
        proof {
            let ii = i as int;
            assert(0 <= ii * at && ii * at + at <= an * at) by (nonlinear_arith)
                requires
                    0 <= ii < an,
                    0 < at,
            ;
        }
        let base = i * num_attributes;
        let cx = data[base];
        let cy = data[base + 1];
        let wv = data[base + 2];
        let hv = data[base + 3];
        let obj = data[base + 4];
        let mut best_c: usize = 0;
        let mut best_v: i128 = mul_i64(obj, data[base + 5]);
        assert(best_v as int == class_score(data@, at, i as int, 0));
        for c in 1..nclasses
            invariant
                data@.len() == an * at,
                an * at <= usize::MAX as int,
                num_attributes >= 6,
                nclasses == num_attributes - 5,
                an == num_anchors as int,
                at == num_attributes as int,
                0 <= i < num_anchors,
                base == i as int * at,
                base + at <= data@.len(),
                obj == data@[base as int + 4],
                best_c < c,
                best_c as int == best_class_upto(data@, at, i as int, c as int),
                best_v as int == class_score(data@, at, i as int, best_c as int),
        {
            let v = mul_i64(obj, data[base + 5 + c]);
            assert(v as int == class_score(data@, at, i as int, c as int));
            if v > best_v {
                best_c = c;
                best_v = v;
            }
        }
        let bx = sat_to_i32(round_div(2 * (cx as i128) - (wv as i128), 2 * (SCALE as i128)));
        let by = sat_to_i32(round_div(2 * (cy as i128) - (hv as i128), 2 * (SCALE as i128)));
        let bw = sat_to_i32(round_div(wv as i128, SCALE as i128));
        let bh = sat_to_i32(round_div(hv as i128, SCALE as i128));
        boxes.push(Rect { x: bx, y: by, width: bw, height: bh });
        scores.push(best_v);
        classes.push(best_c);
        assert(boxes@[i as int] == anchor_box(data@, at, i as int));
    }
    proof {
        assert forall|i: int| 0 <= i < an implies 0 <= #[trigger] best_class(data@, at, i) < at
            - 5 by {
            lemma_best_class_props(data@, at, i, at - 5);
        }
        assert forall|i: int, c: int|
            0 <= i < an && 0 <= c < at - 5 implies #[trigger] class_score(data@, at, i, c)
            <= anchor_score(
            data@,
            at,
            i,
        ) by {
            lemma_best_class_props(data@, at, i, at - 5);
        }
        assert forall|i: int, c: int|
            0 <= i < an && 0 <= c < best_class(data@, at, i) implies #[trigger] class_score(
            data@,
            at,
            i,
            c,
        ) < anchor_score(data@, at, i) by {
            lemma_best_class_props(data@, at, i, at - 5);
        }
    }
    Ok(Decoded { boxes, scores, class_indices: classes })
}

} // verus!
