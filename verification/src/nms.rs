use vstd::prelude::*;
use crate::error::DetectError;
use crate::fixed::SCALE;
use crate::rect::{Rect, overlaps, overlaps_exec, lemma_overlaps_sym};

verus! {

/// Candidate `i` ranks before candidate `j`: higher combined confidence
/// first, ties broken by the lower (earlier) anchor index.
pub open spec fn prio_before(scores: Seq<i128>, i: int, j: int) -> bool {
    scores[i] > scores[j] || (scores[i] == scores[j] && i < j)
}

/// The confidence threshold, given in millionths, expressed in the
/// millionth-squared units of the combined confidences.
pub open spec fn conf_floor(conf_thresh: i64) -> int {
    conf_thresh as int * (SCALE as int)
}

/// Anchor index `i` occurs in the suppression result `r`.
pub open spec fn in_result(r: Seq<usize>, i: int) -> bool {
    exists|k: int| 0 <= k < r.len() && r[k] as int == i
}

/// A discarded candidate `i` is accounted for: it misses the confidence
/// floor, or some kept, higher-ranked box overlaps it beyond the threshold.
pub open spec fn discard_justified(
    boxes: Seq<Rect>,
    scores: Seq<i128>,
    conf_thresh: i64,
    iou_thresh: i64,
    r: Seq<usize>,
    i: int,
) -> bool {
    ||| (scores[i] as int) < conf_floor(conf_thresh)
    ||| exists|k: int|
        0 <= k < r.len() && prio_before(scores, #[trigger] r[k] as int, i) && overlaps(
            boxes[r[k] as int],
            boxes[i],
            iou_thresh,
        )
}

/// What greedy non-maximum suppression guarantees of its result `r` on the
/// parallel candidate lists `boxes`/`scores`:
/// - every entry of `r` is a valid anchor index;
/// - `r` is ordered by rank: confidence descending, ties by ascending anchor index;
/// - every kept candidate reaches the confidence floor;
/// - no two kept boxes overlap beyond the IoU threshold;
/// - every discarded candidate either misses the confidence floor or overlaps
///   some kept, higher-ranked box beyond the threshold.
pub open spec fn nms_valid(
    boxes: Seq<Rect>,
    scores: Seq<i128>,
    conf_thresh: i64,
    iou_thresh: i64,
    r: Seq<usize>,
) -> bool {
    &&& forall|k: int| 0 <= k < r.len() ==> (#[trigger] r[k]) < boxes.len()
    &&& forall|k1: int, k2: int|
        0 <= k1 < k2 < r.len() ==> prio_before(scores, #[trigger] r[k1] as int, #[trigger] r[k2] as int)
    &&& forall|k: int|
        0 <= k < r.len() ==> scores[#[trigger] r[k] as int] as int >= conf_floor(conf_thresh)
    &&& forall|k1: int, k2: int|
        0 <= k1 < k2 < r.len() ==> !overlaps(
            boxes[#[trigger] r[k1] as int],
            boxes[#[trigger] r[k2] as int],
            iou_thresh,
        )
    &&& forall|i: int|
        0 <= i < boxes.len() && !(#[trigger] in_result(r, i)) ==> discard_justified(
            boxes,
            scores,
            conf_thresh,
            iou_thresh,
            r,
            i,
        )
}

spec fn count_true(s: Seq<bool>) -> int
    decreases s.len(),
{
    if s.len() == 0 {
        0
    } else {
        count_true(s.drop_last()) + if s.last() {
            1int
        } else {
            0int
        }
    }
}

proof fn lemma_count_true_nonneg(s: Seq<bool>)
    ensures
        count_true(s) >= 0,
    decreases s.len(),
{
    if s.len() > 0 {
        lemma_count_true_nonneg(s.drop_last());
    }
}

proof fn lemma_count_true_update(s: Seq<bool>, i: int)
    requires
        0 <= i < s.len(),
        s[i],
    ensures
        count_true(s.update(i, false)) == count_true(s) - 1,
    decreases s.len(),
{
    if i == s.len() - 1 {
        assert(s.update(i, false).drop_last() =~= s.drop_last());
    } else {
        assert(s.update(i, false).drop_last() =~= s.drop_last().update(i, false));
        lemma_count_true_update(s.drop_last(), i);
    }
}

/// The still-active candidate of highest rank, if any candidate is active.
fn find_best(scores: &Vec<i128>, active: &Vec<bool>) -> (r: Option<usize>)
    requires
        active.len() == scores.len(),
    ensures
        match r {
            Some(b) => b < scores.len() && active[b as int] && forall|j: int|
                0 <= j < scores.len() && active[j] && j != b ==> prio_before(scores@, b as int, j),
            None => forall|j: int| 0 <= j < scores.len() ==> !active[j],
        },
{
    let n = scores.len();
    let mut best: Option<usize> = None;
    for j in 0..n
        invariant
            n == scores.len(),
            active.len() == scores.len(),
            match best {
                Some(b) => b < j && active@[b as int] && forall|t: int|
                    0 <= t < j && active@[t] && t != b ==> prio_before(scores@, b as int, t),
                None => forall|t: int| 0 <= t < j ==> !active@[t],
            },
    {
        if active[j] {
            match best {
                None => {
                    best = Some(j);
                },
                Some(b) => {
                    if scores[j] > scores[b] {
                        best = Some(j);
                    }
                },
            }
        }
    }
    best
}

/// Greedy non-maximum suppression.
///
/// Discards candidates whose combined confidence is below `conf_thresh` (in
/// millionths), then repeatedly keeps the highest-ranked remaining candidate
/// and discards every remaining candidate whose box overlaps it beyond
/// `iou_thresh` (in millionths). Returns the kept anchor indices, highest
/// rank first; fails with `InvalidThreshold` exactly when a threshold lies
/// outside `[0, 1]`.
pub fn suppress(
    boxes: &Vec<Rect>,
    scores: &Vec<i128>,
    conf_thresh: i64,
    iou_thresh: i64,
) -> (r: Result<Vec<usize>, DetectError>)
    requires
        boxes.len() == scores.len(),
    ensures
        match r {
            Ok(kept) => {
                &&& 0 <= conf_thresh <= SCALE
                &&& 0 <= iou_thresh <= SCALE
                &&& nms_valid(boxes@, scores@, conf_thresh, iou_thresh, kept@)
            },
            Err(e) => {
                &&& e == DetectError::InvalidThreshold
                &&& !(0 <= conf_thresh <= SCALE && 0 <= iou_thresh <= SCALE)
            },
        },
{
    if conf_thresh < 0 || conf_thresh > SCALE || iou_thresh < 0 || iou_thresh > SCALE {
        return Err(DetectError::InvalidThreshold);
    }
    let n = boxes.len();
    let floor: i128 = (conf_thresh as i128) * (SCALE as i128);
    assert(floor as int == conf_floor(conf_thresh));
    let mut active: Vec<bool> = Vec::new();
    for i in 0..n
        invariant
            n == boxes.len(),
            boxes.len() == scores.len(),
            floor as int == conf_floor(conf_thresh),
            active.len() == i,
            forall|t: int|
                0 <= t < i ==> ((#[trigger] active@[t]) <==> scores@[t] as int >= conf_floor(
                    conf_thresh,
                )),
    {
        active.push(scores[i] >= floor);
    }
    let mut kept: Vec<usize> = Vec::new();
    let mut best_opt = find_best(scores, &active);
    while best_opt.is_some()
        invariant
            n == boxes.len(),
            boxes.len() == scores.len(),
            active.len() == n,
            0 <= conf_thresh <= SCALE,
            0 <= iou_thresh <= SCALE,
            match best_opt {
                Some(b) => b < n && active@[b as int] && forall|j: int|
                    0 <= j < n && active@[j] && j != b ==> prio_before(scores@, b as int, j),
                None => forall|j: int| 0 <= j < n ==> !active@[j],
            },
            forall|k: int| 0 <= k < kept@.len() ==> (#[trigger] kept@[k]) < n,
            forall|k1: int, k2: int|
                0 <= k1 < k2 < kept@.len() ==> prio_before(
                    scores@,
                    #[trigger] kept@[k1] as int,
                    #[trigger] kept@[k2] as int,
                ),
            forall|k: int|
                0 <= k < kept@.len() ==> scores@[#[trigger] kept@[k] as int] as int >= conf_floor(
                    conf_thresh,
                ),
            forall|k1: int, k2: int|
                0 <= k1 < k2 < kept@.len() ==> !overlaps(
                    boxes@[#[trigger] kept@[k1] as int],
                    boxes@[#[trigger] kept@[k2] as int],
                    iou_thresh,
                ),
            forall|i: int|
                0 <= i < n && (#[trigger] active@[i]) ==> scores@[i] as int >= conf_floor(
                    conf_thresh,
                ),
            forall|i: int| 0 <= i < n && (#[trigger] active@[i]) ==> !in_result(kept@, i),
            forall|i: int, k: int|
                0 <= i < n && (#[trigger] active@[i]) && 0 <= k < kept@.len() ==> prio_before(
                    scores@,
                    #[trigger] kept@[k] as int,
                    i,
                ),
            forall|i: int, k: int|
                0 <= i < n && (#[trigger] active@[i]) && 0 <= k < kept@.len() ==> !overlaps(
                    boxes@[#[trigger] kept@[k] as int],
                    boxes@[i],
                    iou_thresh,
                ),
            forall|i: int|
                0 <= i < n && !(#[trigger] active@[i]) && !in_result(kept@, i)
                    ==> discard_justified(boxes@, scores@, conf_thresh, iou_thresh, kept@, i),
        decreases count_true(active@),
    {
        let ghost pre_active = active@;
        let ghost pre_kept = kept@;
        let best = best_opt.unwrap();
        active.set(best, false);
        kept.push(best);
        proof {
            lemma_count_true_update(pre_active, best as int);
            assert(kept@ == pre_kept.push(best));
            assert(kept@[kept@.len() - 1] == best);
            assert(in_result(kept@, best as int));
            assert forall|i: int|
                0 <= i < n && (#[trigger] active@[i]) implies !in_result(kept@, i) by {
                if in_result(kept@, i) {
                    let k = choose|k: int| 0 <= k < kept@.len() && kept@[k] as int == i;
                    if k < kept@.len() - 1 {
                        assert(kept@[k] == pre_kept[k]);
                        assert(in_result(pre_kept, i));
                    } else {
                        assert(i == best as int);
                    }
                }
            }
            assert forall|i: int|
                0 <= i < n && !(#[trigger] active@[i]) && !in_result(kept@, i)
                implies discard_justified(boxes@, scores@, conf_thresh, iou_thresh, kept@, i) by {
                assert(i != best as int);
                assert(!pre_active[i]);
                assert forall|t: int| 0 <= t < pre_kept.len() && pre_kept[t] as int == i implies false by {
                    assert(kept@[t] == pre_kept[t]);
                }
                assert(!in_result(pre_kept, i));
                assert(discard_justified(boxes@, scores@, conf_thresh, iou_thresh, pre_kept, i));
                if !((scores@[i] as int) < conf_floor(conf_thresh)) {
                    let k = choose|k: int|
                        0 <= k < pre_kept.len() && prio_before(scores@, pre_kept[k] as int, i)
                            && overlaps(boxes@[pre_kept[k] as int], boxes@[i], iou_thresh);
                    assert(kept@[k] == pre_kept[k]);
                    assert(0 <= k < kept@.len() && prio_before(scores@, kept@[k] as int, i)
                        && overlaps(boxes@[kept@[k] as int], boxes@[i], iou_thresh));
                }
            }
        }
        let ghost cnt_mid = count_true(active@);
        let bb = boxes[best];
        let mut j: usize = 0;
        while j < n
            invariant
                j <= n,
                n == boxes.len(),
                boxes.len() == scores.len(),
                active.len() == n,
                0 <= conf_thresh <= SCALE,
                0 <= iou_thresh <= SCALE,
                kept@.len() >= 1,
                best < n,
                kept@[kept@.len() - 1] == best,
                bb == boxes@[best as int],
                !active@[best as int],
                count_true(active@) <= cnt_mid,
                forall|k: int| 0 <= k < kept@.len() ==> (#[trigger] kept@[k]) < n,
                forall|k1: int, k2: int|
                    0 <= k1 < k2 < kept@.len() ==> prio_before(
                        scores@,
                        #[trigger] kept@[k1] as int,
                        #[trigger] kept@[k2] as int,
                    ),
                forall|k: int|
                    0 <= k < kept@.len() ==> scores@[#[trigger] kept@[k] as int] as int
                        >= conf_floor(conf_thresh),
                forall|k1: int, k2: int|
                    0 <= k1 < k2 < kept@.len() ==> !overlaps(
                        boxes@[#[trigger] kept@[k1] as int],
                        boxes@[#[trigger] kept@[k2] as int],
                        iou_thresh,
                    ),
                forall|i: int|
                    0 <= i < n && (#[trigger] active@[i]) ==> scores@[i] as int >= conf_floor(
                        conf_thresh,
                    ),
                forall|i: int| 0 <= i < n && (#[trigger] active@[i]) ==> !in_result(kept@, i),
                forall|i: int, k: int|
                    0 <= i < n && (#[trigger] active@[i]) && 0 <= k < kept@.len() ==> prio_before(
                        scores@,
                        #[trigger] kept@[k] as int,
                        i,
                    ),
                forall|i: int, k: int|
                    0 <= i < n && (#[trigger] active@[i]) && 0 <= k < kept@.len() - 1 ==> !overlaps(
                        boxes@[#[trigger] kept@[k] as int],
                        boxes@[i],
                        iou_thresh,
                    ),
                forall|i: int|
                    0 <= i < j && (#[trigger] active@[i]) ==> !overlaps(
                        boxes@[best as int],
                        boxes@[i],
                        iou_thresh,
                    ),
                forall|i: int|
                    0 <= i < n && !(#[trigger] active@[i]) && !in_result(kept@, i)
                        ==> discard_justified(boxes@, scores@, conf_thresh, iou_thresh, kept@, i),
            decreases n - j,
        {
            let aj = active[j];
            if aj {
                let bj = boxes[j];
                if overlaps_exec(&bb, &bj, iou_thresh) {
                    let ghost mid_active = active@;
                    active.set(j, false);
                    proof {
                        lemma_count_true_update(mid_active, j as int);
                        assert(prio_before(scores@, best as int, j as int));
                        let ghost kl = kept@.len() - 1;
                        assert(kept@[kl] == best);
                        assert(0 <= kl < kept@.len() && prio_before(scores@, kept@[kl] as int, j as int)
                            && overlaps(boxes@[kept@[kl] as int], boxes@[j as int], iou_thresh));
                        assert(discard_justified(
                            boxes@,
                            scores@,
                            conf_thresh,
                            iou_thresh,
                            kept@,
                            j as int,
                        ));
                    }
                }
            }
            j = j + 1;
        }
        best_opt = find_best(scores, &active);
        proof {
            lemma_count_true_nonneg(active@);
        }
    }
    proof {
        assert forall|i: int|
            0 <= i < boxes@.len() && !(#[trigger] in_result(kept@, i)) implies discard_justified(
            boxes@,
            scores@,
            conf_thresh,
            iou_thresh,
            kept@,
            i,
        ) by {
            assert(!active@[i]);
        }
        assert(nms_valid(boxes@, scores@, conf_thresh, iou_thresh, kept@));
    }
    Ok(kept)
}

/// A candidate list that is already suppression-clean — every candidate
/// reaches the confidence floor, and no two distinct boxes overlap beyond
/// the IoU threshold — is passed through whole: every anchor index appears
/// in any valid suppression result, which therefore has full length.
pub proof fn lemma_clean_input_kept_whole(
    boxes: Seq<Rect>,
    scores: Seq<i128>,
    conf_thresh: i64,
    iou_thresh: i64,
    r: Seq<usize>,
)
    requires
        boxes.len() == scores.len(),
        nms_valid(boxes, scores, conf_thresh, iou_thresh, r),
        forall|i: int| 0 <= i < scores.len() ==> (#[trigger] scores[i]) as int >= conf_floor(conf_thresh),
        forall|i: int, j: int|
            0 <= i < boxes.len() && 0 <= j < boxes.len() && i != j ==> !overlaps(
                #[trigger] boxes[i],
                #[trigger] boxes[j],
                iou_thresh,
            ),
    ensures
        forall|i: int| 0 <= i < boxes.len() ==> in_result(r, i),
        r.len() == boxes.len(),
{
    assert forall|i: int| 0 <= i < boxes.len() implies in_result(r, i) by {
        if !in_result(r, i) {
            let k = choose|k: int|
                0 <= k < r.len() && prio_before(scores, r[k] as int, i) && overlaps(
                    boxes[r[k] as int],
                    boxes[i],
                    iou_thresh,
                );
            assert(r[k] as int != i);
            assert(false);
        }
    }
    let ri = Seq::new(r.len(), |k: int| r[k] as int);
    assert forall|k1: int, k2: int| 0 <= k1 < k2 < ri.len() implies ri[k1] != ri[k2] by {
        assert(prio_before(scores, r[k1] as int, r[k2] as int));
    }
    assert(ri.no_duplicates());
    ri.unique_seq_to_set();
    let n = boxes.len() as int;
    vstd::set_lib::lemma_int_range(0, n);
    assert forall|v: int| vstd::set_lib::set_int_range(0, n).contains(v) implies ri.to_set().contains(
        v,
    ) by {
        assert(in_result(r, v));
        let k = choose|k: int| 0 <= k < r.len() && r[k] as int == v;
        assert(ri[k] == v);
    }
    assert forall|v: int| ri.to_set().contains(v) implies vstd::set_lib::set_int_range(0, n).contains(
        v,
    ) by {
        let k = choose|k: int| 0 <= k < ri.len() && ri[k] == v;
        assert(r[k] < boxes.len());
    }
    assert(ri.to_set() =~= vstd::set_lib::set_int_range(0, n));
}

/// Two candidates with identical confidences, both reaching the confidence
/// floor, whose boxes do not overlap beyond the IoU threshold, are both
/// retained — ordered by ascending anchor index, since ranking breaks the
/// confidence tie by decode order.
pub proof fn lemma_equal_pair_retained(
    boxes: Seq<Rect>,
    scores: Seq<i128>,
    conf_thresh: i64,
    iou_thresh: i64,
    r: Seq<usize>,
)
    requires
        boxes.len() == 2,
        scores.len() == 2,
        scores[0] == scores[1],
        (scores[0] as int) >= conf_floor(conf_thresh),
        !overlaps(boxes[0], boxes[1], iou_thresh),
        nms_valid(boxes, scores, conf_thresh, iou_thresh, r),
    ensures
        r.len() == 2,
        r[0] == 0usize,
        r[1] == 1usize,
{
    lemma_overlaps_sym(boxes[0], boxes[1], iou_thresh);
    lemma_clean_input_kept_whole(boxes, scores, conf_thresh, iou_thresh, r);
    assert(in_result(r, 0) && in_result(r, 1));
    let k0 = choose|k: int| 0 <= k < r.len() && r[k] as int == 0;
    let k1 = choose|k: int| 0 <= k < r.len() && r[k] as int == 1;
    assert(k0 != k1);
    assert(prio_before(scores, r[0] as int, r[1] as int));
}

/// The boxes that survive a suppression, as their own candidate list.
pub open spec fn select_boxes(boxes: Seq<Rect>, r: Seq<usize>) -> Seq<Rect> {
    Seq::new(r.len(), |k: int| boxes[r[k] as int])
}

/// The combined confidences that survive a suppression, as their own list.
pub open spec fn select_scores(scores: Seq<i128>, r: Seq<usize>) -> Seq<i128> {
    Seq::new(r.len(), |k: int| scores[r[k] as int])
}

/// Suppression is idempotent: running suppression on the candidates that
/// survived a first suppression (whose pairwise IoU is below the threshold
/// by construction) keeps every one of them.
pub proof fn lemma_suppress_idempotent(
    boxes: Seq<Rect>,
    scores: Seq<i128>,
    conf_thresh: i64,
    iou_thresh: i64,
    r1: Seq<usize>,
    r2: Seq<usize>,
)
    requires
        boxes.len() == scores.len(),
        nms_valid(boxes, scores, conf_thresh, iou_thresh, r1),
        nms_valid(
            select_boxes(boxes, r1),
            select_scores(scores, r1),
            conf_thresh,
            iou_thresh,
            r2,
        ),
    ensures
        forall|k: int| 0 <= k < r1.len() ==> in_result(r2, k),
        r2.len() == r1.len(),
{
    let sb = select_boxes(boxes, r1);
    let ss = select_scores(scores, r1);
    assert forall|i: int, j: int|
        0 <= i < sb.len() && 0 <= j < sb.len() && i != j implies !overlaps(
        #[trigger] sb[i],
        #[trigger] sb[j],
        iou_thresh,
    ) by {
        if i < j {
            assert(!overlaps(boxes[r1[i] as int], boxes[r1[j] as int], iou_thresh));
        } else {
            assert(!overlaps(boxes[r1[j] as int], boxes[r1[i] as int], iou_thresh));
            lemma_overlaps_sym(boxes[r1[i] as int], boxes[r1[j] as int], iou_thresh);
        }
    }
    lemma_clean_input_kept_whole(sb, ss, conf_thresh, iou_thresh, r2);
}

} // verus!
