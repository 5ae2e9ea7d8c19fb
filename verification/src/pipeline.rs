use vstd::prelude::*;
use crate::decode::{decode, best_class, anchor_box, anchor_score};
use crate::error::DetectError;
use crate::fixed::SCALE;
use crate::nms::{suppress, nms_valid};
use crate::rect::Rect;

verus! {

/// The detection model's configuration: where its weights live, the class
/// names in class-index order, and the side length of the square input the
/// network expects.
pub struct ModelConfig {
    pub model_path: String,
    pub class_names: Vec<String>,
    pub input_size: i32,
}

impl ModelConfig {
    /// A configuration is usable only with a positive input size and at
    /// least one class name.
    pub fn validate(&self) -> (r: Result<(), DetectError>)
        ensures
            r is Ok <==> (self.input_size > 0 && self.class_names@.len() > 0),
            r is Err ==> r == Err::<(), DetectError>(DetectError::InvalidInput),
    {
        if self.input_size > 0 && self.class_names.len() > 0 {
            Ok(())
        } else {
            Err(DetectError::InvalidInput)
        }
    }
}

/// The outcome of decoding and suppressing one raw output tensor.
///
/// `boxes` and `scores` hold every decoded candidate in anchor order;
/// `indices` holds the anchor indices that survived suppression, highest
/// rank first; `class_index_list` holds, for each surviving detection, the
/// best-class index of its *original* anchor, in the same order as
/// `indices`.
#[derive(Debug)]
pub struct DetectionOuput {
    pub boxes: Vec<Rect>,
    pub scores: Vec<i128>,
    pub indices: Vec<usize>,
    pub class_index_list: Vec<usize>,
}

/// Decodes a raw output tensor of `num_anchors` rows by `num_attributes`
/// columns and applies greedy non-maximum suppression with the given
/// confidence and IoU thresholds (both in millionths).
///
/// Every surviving detection's class index is looked up via its original
/// anchor index, never via its position in the suppressed list.
pub fn post_process(
    data: &Vec<i64>,
    num_anchors: usize,
    num_attributes: usize,
    conf_thresh: i64,
    iou_thresh: i64,
) -> (r: Result<DetectionOuput, DetectError>)
    ensures
        match r {
            Ok(o) => {
                &&& data@.len() == num_anchors as int * num_attributes as int
                &&& num_attributes >= 6
                &&& 0 <= conf_thresh <= SCALE
                &&& 0 <= iou_thresh <= SCALE
                &&& o.boxes@.len() == num_anchors
                &&& o.scores@.len() == num_anchors
                &&& forall|i: int|
                    0 <= i < num_anchors ==> o.boxes@[i] == anchor_box(
                        data@,
                        num_attributes as int,
                        i,
                    )
                &&& forall|i: int|
                    0 <= i < num_anchors ==> (#[trigger] o.scores@[i]) as int == anchor_score(
                        data@,
                        num_attributes as int,
                        i,
                    )
                &&& nms_valid(o.boxes@, o.scores@, conf_thresh, iou_thresh, o.indices@)
                &&& o.class_index_list@.len() == o.indices@.len()
                &&& forall|k: int|
                    0 <= k < o.indices@.len() ==> (#[trigger] o.class_index_list@[k]) as int
                        == best_class(data@, num_attributes as int, o.indices@[k] as int)
            },
            Err(e) => {
                ||| (data@.len() != num_anchors as int * num_attributes as int
                    && e == DetectError::ShapeError)
                ||| (data@.len() == num_anchors as int * num_attributes as int && num_attributes < 6
                    && e == DetectError::InvalidInput)
                ||| (data@.len() == num_anchors as int * num_attributes as int && num_attributes >= 6
                    && !(0 <= conf_thresh <= SCALE && 0 <= iou_thresh <= SCALE)
                    && e == DetectError::InvalidThreshold)
            },
        },
{
    let d = match decode(data, num_anchors, num_attributes) {
        Ok(d) => d,
        Err(e) => {
            return Err(e);
        },
    };
    let kept = match suppress(&d.boxes, &d.scores, conf_thresh, iou_thresh) {
        Ok(k) => k,
        Err(e) => {
            return Err(e);
        },
    };
    let mut class_index_list: Vec<usize> = Vec::new();
    let nkept = kept.len();
    for k in 0..nkept
        invariant
            nkept == kept@.len(),
            d.class_indices@.len() == num_anchors,
            forall|t: int| 0 <= t < kept@.len() ==> (#[trigger] kept@[t]) < num_anchors,
            forall|t: int|
                0 <= t < kept@.len() ==> (#[trigger] d.class_indices@[kept@[t] as int]) as int
                    == best_class(data@, num_attributes as int, kept@[t] as int),
            class_index_list@.len() == k,
            forall|t: int|
                0 <= t < k ==> (#[trigger] class_index_list@[t]) as int == best_class(
                    data@,
                    num_attributes as int,
                    kept@[t] as int,
                ),
    {
        class_index_list.push(d.class_indices[kept[k]]);
    }
    Ok(
        DetectionOuput {
            boxes: d.boxes,
            scores: d.scores,
            indices: kept,
            class_index_list,
        },
    )
}

} // verus!
