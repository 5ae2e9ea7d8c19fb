use objdet::decode::decode;
use objdet::error::DetectError;
use objdet::nms::suppress;
use objdet::pipeline::{post_process, ModelConfig};
use objdet::rect::{overlaps_exec, Rect};

// One whole unit in the library's fixed-point representation.
const M: i64 = 1_000_000;

// Combined confidences are products of two fixed-point values.
const M2: i128 = 1_000_000_000_000;

fn rect(x: i32, y: i32, width: i32, height: i32) -> Rect {
    Rect { x, y, width, height }
}

#[test]
fn decode_rejects_wrong_element_count() {
    // 7 attributes announced for 2 anchors, but only one row supplied.
    let data: Vec<i64> = vec![0; 7];
    assert_eq!(decode(&data, 2, 7).unwrap_err(), DetectError::ShapeError);
    // One element too many.
    let data: Vec<i64> = vec![0; 15];
    assert_eq!(decode(&data, 2, 7).unwrap_err(), DetectError::ShapeError);
    // Zero anchors demand an empty tensor.
    let data: Vec<i64> = vec![0; 1];
    assert_eq!(decode(&data, 0, 7).unwrap_err(), DetectError::ShapeError);
}

#[test]
fn decode_rejects_rows_without_class_channels() {
    // Element count matches, but 5 columns leave no class channel.
    let data: Vec<i64> = vec![0; 10];
    assert_eq!(decode(&data, 2, 5).unwrap_err(), DetectError::InvalidInput);
}

#[test]
fn decode_single_anchor_row() {
    // Anchor [cx=100, cy=100, w=50, h=50, obj=0.9, classes=(0.1, 0.8)]:
    // box x = 100 - 25 = 75, combined confidence 0.9 * 0.8 = 0.72, class 1.
    let data: Vec<i64> = vec![100 * M, 100 * M, 50 * M, 50 * M, 900_000, 100_000, 800_000];
    let d = decode(&data, 1, 7).unwrap();
    assert_eq!(d.boxes, vec![rect(75, 75, 50, 50)]);
    assert_eq!(d.scores, vec![720_000 * 1_000_000i128]);
    assert_eq!(d.class_indices, vec![1]);
}

#[test]
fn decode_ties_pick_first_class() {
    let data: Vec<i64> = vec![10 * M, 10 * M, 4 * M, 4 * M, M, 500_000, 700_000, 700_000];
    let d = decode(&data, 1, 8).unwrap();
    assert_eq!(d.class_indices, vec![1]);
    assert_eq!(d.scores, vec![700_000 * M as i128]);
}

#[test]
fn decode_rounds_box_coordinates_to_nearest() {
    // cx = 10.2, w = 3.0 -> x = round(8.7) = 9; cy = 1.5, h = 7.0 -> y = round(-2.0).
    let data: Vec<i64> = vec![10_200_000, 1_500_000, 3 * M, 7 * M, M, M];
    let d = decode(&data, 1, 6).unwrap();
    assert_eq!(d.boxes, vec![rect(9, -2, 3, 7)]);
}

#[test]
fn overlap_comparison_is_strict_at_the_threshold() {
    // inter = 50, union = 100: IoU is exactly 0.5 and must not count as
    // exceeding a 0.5 threshold.
    let a = rect(0, 0, 10, 10);
    let b = rect(0, 0, 10, 5);
    assert!(!overlaps_exec(&a, &b, 500_000));
    assert!(overlaps_exec(&a, &b, 499_999));
}

#[test]
fn suppress_rejects_thresholds_outside_unit_interval() {
    let boxes = vec![rect(0, 0, 10, 10)];
    let scores = vec![M2];
    assert_eq!(suppress(&boxes, &scores, -1, 500_000).unwrap_err(), DetectError::InvalidThreshold);
    assert_eq!(
        suppress(&boxes, &scores, 500_000, M + 1).unwrap_err(),
        DetectError::InvalidThreshold
    );
}

#[test]
fn suppress_drops_low_confidence_candidates() {
    let boxes = vec![rect(0, 0, 10, 10), rect(100, 100, 10, 10)];
    // 0.9 and 0.3 against a 0.5 floor.
    let scores = vec![9 * M2 / 10, 3 * M2 / 10];
    let kept = suppress(&boxes, &scores, 500_000, 500_000).unwrap();
    assert_eq!(kept, vec![0]);
}

#[test]
fn suppress_removes_overlapping_lower_scores() {
    // Two near-identical boxes and one far away: the weaker duplicate goes.
    let boxes = vec![rect(0, 0, 10, 10), rect(1, 0, 10, 10), rect(100, 100, 10, 10)];
    let scores = vec![8 * M2 / 10, 9 * M2 / 10, 7 * M2 / 10];
    let kept = suppress(&boxes, &scores, 100_000, 500_000).unwrap();
    assert_eq!(kept, vec![1, 2]);
}

#[test]
fn suppress_keeps_equal_scores_with_disjoint_boxes() {
    // Identical confidences with disjoint boxes: both retained, ordered by
    // ascending anchor index.
    let boxes = vec![rect(50, 50, 10, 10), rect(0, 0, 10, 10)];
    let scores = vec![6 * M2 / 10, 6 * M2 / 10];
    let kept = suppress(&boxes, &scores, 500_000, 500_000).unwrap();
    assert_eq!(kept, vec![0, 1]);
}

#[test]
fn suppress_orders_by_score_descending() {
    let boxes = vec![rect(0, 0, 5, 5), rect(20, 0, 5, 5), rect(40, 0, 5, 5)];
    let scores = vec![5 * M2 / 10, 9 * M2 / 10, 7 * M2 / 10];
    let kept = suppress(&boxes, &scores, 100_000, 500_000).unwrap();
    assert_eq!(kept, vec![1, 2, 0]);
}

#[test]
fn suppress_is_idempotent_on_its_own_output() {
    let boxes = vec![
        rect(0, 0, 10, 10),
        rect(1, 1, 10, 10),
        rect(30, 30, 8, 8),
        rect(31, 30, 8, 8),
        rect(60, 0, 4, 4),
    ];
    let scores = vec![9 * M2 / 10, 8 * M2 / 10, 4 * M2 / 10, 85 * M2 / 100, 2 * M2 / 10];
    let kept = suppress(&boxes, &scores, 300_000, 500_000).unwrap();
    assert_eq!(kept, vec![0, 3]);

    // Re-run suppression on the surviving candidates alone: everything is
    // retained, in the same (already rank-sorted) order.
    let boxes2: Vec<Rect> = kept.iter().map(|&i| boxes[i]).collect();
    let scores2: Vec<i128> = kept.iter().map(|&i| scores[i]).collect();
    let kept2 = suppress(&boxes2, &scores2, 300_000, 500_000).unwrap();
    assert_eq!(kept2, vec![0, 1]);
}

#[test]
fn post_process_looks_up_classes_by_original_anchor_index() {
    // Three anchors with distinct best classes; the middle one is an
    // overlapping duplicate of the first and is suppressed. Surviving class
    // indices must follow the surviving *anchor* indices (2 then 0), not the
    // positions in the suppressed list.
    let mut data: Vec<i64> = Vec::new();
    // anchor 0: box at (0,0)..(10,10), obj 0.8, best class 0
    data.extend_from_slice(&[5 * M, 5 * M, 10 * M, 10 * M, 800_000, 700_000, 100_000, 100_000]);
    // anchor 1: same box, obj 0.7, best class 1
    data.extend_from_slice(&[5 * M, 5 * M, 10 * M, 10 * M, 700_000, 100_000, 700_000, 100_000]);
    // anchor 2: far box, obj 0.9, best class 2
    data.extend_from_slice(&[80 * M, 80 * M, 10 * M, 10 * M, 900_000, 100_000, 100_000, 800_000]);
    let out = post_process(&data, 3, 8, 300_000, 500_000).unwrap();
    assert_eq!(out.indices, vec![2, 0]);
    assert_eq!(out.class_index_list, vec![2, 0]);
    assert_eq!(out.boxes.len(), 3);
    assert_eq!(out.boxes[out.indices[0]], rect(75, 75, 10, 10));
}

#[test]
fn post_process_single_candidate_scenario() {
    // The 640x480 scenario's decode stage: one anchor
    // [100, 100, 50, 50, 0.9, 0.1, 0.8] with thresholds 0.5/0.5 keeps the
    // single detection with class 1 and box (75, 75, 50, 50).
    let data: Vec<i64> = vec![100 * M, 100 * M, 50 * M, 50 * M, 900_000, 100_000, 800_000];
    let out = post_process(&data, 1, 7, 500_000, 500_000).unwrap();
    assert_eq!(out.indices, vec![0]);
    assert_eq!(out.class_index_list, vec![1]);
    assert_eq!(out.scores, vec![720_000 * M as i128]);
    assert_eq!(out.boxes, vec![rect(75, 75, 50, 50)]);
}

#[test]
fn post_process_propagates_errors() {
    let data: Vec<i64> = vec![0; 6];
    assert_eq!(post_process(&data, 2, 7, 500_000, 500_000).unwrap_err(), DetectError::ShapeError);
    let data: Vec<i64> = vec![0; 7];
    assert_eq!(
        post_process(&data, 1, 7, 500_000, 2 * M).unwrap_err(),
        DetectError::InvalidThreshold
    );
}

#[test]
fn model_config_validation() {
    let good = ModelConfig {
        model_path: String::from("model.onnx"),
        class_names: vec![String::from("person"), String::from("car")],
        input_size: 416,
    };
    assert!(good.validate().is_ok());
    let bad_size = ModelConfig { input_size: 0, ..make_config() };
    assert_eq!(bad_size.validate().unwrap_err(), DetectError::InvalidInput);
    let no_classes = ModelConfig { class_names: Vec::new(), ..make_config() };
    assert_eq!(no_classes.validate().unwrap_err(), DetectError::InvalidInput);
}

fn make_config() -> ModelConfig {
    ModelConfig {
        model_path: String::from("model.onnx"),
        class_names: vec![String::from("person")],
        input_size: 416,
    }
}

#[test]
fn end_to_end_640x480_scenario() {
    // 640x480 letterboxed into 416x416 with upscaling allowed, then one
    // synthetic anchor [100,100,50,50,0.9, 0.1,0.8] decoded and suppressed
    // with thresholds 0.5/0.5: a single detection of class 1 survives.
    let plan = objdet::letterbox::letterbox_plan(640, 480, 416, 416, true).unwrap();
    assert_eq!((plan.nw, plan.nh), (416, 312));
    assert_eq!((plan.top, plan.bottom), (52, 52));

    let data: Vec<i64> = vec![100 * M, 100 * M, 50 * M, 50 * M, 900_000, 100_000, 800_000];
    let out = post_process(&data, 1, 7, 500_000, 500_000).unwrap();
    assert_eq!(out.indices, vec![0]);
    assert_eq!(out.class_index_list, vec![1]);
    assert_eq!(out.boxes[0], rect(75, 75, 50, 50));
    assert_eq!(out.scores[0], 72 * M2 / 100);
}
