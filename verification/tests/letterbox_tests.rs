use objdet::error::DetectError;
use objdet::letterbox::letterbox_plan;

#[test]
fn letterbox_640x480_into_416() {
    // 640x480 into a 416x416 canvas: ratio min(416/640, 416/480) = 0.65,
    // resized content 416x312, vertical padding 104 split 52/52.
    let p = letterbox_plan(640, 480, 416, 416, true).unwrap();
    assert_eq!(p.nw, 416);
    assert_eq!(p.nh, 312);
    assert_eq!(p.top, 52);
    assert_eq!(p.bottom, 52);
    assert_eq!(p.left, 0);
    assert_eq!(p.right, 0);
}

#[test]
fn letterbox_odd_padding_sums_exactly() {
    // 200x99 into 100x100: ratio 0.5, content 100x50 (99 * 0.5 rounds to 50),
    // leftover height 50 splits 25/25; an odd leftover must split n/(n+1).
    let p = letterbox_plan(200, 99, 100, 100, true).unwrap();
    assert_eq!(p.nw, 100);
    assert_eq!(p.nh, 50);
    assert_eq!(p.top + p.bottom, 100 - p.nh);
    assert_eq!(p.left + p.right, 100 - p.nw);

    // 100x33 into 50x50: content 50x17 (16.5 rounds half up), leftover 33.
    let q = letterbox_plan(100, 33, 50, 50, true).unwrap();
    assert_eq!(q.nh, 17);
    assert_eq!(q.top, 16);
    assert_eq!(q.bottom, 17);
    assert_eq!(q.top + q.bottom, 50 - q.nh);
}

#[test]
fn letterbox_upscale_allowed_fills_target() {
    // 100x50 into 200x200 with upscaling: ratio 2, content 200x100.
    let p = letterbox_plan(100, 50, 200, 200, true).unwrap();
    assert_eq!(p.nw, 200);
    assert_eq!(p.nh, 100);
    assert_eq!(p.top, 50);
    assert_eq!(p.bottom, 50);
}

#[test]
fn letterbox_no_upscale_clamps_ratio() {
    // Same shapes without upscaling: the ratio clamps to 1 and the resized
    // dimensions never exceed the original.
    let p = letterbox_plan(100, 50, 200, 200, false).unwrap();
    assert_eq!(p.nw, 100);
    assert_eq!(p.nh, 50);
    assert!(p.nw <= 100 && p.nh <= 50);
    assert_eq!(p.left, 50);
    assert_eq!(p.right, 50);
    assert_eq!(p.top, 75);
    assert_eq!(p.bottom, 75);
}

#[test]
fn letterbox_downscale_unaffected_by_clamp() {
    let with_up = letterbox_plan(640, 480, 416, 416, true).unwrap();
    let without_up = letterbox_plan(640, 480, 416, 416, false).unwrap();
    assert_eq!(with_up.nw, without_up.nw);
    assert_eq!(with_up.nh, without_up.nh);
    assert_eq!(with_up.top, without_up.top);
}

#[test]
fn letterbox_rejects_non_positive_dimensions() {
    assert_eq!(letterbox_plan(0, 480, 416, 416, true), Err(DetectError::InvalidInput));
    assert_eq!(letterbox_plan(640, -1, 416, 416, true), Err(DetectError::InvalidInput));
    assert_eq!(letterbox_plan(640, 480, 0, 416, true), Err(DetectError::InvalidInput));
    assert_eq!(letterbox_plan(640, 480, 416, 0, true), Err(DetectError::InvalidInput));
}
