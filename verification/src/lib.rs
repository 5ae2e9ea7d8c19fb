//! Single-image object detection core: aspect-ratio-preserving letterbox
//! bookkeeping, decoding of raw per-anchor network output into boxes, scores
//! and class indices, and greedy non-maximum suppression. All fractional
//! quantities are fixed-point integers (millionths), so every step is exact
//! and carries a proved contract; image pixels and network execution live
//! with the caller.

pub mod error;
pub mod decode;
pub mod fixed;
pub mod letterbox;
pub mod nms;
pub mod pipeline;
pub mod rect;
