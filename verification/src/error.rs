use vstd::prelude::*;

verus! {

/// Errors surfaced by the detection pipeline.
///
/// `InvalidInput` covers non-positive dimensions and malformed configuration,
/// `ShapeError` a raw tensor whose element count does not match the expected
/// anchor/attribute layout, `InvalidThreshold` a confidence or IoU threshold
/// outside `[0, 1]`, and `BackendError` a failure of an image-processing or
/// network-execution collaborator (produced by callers that wrap such a
/// collaborator, never by this library's own computations).
#[derive(Clone, Copy, Debug, PartialEq, Eq, Structural)]
pub enum DetectError {
    InvalidInput,
    ShapeError,
    InvalidThreshold,
    BackendError,
}

} // verus!
