use vstd::prelude::*;

verus! {

/// Everything that can go wrong between a canvas snapshot and a ranked
/// classification. All four kinds are surfaced to the caller; none is
/// recovered or retried internally.
#[derive(Clone, Copy, Debug, PartialEq, Eq, Structural)]
pub enum PipelineError {
    /// The raster's pixel buffer length does not match width * height * 4.
    ShapeMismatch,
    /// The raster holds no ink pixel (every alpha channel is zero), so there
    /// is nothing to classify.
    EmptyInput,
    /// The selected backend cannot complete a forward pass.
    BackendUnavailable,
    /// The forward pass returned a malformed probability vector.
    NumericAnomaly,
}

} // verus!
