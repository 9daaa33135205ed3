//! Core of a hand-drawn digit recognizer: converts an arbitrary-size RGBA
//! raster into a normalized 28x28 single-channel tensor and ranks the
//! probability vector coming back from a neural-network backend.
//!
//! Fractional quantities are carried in exact fixed-point form so that every
//! arithmetic step has a precise contract: gray intensities in thousandths of
//! the 0..=255 scale, normalized values as integer numerators over the fixed
//! denominator `255 * 3081`.

pub mod bounds;
pub mod classify;
pub mod error;
pub mod gray;
pub mod pipeline;
pub mod raster;
pub mod scale;
