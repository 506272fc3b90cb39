//! Error kinds of the synthesis engine.

use vstd::prelude::*;

verus! {

/// What can go wrong during synthesis.
///
/// `NoMatchingSample` and `SampleAcquisitionFailed` are pixel-local and
/// non-fatal: the affected pixels are left unfilled and synthesis continues.
/// `InvalidImageDimensions` is fatal and aborts a run before any fill
/// begins.
#[derive(Clone, Copy, PartialEq, Eq, Structural, Debug)]
pub enum SynthError {
    /// The anchor set is empty, so no sample can be matched.
    NoMatchingSample,
    /// Acquisition of a sample tile failed; the anchor is unusable for the
    /// rest of the session.
    SampleAcquisitionFailed,
    /// A zero-area image where a positive-area one is needed.
    InvalidImageDimensions,
}

} // verus!
