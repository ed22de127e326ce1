//! Failures of the detection pipeline.
use vstd::prelude::*;

verus! {

#[derive(Clone, Copy, Debug, PartialEq, Eq, Structural)]
pub enum DetectError {
    /// The picture could not be decoded, or has no pixels.
    InvalidImage,
    /// The network failed, or gave predictions of an unexpected shape.
    DetectorError,
    /// The network's weights could not be loaded.
    ModelLoadError,
    /// A box names a class that the label table does not have.
    InvalidClassIndex,
    /// The upload holds no picture.
    MissingField,
}

} // verus!
