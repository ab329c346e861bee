use vstd::prelude::*;

verus! {

/// Which dimension of a frame buffer was found invalid.
#[derive(Clone, Copy, Debug, PartialEq, Eq)]
pub enum FrameDim {
    /// The leading batch dimension of a batched buffer.
    Batch,
    /// The number of frames (time steps).
    Time,
    /// The width of one frame (its feature dimension).
    Hidden,
}

/// Which stacking parameter was found invalid.
#[derive(Clone, Copy, Debug, PartialEq, Eq)]
pub enum StackParam {
    /// `m`, the number of frames concatenated per output step.
    ContextWidth,
    /// `n`, the output stride (subsampling factor).
    Stride,
}

/// A local validation failure, detected before any computation begins.
/// A transform never produces partial output: it either returns a fresh
/// buffer or one of these errors.
#[derive(Clone, Copy, Debug, PartialEq, Eq)]
pub enum TransformError {
    /// A zero-sized or inconsistent buffer dimension.
    InvalidShape(FrameDim),
    /// A stacking parameter that must be at least one was zero.
    InvalidParameter(StackParam),
}

} // verus!
