//! Per-frame feature preprocessing: context stacking (low-frame-rate
//! windowing) over sequences of feature vectors, and the row-wise scaffolding
//! of a per-frame energy statistic.
//!
//! A frame sequence is a vector of rows, every row of one fixed width. The
//! element type is generic: the transforms only regroup and copy elements,
//! so the numeric type never enters the stacking logic itself.

pub mod energy;
pub mod errors;
pub mod stack;
