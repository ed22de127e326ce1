//! Post-processing for an object detector: sizing and laying out the input
//! picture, decoding the network's raw predictions into boxes, per-class
//! non-maximum suppression and gathering the surviving labels.
//!
//! No floating point is used: scores are integers on any fixed scale (the
//! same one as the confidence threshold), box coordinates are integers on a
//! fixed grid, and overlap thresholds are given in millionths.
pub mod aggregate;
pub mod bbox;
pub mod decode;
pub mod error;
pub mod pipeline;
pub mod preprocess;
pub mod suppress;
