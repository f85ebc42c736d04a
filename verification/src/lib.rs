//! A k-nearest-neighbours classifier over labelled records with a fixed
//! number of integer features, together with the tools to evaluate it:
//! min-max normalisation, round-robin fold splitting and accuracy scoring.
//!
//! Feature values are fixed-point numbers. The integer `v` stands for the
//! quantity `v / UNIT`, so every computation is exact and every result is
//! pinned down by its contract.

pub mod record;
pub mod distance;
pub mod neighbors;
pub mod classifier;
pub mod scoring;
pub mod folds;
pub mod normalize;
pub mod evaluate;
pub mod random;
