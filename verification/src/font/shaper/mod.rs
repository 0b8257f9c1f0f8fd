//! Text runs: segmentation and hashing.
pub mod hash;
pub mod run_content;
pub mod run_iter;
pub mod shaper;
