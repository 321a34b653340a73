//! Scanning: which files are images, which need content hashes, the
//! content hashes themselves, and the analysis stage's bookkeeping.
pub mod analysis;
pub mod hash;
pub mod plan;
pub mod walker;
