//! Per-image analysis: EXIF facts and perceptual-hash arithmetic.
pub mod dhash;
pub mod exif;
pub mod phash;
