//! Near-duplicate, burst and gap clustering.
pub mod banding;
pub mod burst;
pub mod candidates;
pub mod components;
pub mod union_find;
pub mod near;
pub mod gap;
