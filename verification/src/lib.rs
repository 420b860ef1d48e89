//! Materialising a local, on-disk crate into a workspace directory.
//!
//! The library decides, entry by entry, what a recursive copy of a source
//! tree has to do, and proves what the resulting destination tree holds.
//! Reading directories and writing files is left to the caller.

pub mod error;
pub mod path;
pub mod copier;
pub mod tree;
pub mod laws;
pub mod local;
