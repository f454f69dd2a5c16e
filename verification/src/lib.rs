//! Discovery and age-based cleanup of build-artifact directories.
//!
//! The library works on a snapshot of a directory tree ([`fs_model::FsTree`]).
//! [`classifier`] decides whether a directory is the root of a recognized
//! project and which artifact subdirectory belongs to it, [`scanner`] walks a
//! snapshot in pre-order and collects the artifact directories while pruning
//! the walk at every recognized project root, and [`cleaner`] turns each
//! discovered directory's age into a cleanup action. Reading the live
//! filesystem into a snapshot, and carrying a cleanup plan out, are the
//! caller's side of the boundary.

pub mod classifier;
pub mod cleaner;
pub mod fs_model;
pub mod scanner;
