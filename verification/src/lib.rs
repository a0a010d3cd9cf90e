//! Batch conversion engine for camera image trees.
//!
//! The library holds the pure core of a batch converter: classifying input
//! files by extension, resolving collision-free output paths, deciding what
//! one job does under the configured policies, turning each job's outcome
//! into a statistics delta, and aggregating deltas so that the final totals
//! do not depend on the order in which workers finished.
//!
//! All file system access, the raw decoder, the image encoders and the
//! worker pool live outside the library; it only works on plain values that
//! describe what they saw or did.

pub mod job;
pub mod paths;
pub mod policy;
pub mod schedule;
pub mod statistics;
pub mod text;
