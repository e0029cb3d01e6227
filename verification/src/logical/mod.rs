//! The logical plan node.
pub mod laws;
pub mod map_partition;
