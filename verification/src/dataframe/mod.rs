//! Building nodes.
pub mod map_partition;
