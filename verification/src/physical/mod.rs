//! The physical plan node.
pub mod laws;
pub mod map_partition_exec;
