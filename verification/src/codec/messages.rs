//! The messages that carry plan nodes.
use vstd::prelude::*;

verus! {

/// A node as a message: the schema in its stream encoding, the expressions framed, and
/// zero where a number of partitions is missing.
#[derive(Debug, Default)]
pub struct MapPartitionFields {
    pub so_path: String,
    pub fn_name: String,
    pub output_schema: Vec<u8>,
    pub hash_partition_exprs: Vec<u8>,
    pub hash_partition_count: u64,
    pub distribute_by_expr: Vec<u8>,
    pub num_partitions: u64,
}

/// A logical node as a message.
pub type LMapPartition = MapPartitionFields;

/// A physical node as a message.
pub type PMapPartition = MapPartitionFields;

/// What a message on a logical plan carries.
#[derive(Debug)]
pub enum LExtension {
    MapPartition(LMapPartition),
}

/// A message on a logical plan.
#[derive(Debug)]
pub struct LMessage {
    pub extension: Option<LExtension>,
}

/// What a message on a physical plan carries.
#[derive(Debug)]
pub enum PExtension {
    MapPartition(PMapPartition),
    /// A node that another codec encoded.
    Opaque(Vec<u8>),
}

/// A message on a physical plan.
#[derive(Debug)]
pub struct PMessage {
    pub extension: Option<PExtension>,
}

} // verus!
