//! Partition-wise processing for a distributed query engine: the plan nodes, their
//! wire form, the grouping of rows by key, the lifecycle of a processor library and
//! the metrics of a node, with their contracts.
pub mod batch;
pub mod codec;
pub mod dataframe;
pub mod error;
pub mod execution;
pub mod expr;
pub mod grouping;
pub mod keys;
pub mod logical;
pub mod mapping;
pub mod monitor;
pub mod order;
pub mod physical;
pub mod physical_optimizer;
pub mod planner;
pub mod schema;
pub mod sdk;
pub mod size;
pub mod text;
pub mod types;
