//! Metrics, logs and processors of a node.
pub mod clock;
pub mod collector;
pub mod history;
pub mod labels;
pub mod laws;
pub mod log_collector;
pub mod metrics;
pub mod processor;
pub mod reading_laws;
pub mod registry;
pub mod server;
pub mod store;
pub mod text_map;
