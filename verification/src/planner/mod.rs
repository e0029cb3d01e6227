//! From logical to physical nodes.
pub mod extension_planner;
