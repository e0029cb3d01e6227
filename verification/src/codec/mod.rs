//! The wire form of plan nodes.
pub mod extension;
pub mod framing;
pub mod laws;
pub mod messages;
pub mod round_trip;
