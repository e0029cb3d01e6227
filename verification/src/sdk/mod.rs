//! What a processor library is made of.
pub mod ipc;
pub mod processor;
