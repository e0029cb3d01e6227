//! Running a processor over the batches of a partition.
pub mod copying;
pub mod laws;
pub mod lifecycle;
pub mod protocol;
