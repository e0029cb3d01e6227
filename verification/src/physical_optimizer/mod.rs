//! Rules on physical plans.
pub mod enforce_distribute_by;
pub mod plan;
