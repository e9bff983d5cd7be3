//! Values, statements and results as they pass between shards and the coordinator.

pub mod exec;
pub mod doubles;
