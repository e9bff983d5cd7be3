//! Shards, and what the database declares about its tables.

pub mod classes;
pub mod id;
pub mod map;
pub mod mode;

pub use id::ShardId;
