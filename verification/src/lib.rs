//! shardlite: the rules of a sharded SQLite server.

pub mod calls;
pub mod error;
pub mod keyword;
pub mod lines;
pub mod net;
pub mod query;
pub mod replication;
pub mod s3;
pub mod shard;
pub mod storage;
pub mod text;
pub mod vfs;
pub mod wording;
