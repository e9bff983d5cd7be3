//! Archiving shards to object storage, and reading them back.

pub mod clock;
pub mod config;
pub mod failover;
pub mod files;
pub mod pager;
pub mod request;
pub mod restoring;
pub mod runtime;
pub mod sign;
pub mod sink;
pub mod xml;

pub use clock::amz_timestamp;
pub use config::{S3Config, S3Error, S3Summary};
pub use failover::PageOverlay;
pub use pager::S3Pager;
pub use runtime::S3Runtime;
pub use sign::sign_v4;
pub use sink::S3Sink;
