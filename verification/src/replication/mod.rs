//! Where captured WAL frames go.
//!
//! The writer hands its shard's committed transactions to a sink after every batch, so what is
//! held back is bounded by one batch. A sink that cannot keep up slows the writer, whose bounded
//! queue fills, and callers are told that it is busy.

pub mod ack;
pub mod bootstrap;
pub mod follower;
pub mod log;
pub mod pledges;
pub mod sinks;
pub mod stream;
pub mod words;

pub use sinks::{FrameSink, MemorySink, NullSink};
