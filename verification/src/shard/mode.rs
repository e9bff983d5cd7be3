//! What a node is for a shard.

use vstd::prelude::*;

verus! {

/// Whether a node writes a shard or copies it.
#[derive(Clone, Copy, Debug, PartialEq, Eq, Structural)]
pub enum ShardMode {
    /// This node writes the shard, so it holds every acknowledged write.
    Led,
    /// This node does not write the shard; it may hold a copy of it.
    Followed,
}

} // verus!
