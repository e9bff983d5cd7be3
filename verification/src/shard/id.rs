//! Shard numbers.

use vstd::prelude::*;

use crate::text::{decimal, push_decimal};

verus! {

/// The number of a shard.
#[derive(Clone, Copy, Debug, PartialEq, Eq, PartialOrd, Ord, Hash, Structural)]
pub struct ShardId(pub u32);

impl ShardId {
    /// The name of a shard, as it stands in messages, file names and object keys.
    pub open spec fn shown(self) -> Seq<char> {
        "shard_"@ + decimal(self.0 as nat)
    }

    /// The name of the shard.
    pub fn name(&self) -> (r: String)
        ensures
            r@ == self.shown(),
    {
        let mut out = "shard_".to_owned();
        push_decimal(&mut out, self.0 as u64);
        out
    }
}

} // verus!
