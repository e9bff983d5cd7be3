//! Destinations for committed frames.

use vstd::prelude::*;

use super::stream::{stream_model, StreamTxn, StreamTxnModel};
use crate::error::Error;
use crate::shard::map::ShardMap;
use crate::shard::ShardId;
use crate::vfs::frames_size;

verus! {

/// A destination for committed frames.
///
/// It is called on the writer thread between transactions, so it must be cheap.
pub trait FrameSink {
    /// Whether a batch for a shard can be handed over.
    spec fn accepts(&self, shard: ShardId, batch: Seq<StreamTxnModel>) -> bool;

    /// Accept committed transactions for one shard, in commit order. An error means that the sink
    /// is unhealthy: the database has committed data that the sink never received.
    fn accept(&mut self, shard: ShardId, epoch: u64, txns: Vec<StreamTxn>) -> (r: Result<(), Error>)
        requires
            old(self).accepts(shard, stream_model(txns@)),
    ;
}

// ---- counting ----------------------------------------------------------------------------------

/// A count as a 64-bit counter shows it.
pub open spec fn wrapped(n: nat) -> u64 {
    (n % 0x1_0000_0000_0000_0000) as u64
}

/// The frames of a list of transactions.
pub open spec fn frame_count(txns: Seq<StreamTxnModel>) -> nat
    decreases txns.len(),
{
    if txns.len() == 0 {
        0
    } else {
        frame_count(txns.drop_last()) + txns.last().txn.frames.len()
    }
}

/// The bytes of a list of transactions.
pub open spec fn byte_count(txns: Seq<StreamTxnModel>) -> nat
    decreases txns.len(),
{
    if txns.len() == 0 {
        0
    } else {
        byte_count(txns.drop_last()) + frames_size(txns.last().txn.frames)
    }
}

fn add_wrapping(counter: u64, n: u64, Ghost(total): Ghost<nat>) -> (r: u64)
    requires
        counter == wrapped(total),
    ensures
        r == wrapped(total + n as nat),
{
    proof {
        let m = 0x1_0000_0000_0000_0000int;
        let t = total as int;
        let q = t / m;
        vstd::arithmetic::div_mod::lemma_fundamental_div_mod(t, m);
        let sum = t % m + n;
        if sum >= m {
            assert(t + n == (q + 1) * m + (sum - m)) by (nonlinear_arith)
                requires
                    t == m * q + t % m,
                    sum == t % m + n,
            ;
            vstd::arithmetic::div_mod::lemma_fundamental_div_mod_converse(
                t + n,
                m,
                q + 1,
                sum - m,
            );
        } else {
            assert(t + n == q * m + sum) by (nonlinear_arith)
                requires
                    t == m * q + t % m,
                    sum == t % m + n,
            ;
            vstd::arithmetic::div_mod::lemma_fundamental_div_mod_converse(t + n, m, q, sum);
        }
    }
    counter.wrapping_add(n)
}

/// Discards everything, counting as it goes: for a deployment that measures the cost of capture.
pub struct NullSink {
    txns: u64,
    frames: u64,
    bytes: u64,
    seen: Ghost<Seq<StreamTxnModel>>,
}

impl NullSink {
    /// Everything that was handed to the sink.
    pub closed spec fn seen(&self) -> Seq<StreamTxnModel> {
        self.seen@
    }

    /// Whether the counters show what was handed over.
    pub closed spec fn wf(&self) -> bool {
        &&& self.txns == wrapped(self.seen@.len())
        &&& self.frames == wrapped(frame_count(self.seen@))
        &&& self.bytes == wrapped(byte_count(self.seen@))
    }

    pub fn new() -> (r: NullSink)
        ensures
            r.wf(),
            r.seen() == Seq::<StreamTxnModel>::empty(),
    {
        NullSink { txns: 0, frames: 0, bytes: 0, seen: Ghost(Seq::empty()) }
    }

    /// Transactions, frames and bytes seen so far, as 64-bit counters.
    pub fn counts(&self) -> (r: (u64, u64, u64))
        requires
            self.wf(),
        ensures
            r.0 == wrapped(self.seen().len()),
            r.1 == wrapped(frame_count(self.seen())),
            r.2 == wrapped(byte_count(self.seen())),
    {
        (self.txns, self.frames, self.bytes)
    }

    fn count(&mut self, t: &StreamTxn)
        requires
            old(self).wf(),
        ensures
            final(self).wf(),
            final(self).seen() == old(self).seen().push(t@),
    {
        let ghost before = self.seen@;
        let ghost after = before.push(t@);
        assert(after.drop_last() =~= before);
        self.txns = add_wrapping(self.txns, 1, Ghost(before.len()));
        assert(t.txn@.frames.len() == t.txn.frames@.len());
        self.frames =
        add_wrapping(self.frames, t.txn.frames.len() as u64, Ghost(frame_count(before)));
        let ghost model = t.txn@.frames;
        let ghost base = byte_count(before);
        let mut i: usize = 0;
        while i < t.txn.frames.len()
            invariant
                i <= t.txn.frames@.len(),
                model == crate::vfs::frames_model(t.txn.frames@),
                self.seen@ == before,
                self.txns == wrapped(after.len()),
                self.frames == wrapped(frame_count(after)),
                self.bytes == wrapped(base + frames_size(model.take(i as int))),
            decreases t.txn.frames@.len() - i,
        {
            proof {
                assert(model.take(i as int + 1).drop_last() =~= model.take(i as int));
                assert(model.take(i as int + 1).last() == t.txn.frames@[i as int]@);
            }
            self.bytes =
            add_wrapping(
                self.bytes,
                t.txn.frames[i].data.len() as u64,
                Ghost(base + frames_size(model.take(i as int))),
            );
            i = i + 1;
        }
        assert(model.take(t.txn.frames@.len() as int) =~= model);
        self.seen = Ghost(after);
    }
}

impl FrameSink for NullSink {
    open spec fn accepts(&self, shard: ShardId, batch: Seq<StreamTxnModel>) -> bool {
        self.wf()
    }

    fn accept(&mut self, shard: ShardId, epoch: u64, txns: Vec<StreamTxn>) -> (r: Result<(), Error>)
        ensures
            final(self).wf(),
            r is Ok,
            final(self).seen() == old(self).seen() + stream_model(txns@),
    {
        let ghost batch = stream_model(txns@);
        let ghost had = self.seen();
        let mut i: usize = 0;
        assert(had + batch.take(0) =~= had);
        while i < txns.len()
            invariant
                i <= txns@.len(),
                batch == stream_model(txns@),
                self.wf(),
                self.seen() == had + batch.take(i as int),
            decreases txns@.len() - i,
        {
            self.count(&txns[i]);
            assert(had + batch.take(i as int + 1) =~= (had + batch.take(i as int)).push(
                batch[i as int],
            ));
            i = i + 1;
        }
        assert(batch.take(txns@.len() as int) =~= batch);
        Ok(())
    }
}

// ---- keeping -----------------------------------------------------------------------------------

/// Retains everything, per shard; it grows without bound.
#[derive(Debug)]
pub struct MemorySink {
    inner: ShardMap<Vec<StreamTxn>>,
}

impl View for MemorySink {
    type V = Map<u32, Seq<StreamTxnModel>>;

    closed spec fn view(&self) -> Map<u32, Seq<StreamTxnModel>> {
        Map::new(
            |k: u32| self.inner@.dom().contains(k),
            |k: u32| stream_model(self.inner@[k]@),
        )
    }
}

/// What a sink holds of a shard.
pub open spec fn held(m: Map<u32, Seq<StreamTxnModel>>, shard: ShardId) -> Seq<StreamTxnModel> {
    if m.dom().contains(shard.0) {
        m[shard.0]
    } else {
        Seq::empty()
    }
}

impl MemorySink {
    pub closed spec fn wf(&self) -> bool {
        self.inner.wf()
    }

    pub fn new() -> (r: MemorySink)
        ensures
            r.wf(),
            r@ == Map::<u32, Seq<StreamTxnModel>>::empty(),
    {
        let r = MemorySink { inner: ShardMap::new() };
        assert(r@ =~= Map::empty());
        r
    }

    /// Takes out what is held of a shard.
    pub fn take(&mut self, shard: ShardId) -> (r: Vec<StreamTxn>)
        requires
            old(self).wf(),
        ensures
            final(self).wf(),
            stream_model(r@) == held(old(self)@, shard),
            final(self)@ == old(self)@.remove(shard.0),
    {
        let ghost before = self@;
        let r = match self.inner.remove(shard.0) {
            Some(txns) => txns,
            None => {
                let none: Vec<StreamTxn> = Vec::new();
                assert(stream_model(none@) =~= Seq::empty());
                none
            },
        };
        assert(self@ =~= before.remove(shard.0));
        r
    }

    pub fn txn_count(&self, shard: ShardId) -> (r: usize)
        requires
            self.wf(),
        ensures
            r == held(self@, shard).len(),
    {
        match self.inner.get(shard.0) {
            Some(txns) => txns.len(),
            None => 0,
        }
    }

    /// The shards of which something is held, in ascending order.
    pub fn shards(&self) -> (r: Vec<ShardId>)
        requires
            self.wf(),
        ensures
            forall|i: int| 0 <= i < r@.len() ==> self@.dom().contains((#[trigger] r@[i]).0),
            forall|k: u32| #[trigger] self@.dom().contains(k) ==> exists|i: int|
                0 <= i < r@.len() && (#[trigger] r@[i]).0 == k,
            forall|i: int, j: int|
                0 <= i < j < r@.len() ==> (#[trigger] r@[i]).0 < (#[trigger] r@[j]).0,
    {
        let ghost list = self.inner.list();
        let mut out: Vec<ShardId> = Vec::new();
        let mut i: usize = 0;
        while i < self.inner.len()
            invariant
                self.wf(),
                list == self.inner.list(),
                i <= list.len(),
                out@.len() == i,
                forall|k: int| 0 <= k < i ==> (#[trigger] out@[k]).0 == list[k].0,
            decreases list.len() - i,
        {
            out.push(ShardId(self.inner.key_at(i)));
            i = i + 1;
        }
        proof {
            assert forall|i: int| 0 <= i < out@.len() implies self@.dom().contains(
                (#[trigger] out@[i]).0,
            ) by {
                self.inner.lemma_listed(i);
            }
            assert forall|k: u32| #[trigger] self@.dom().contains(k) implies exists|i: int|
                0 <= i < out@.len() && (#[trigger] out@[i]).0 == k by {
                self.inner.lemma_all_listed(k);
                let i = choose|i: int| 0 <= i < list.len() && (#[trigger] list[i]).0 == k;
                assert(out@[i].0 == k);
            }
        }
        out
    }
}

impl FrameSink for MemorySink {
    open spec fn accepts(&self, shard: ShardId, batch: Seq<StreamTxnModel>) -> bool {
        self.wf()
    }

    fn accept(&mut self, shard: ShardId, epoch: u64, txns: Vec<StreamTxn>) -> (r: Result<(), Error>)
        ensures
            final(self).wf(),
            r is Ok,
            final(self)@ == old(self)@.insert(
                shard.0,
                held(old(self)@, shard) + stream_model(txns@),
            ),
    {
        let ghost before = self@;
        let ghost batch = stream_model(txns@);
        let mut more = txns;
        let mut all = match self.inner.remove(shard.0) {
            Some(txns) => txns,
            None => Vec::new(),
        };
        assert(stream_model(all@) =~= held(before, shard));
        let ghost had = all@;
        let ghost new = more@;
        all.append(&mut more);
        assert(stream_model(all@) =~= stream_model(had) + stream_model(new));
        let ghost joined = stream_model(all@);
        self.inner.insert(shard.0, all);
        assert(self@ =~= before.insert(shard.0, joined));
        Ok(())
    }
}

} // verus!
