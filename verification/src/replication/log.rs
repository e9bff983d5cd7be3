//! Bounded retention of recent frames, so that a follower can catch up without a full bootstrap.
//!
//! Retention covers blips: a follower that missed a few seconds resumes from where it stopped. One
//! that falls further behind starts over from a snapshot. The budget is for all shards together and
//! is divided between them. Dropping the oldest frames keeps the bound, and every drop is counted.

use vstd::prelude::*;

use super::stream::{stream_model, Lsn, StreamTxn, StreamTxnModel};
use super::FrameSink;
use crate::error::Error;
use crate::shard::map::ShardMap;
use crate::shard::ShardId;
use crate::vfs::frames_size;

verus! {

/// Sizing for retention.
#[derive(Clone, Copy, Debug)]
pub struct FrameLogConfig {
    /// Total bytes of frames to retain, across all shards.
    pub total_bytes: usize,
    /// Shards the budget is divided between.
    pub shard_count: u32,
}

impl FrameLogConfig {
    /// Each shard's part of the budget, at least 64 KiB.
    pub open spec fn share(self) -> usize {
        let count: int = if self.shard_count == 0 {
            1
        } else {
            self.shard_count as int
        };
        let part = self.total_bytes as int / count;
        if part < 65536 {
            65536
        } else {
            part as usize
        }
    }

    /// 16 MiB in total.
    pub fn floor(shard_count: u32) -> (r: FrameLogConfig)
        ensures
            r.total_bytes == 16 * 1024 * 1024,
            r.shard_count == (if shard_count == 0 {
                1
            } else {
                shard_count
            }),
    {
        FrameLogConfig {
            total_bytes: 16 * 1024 * 1024,
            shard_count: if shard_count == 0 {
                1
            } else {
                shard_count
            },
        }
    }

    fn per_shard(&self) -> (r: usize)
        ensures
            r == self.share(),
    {
        let count: usize = if self.shard_count == 0 {
            1
        } else {
            self.shard_count as usize
        };
        let part: usize = self.total_bytes / count;
        proof {
            assert(part <= self.total_bytes) by (nonlinear_arith)
                requires
                    count >= 1,
                    part == self.total_bytes / count,
            ;
        }
        if part < 65536 {
            65536
        } else {
            part
        }
    }
}

#[derive(Clone, Copy, Debug, PartialEq, Eq, Structural)]
pub struct FrameLogStats {
    pub retained_txns: u64,
    /// Transactions dropped to stay inside the budget.
    pub evicted_txns: u64,
    pub served_txns: u64,
    /// Subscriptions that could not be served because history was gone.
    pub missed_requests: u64,
    pub bytes: usize,
}

/// What a subscription request can be answered with.
#[derive(Debug)]
pub enum Served {
    /// Frames from the requested position onward.
    Frames(Vec<StreamTxn>),
    /// The follower is level with the primary; nothing to send.
    UpToDate,
    /// The requested position is no longer retained.
    TooOld { lowest_retained: Lsn },
}

/// What a [`Served`] holds.
pub ghost enum ServedModel {
    Frames(Seq<StreamTxnModel>),
    UpToDate,
    TooOld { lowest_retained: Lsn },
}

impl View for Served {
    type V = ServedModel;

    open spec fn view(&self) -> ServedModel {
        match self {
            Served::Frames(txns) => ServedModel::Frames(stream_model(txns@)),
            Served::UpToDate => ServedModel::UpToDate,
            Served::TooOld { lowest_retained } => ServedModel::TooOld {
                lowest_retained: *lowest_retained,
            },
        }
    }
}

// ---- retention ---------------------------------------------------------------------------------

/// The bytes of one transaction's pages.
pub open spec fn txn_size(t: StreamTxnModel) -> nat {
    frames_size(t.txn.frames)
}

/// The bytes of a list of transactions.
pub open spec fn log_size(txns: Seq<StreamTxnModel>) -> nat
    decreases txns.len(),
{
    if txns.len() == 0 {
        0
    } else {
        log_size(txns.drop_last()) + txn_size(txns.last())
    }
}

/// What is kept of a list: the oldest go first, until the rest is within the budget or is a single
/// transaction.
pub open spec fn kept_within(txns: Seq<StreamTxnModel>, budget: usize) -> Seq<StreamTxnModel>
    decreases txns.len(),
{
    if log_size(txns) > budget && txns.len() > 1 {
        kept_within(txns.drop_first(), budget)
    } else {
        txns
    }
}

/// The transactions at or after a position.
pub open spec fn from_position(txns: Seq<StreamTxnModel>, from: Lsn) -> Seq<StreamTxnModel>
    decreases txns.len(),
{
    if txns.len() == 0 {
        Seq::empty()
    } else if txns.last().lsn >= from {
        from_position(txns.drop_last(), from).push(txns.last())
    } else {
        from_position(txns.drop_last(), from)
    }
}

/// The first `max` of a list.
pub open spec fn at_most(txns: Seq<StreamTxnModel>, max: usize) -> Seq<StreamTxnModel> {
    if max < txns.len() {
        txns.take(max as int)
    } else {
        txns
    }
}

/// How a subscription from a position is answered, from what is retained of the shard. A position
/// below the lowest retained one is too old: a batch from further on would leave a hole.
pub open spec fn answer(log: Option<Seq<StreamTxnModel>>, from: Lsn, max: usize) -> ServedModel {
    match log {
        None => if from <= 1 {
            ServedModel::UpToDate
        } else {
            ServedModel::TooOld { lowest_retained: 0 }
        },
        Some(txns) => if txns.len() == 0 || from > txns.last().lsn {
            ServedModel::UpToDate
        } else if from < txns[0].lsn {
            ServedModel::TooOld { lowest_retained: txns[0].lsn }
        } else {
            ServedModel::Frames(at_most(from_position(txns, from), max))
        },
    }
}

proof fn lemma_log_size_front(txns: Seq<StreamTxnModel>)
    requires
        txns.len() > 0,
    ensures
        log_size(txns) == txn_size(txns[0]) + log_size(txns.drop_first()),
    decreases txns.len(),
{
    if txns.len() == 1 {
        assert(txns.drop_last() =~= Seq::empty());
        assert(txns.drop_first() =~= Seq::empty());
    } else {
        lemma_log_size_front(txns.drop_last());
        assert(txns.drop_last().drop_first() =~= txns.drop_first().drop_last());
        assert(txns.drop_first().last() == txns.last());
    }
}

proof fn lemma_log_size_grows(txns: Seq<StreamTxnModel>, n: int)
    requires
        0 <= n <= txns.len(),
    ensures
        log_size(txns.take(n)) <= log_size(txns),
    decreases txns.len(),
{
    if n == txns.len() {
        assert(txns.take(n) =~= txns);
    } else {
        lemma_log_size_grows(txns.drop_last(), n);
        assert(txns.drop_last().take(n) =~= txns.take(n));
    }
}

proof fn lemma_log_size_adds(a: Seq<StreamTxnModel>, b: Seq<StreamTxnModel>)
    ensures
        log_size(a + b) == log_size(a) + log_size(b),
    decreases b.len(),
{
    if b.len() == 0 {
        assert(a + b =~= a);
    } else {
        lemma_log_size_adds(a, b.drop_last());
        assert((a + b).drop_last() =~= a + b.drop_last());
    }
}

/// The bytes of the logs of several shards.
pub open spec fn logs_size(logs: Map<u32, Seq<StreamTxnModel>>) -> nat
    decreases logs.dom().len(),
{
    if logs.dom().finite() && logs.dom().len() > 0 {
        let k = logs.dom().choose();
        log_size(logs[k]) + logs_size(logs.remove(k))
    } else {
        0
    }
}

/// The bytes of the logs of several shards are those of any one of them and those of the others.
pub proof fn law_logs_add_up(logs: Map<u32, Seq<StreamTxnModel>>, k: u32)
    requires
        logs.dom().finite(),
        logs.dom().contains(k),
    ensures
        logs_size(logs) == log_size(logs[k]) + logs_size(logs.remove(k)),
    decreases logs.dom().len(),
{
    let first = logs.dom().choose();
    if first != k {
        let rest = logs.remove(first);
        assert(rest.dom() =~= logs.dom().remove(first));
        law_logs_add_up(rest, k);
        let other = logs.remove(k);
        assert(other.dom() =~= logs.dom().remove(k));
        assert(other.dom().contains(first));
        law_logs_add_up(other, first);
        assert(rest.remove(k) =~= other.remove(first));
    }
}

#[derive(Debug)]
struct ShardLog {
    txns: Vec<StreamTxn>,
    bytes: usize,
}

impl ShardLog {
    closed spec fn model(self) -> Seq<StreamTxnModel> {
        stream_model(self.txns@)
    }

    closed spec fn wf(self) -> bool {
        self.bytes == log_size(self.model())
    }

    fn empty() -> (r: ShardLog)
        ensures
            r.wf(),
            r.model() == Seq::<StreamTxnModel>::empty(),
    {
        let r = ShardLog { txns: Vec::new(), bytes: 0 };
        assert(r.model() =~= Seq::empty());
        r
    }

    fn push_all(&mut self, mut txns: Vec<StreamTxn>)
        requires
            old(self).wf(),
            log_size(old(self).model()) + log_size(stream_model(txns@)) <= usize::MAX,
        ensures
            final(self).wf(),
            final(self).model() == old(self).model() + stream_model(txns@),
    {
        let ghost incoming = stream_model(txns@);
        let ghost had = self.model();
        let mut i: usize = 0;
        while i < txns.len()
            invariant
                i <= txns@.len(),
                incoming == stream_model(txns@),
                self.txns == old(self).txns,
                log_size(had) + log_size(incoming) <= usize::MAX,
                self.bytes == log_size(had) + log_size(incoming.take(i as int)),
            decreases txns@.len() - i,
        {
            proof {
                lemma_log_size_grows(incoming, i as int + 1);
                assert(incoming.take(i as int + 1).drop_last() =~= incoming.take(i as int));
                assert(incoming.take(i as int + 1).last() == txns@[i as int]@);
            }
            self.bytes = self.bytes + txns[i].txn.size();
            i = i + 1;
        }
        proof {
            assert(incoming.take(txns@.len() as int) =~= incoming);
            lemma_log_size_adds(had, incoming);
        }
        let ghost before = self.txns@;
        let ghost more = txns@;
        self.txns.append(&mut txns);
        assert(self.model() =~= had + incoming);
    }

    /// Drops the oldest transactions beyond the budget; says how many.
    fn evict(&mut self, budget: usize) -> (r: u64)
        requires
            old(self).wf(),
        ensures
            final(self).wf(),
            final(self).model() == kept_within(old(self).model(), budget),
            r == old(self).model().len() - final(self).model().len(),
    {
        let ghost all = self.model();
        let mut drop: usize = 0;
        let mut bytes: usize = self.bytes;
        assert(all.skip(0) =~= all);
        while bytes > budget && self.txns.len() - drop > 1
            invariant
                drop <= self.txns@.len(),
                all == stream_model(self.txns@),
                self.txns == old(self).txns,
                bytes == log_size(all.skip(drop as int)),
                kept_within(all, budget) == kept_within(all.skip(drop as int), budget),
            decreases self.txns@.len() - drop,
        {
            proof {
                let rest = all.skip(drop as int);
                lemma_log_size_front(rest);
                assert(rest[0] == self.txns@[drop as int]@);
                assert(rest.drop_first() =~= all.skip(drop as int + 1));
            }
            bytes = bytes - self.txns[drop].txn.size();
            drop = drop + 1;
        }
        let kept = self.txns.split_off(drop);
        self.txns = kept;
        self.bytes = bytes;
        assert(self.model() =~= all.skip(drop as int));
        drop as u64
    }
}

// ---- the log -----------------------------------------------------------------------------------

/// Retains recent frames per shard, within a total budget.
#[derive(Debug)]
pub struct FrameLog {
    per_shard_bytes: usize,
    shards: ShardMap<ShardLog>,
    retained: u64,
    evicted: u64,
    served: u64,
    missed: u64,
}

/// What a [`FrameLog`] holds.
pub ghost struct LogModel {
    pub budget: usize,
    pub shards: Map<u32, Seq<StreamTxnModel>>,
    pub retained: u64,
    pub evicted: u64,
    pub served: u64,
    pub missed: u64,
}

/// A counter, which wraps, `n` further.
pub open spec fn counted(counter: u64, n: nat) -> u64 {
    counter.wrapping_add(n as u64)
}

impl LogModel {
    /// What is retained of a shard.
    pub open spec fn of(self, shard: ShardId) -> Option<Seq<StreamTxnModel>> {
        if self.shards.dom().contains(shard.0) {
            Some(self.shards[shard.0])
        } else {
            None
        }
    }

    pub open spec fn txns_of(self, shard: ShardId) -> Seq<StreamTxnModel> {
        match self.of(shard) {
            Some(txns) => txns,
            None => Seq::empty(),
        }
    }

    /// The log after a batch for a shard.
    pub open spec fn accepted(self, shard: ShardId, batch: Seq<StreamTxnModel>) -> LogModel {
        let all = self.txns_of(shard) + batch;
        let kept = kept_within(all, self.budget);
        LogModel {
            shards: self.shards.insert(shard.0, kept),
            retained: counted(self.retained, batch.len()),
            evicted: counted(self.evicted, (all.len() - kept.len()) as nat),
            ..self
        }
    }

    /// The log after a request that got an answer: what was served and missed is counted.
    pub open spec fn answered(self, r: ServedModel) -> LogModel {
        match r {
            ServedModel::Frames(txns) => LogModel {
                served: counted(self.served, txns.len()),
                ..self
            },
            ServedModel::TooOld { .. } => LogModel {
                missed: counted(self.missed, 1),
                ..self
            },
            ServedModel::UpToDate => self,
        }
    }
}

impl View for FrameLog {
    type V = LogModel;

    closed spec fn view(&self) -> LogModel {
        LogModel {
            budget: self.per_shard_bytes,
            shards: Map::new(
                |k: u32| self.shards@.dom().contains(k),
                |k: u32| self.shards@[k].model(),
            ),
            retained: self.retained,
            evicted: self.evicted,
            served: self.served,
            missed: self.missed,
        }
    }
}

impl FrameLog {
    pub closed spec fn wf(&self) -> bool {
        self.shards.wf() && forall|k: u32|
            self.shards@.dom().contains(k) ==> (#[trigger] self.shards@[k]).wf()
    }

    pub fn new(cfg: FrameLogConfig) -> (r: FrameLog)
        ensures
            r.wf(),
            r@ == (LogModel {
                budget: cfg.share(),
                shards: Map::empty(),
                retained: 0,
                evicted: 0,
                served: 0,
                missed: 0,
            }),
    {
        let r = FrameLog {
            per_shard_bytes: cfg.per_shard(),
            shards: ShardMap::new(),
            retained: 0,
            evicted: 0,
            served: 0,
            missed: 0,
        };
        assert(r@.shards =~= Map::empty());
        r
    }

    /// The counters, and the bytes retained in all (the largest number there is, should they be
    /// more).
    pub fn stats(&self) -> (r: FrameLogStats)
        requires
            self.wf(),
        ensures
            r.retained_txns == self@.retained,
            r.evicted_txns == self@.evicted,
            r.served_txns == self@.served,
            r.missed_requests == self@.missed,
            r.bytes == (if logs_size(self@.shards) <= usize::MAX {
                logs_size(self@.shards) as usize
            } else {
                usize::MAX
            }),
    {
        let mut bytes: usize = 0;
        let mut i: usize = 0;
        let ghost list = self.shards.list();
        let ghost mut done: Map<u32, Seq<StreamTxnModel>> = Map::empty();
        assert(logs_size(done) == 0);
        while i < self.shards.len()
            invariant
                self.wf(),
                list == self.shards.list(),
                i <= list.len(),
                done.dom().finite(),
                forall|k: u32| #[trigger] done.dom().contains(k) <==> exists|n: int|
                    0 <= n < i && (#[trigger] list[n]).0 == k,
                forall|n: int| 0 <= n < i ==> done[(#[trigger] list[n]).0] == list[n].1.model(),
                bytes == (if logs_size(done) <= usize::MAX {
                    logs_size(done) as usize
                } else {
                    usize::MAX
                }),
            decreases list.len() - i,
        {
            let log = self.shards.value_at(i);
            proof {
                self.shards.lemma_listed(i as int);
                let k = list[i as int].0;
                if done.dom().contains(k) {
                    let n = choose|n: int| 0 <= n < i && (#[trigger] list[n]).0 == k;
                    assert(list[n].0 < list[i as int].0);
                }
                let more = done.insert(k, log.model());
                assert(more.remove(k) =~= done);
                law_logs_add_up(more, k);
                assert forall|q: u32| #[trigger] more.dom().contains(q) <==> exists|n: int|
                    0 <= n < i + 1 && (#[trigger] list[n]).0 == q by {
                    if done.dom().contains(q) {
                        let n = choose|n: int| 0 <= n < i && (#[trigger] list[n]).0 == q;
                        assert(0 <= n < i + 1 && list[n].0 == q);
                    }
                    if q == k {
                        assert(list[i as int].0 == q);
                    }
                    if exists|n: int| 0 <= n < i + 1 && (#[trigger] list[n]).0 == q {
                        let n = choose|n: int| 0 <= n < i + 1 && (#[trigger] list[n]).0 == q;
                        if n < i {
                            assert(done.dom().contains(q));
                        }
                    }
                }
                assert forall|n: int| 0 <= n < i + 1 implies more[(#[trigger] list[n]).0]
                    == list[n].1.model() by {
                    if n < i {
                        assert(list[n].0 < list[i as int].0);
                    }
                }
                done = more;
            }
            bytes = bytes.saturating_add(log.bytes);
            i = i + 1;
        }
        proof {
            assert forall|k: u32| done.dom().contains(k) <==> #[trigger] self@.shards.dom().contains(
                k,
            ) by {
                if done.dom().contains(k) {
                    let n = choose|n: int| 0 <= n < i && (#[trigger] list[n]).0 == k;
                    self.shards.lemma_listed(n);
                }
                if self@.shards.dom().contains(k) {
                    self.shards.lemma_all_listed(k);
                    let n = choose|n: int| 0 <= n < list.len() && (#[trigger] list[n]).0 == k;
                    assert(0 <= n < i && list[n].0 == k);
                }
            }
            assert forall|k: u32| done.dom().contains(k) implies done[k] == #[trigger] self@.shards[k] by {
                let n = choose|n: int| 0 <= n < i && (#[trigger] list[n]).0 == k;
                self.shards.lemma_listed(n);
            }
            assert(done =~= self@.shards);
        }
        FrameLogStats {
            retained_txns: self.retained,
            evicted_txns: self.evicted,
            served_txns: self.served,
            missed_requests: self.missed,
            bytes,
        }
    }

    /// Lowest position still retained for `shard`, if any.
    pub fn lowest_retained(&self, shard: ShardId) -> (r: Option<Lsn>)
        requires
            self.wf(),
        ensures
            r == (if self@.txns_of(shard).len() > 0 {
                Some(self@.txns_of(shard)[0].lsn)
            } else {
                None
            }),
    {
        match self.shards.get(shard.0) {
            None => None,
            Some(log) => {
                assert(log.model().len() == log.txns@.len());
                if log.txns.len() > 0 {
                    assert(log.model()[0] == log.txns@[0]@);
                    Some(log.txns[0].lsn)
                } else {
                    None
                }
            },
        }
    }

    /// Highest position retained for `shard`, if any.
    pub fn highest_retained(&self, shard: ShardId) -> (r: Option<Lsn>)
        requires
            self.wf(),
        ensures
            r == (if self@.txns_of(shard).len() > 0 {
                Some(self@.txns_of(shard).last().lsn)
            } else {
                None
            }),
    {
        match self.shards.get(shard.0) {
            None => None,
            Some(log) => {
                assert(log.model().len() == log.txns@.len());
                let n: usize = log.txns.len();
                if n > 0 {
                    assert(log.model()[n - 1] == log.txns@[n - 1]@);
                    Some(log.txns[n - 1].lsn)
                } else {
                    None
                }
            },
        }
    }

    /// Answer a subscription starting at `from_lsn`, with up to `max_txns` transactions.
    pub fn serve(&mut self, shard: ShardId, from_lsn: Lsn, max_txns: usize) -> (r: Served)
        requires
            old(self).wf(),
        ensures
            final(self).wf(),
            r@ == answer(old(self)@.of(shard), from_lsn, max_txns),
            final(self)@ == old(self)@.answered(r@),
    {
        let ghost before = self@;
        let r = match self.shards.get(shard.0) {
            None => if from_lsn <= 1 {
                Served::UpToDate
            } else {
                Served::TooOld { lowest_retained: 0 }
            },
            Some(log) => log.answer_from(from_lsn, max_txns),
        };
        match &r {
            Served::Frames(txns) => {
                assert(stream_model(txns@).len() == txns@.len());
                self.served = self.served.wrapping_add(txns.len() as u64);
            },
            Served::TooOld { .. } => {
                self.missed = self.missed.wrapping_add(1);
            },
            Served::UpToDate => {},
        }
        assert(self@.shards =~= before.shards);
        r
    }
}

impl ShardLog {
    fn answer_from(&self, from: Lsn, max: usize) -> (r: Served)
        ensures
            r@ == answer(Some(self.model()), from, max),
    {
        let ghost model = self.model();
        let n: usize = self.txns.len();
        assert(model.len() == n);
        if n == 0 {
            return Served::UpToDate;
        }
        assert(model[0] == self.txns@[0]@);
        assert(model[n - 1] == self.txns@[n - 1]@);
        if from > self.txns[n - 1].lsn {
            return Served::UpToDate;
        }
        if from < self.txns[0].lsn {
            return Served::TooOld { lowest_retained: self.txns[0].lsn };
        }
        let mut out: Vec<StreamTxn> = Vec::new();
        let mut i: usize = 0;
        assert(stream_model(out@) =~= Seq::empty());
        assert(at_most(from_position(model.take(0), from), max) =~= Seq::empty());
        while i < n
            invariant
                i <= n,
                n == self.txns@.len(),
                model == stream_model(self.txns@),
                stream_model(out@) == at_most(from_position(model.take(i as int), from), max),
            decreases n - i,
        {
            proof {
                assert(model.take(i as int + 1).drop_last() =~= model.take(i as int));
                assert(model.take(i as int + 1).last() == self.txns@[i as int]@);
                assert(stream_model(out@).len() == out@.len());
            }
            let ghost sofar = from_position(model.take(i as int), from);
            if self.txns[i].lsn >= from && out.len() < max {
                let ghost before = out@;
                out.push(self.txns[i].copy());
                proof {
                    assert(stream_model(out@) =~= stream_model(before).push(self.txns@[i as int]@));
                    assert(at_most(sofar, max) =~= sofar);
                    assert(at_most(sofar.push(self.txns@[i as int]@), max) =~= sofar.push(
                        self.txns@[i as int]@,
                    ));
                }
            } else {
                proof {
                    if self.txns@[i as int].lsn >= from {
                        assert(sofar.len() >= max);
                        assert(at_most(sofar.push(self.txns@[i as int]@), max) =~= at_most(
                            sofar,
                            max,
                        ));
                    }
                }
            }
            i = i + 1;
        }
        assert(model.take(n as int) =~= model);
        Served::Frames(out)
    }
}

impl FrameSink for FrameLog {
    /// A batch is accepted while a shard's frames can be counted in a machine word.
    open spec fn accepts(&self, shard: ShardId, batch: Seq<StreamTxnModel>) -> bool {
        self.wf() && log_size(self@.txns_of(shard)) + log_size(batch) <= usize::MAX
    }

    /// Retains a batch, and drops the oldest transactions of the shard beyond its budget.
    fn accept(&mut self, shard: ShardId, epoch: u64, txns: Vec<StreamTxn>) -> (r: Result<(), Error>)
        ensures
            final(self).wf(),
            r is Ok,
            final(self)@ == old(self)@.accepted(shard, stream_model(txns@)),
    {
        let ghost before = self@;
        let ghost batch = stream_model(txns@);
        let count: usize = txns.len();
        let mut log = match self.shards.remove(shard.0) {
            Some(log) => log,
            None => ShardLog::empty(),
        };
        assert(log.model() == before.txns_of(shard));
        log.push_all(txns);
        let ghost all = log.model();
        let evicted: u64 = log.evict(self.per_shard_bytes);
        let ghost kept = log.model();
        self.shards.insert(shard.0, log);
        self.retained = self.retained.wrapping_add(count as u64);
        self.evicted = self.evicted.wrapping_add(evicted);
        proof {
            assert(batch.len() == count);
            assert(self@.shards =~= before.shards.insert(shard.0, kept));
        }
        Ok(())
    }
}

// ---- laws --------------------------------------------------------------------------------------

/// What is kept is the newest part of the log.
pub proof fn law_retention_keeps_the_newest(txns: Seq<StreamTxnModel>, budget: usize)
    ensures
        kept_within(txns, budget) == txns.skip(txns.len() - kept_within(txns, budget).len()),
        kept_within(txns, budget).len() <= txns.len(),
        txns.len() > 0 ==> kept_within(txns, budget).len() > 0,
    decreases txns.len(),
{
    if log_size(txns) > budget && txns.len() > 1 {
        law_retention_keeps_the_newest(txns.drop_first(), budget);
        let kept = kept_within(txns, budget);
        assert(txns.drop_first().skip(txns.drop_first().len() - kept.len()) =~= txns.skip(
            txns.len() - kept.len(),
        ));
    } else {
        assert(txns.skip(0) =~= txns);
    }
}

/// Retention stays inside its budget, but for a single transaction that is larger than all of it.
pub proof fn law_retention_within_budget(txns: Seq<StreamTxnModel>, budget: usize)
    ensures
        log_size(kept_within(txns, budget)) <= budget || kept_within(txns, budget).len() == 1,
    decreases txns.len(),
{
    if log_size(txns) > budget && txns.len() > 1 {
        law_retention_within_budget(txns.drop_first(), budget);
    } else if txns.len() == 0 {
        assert(log_size(txns) == 0);
    }
}

/// Whether LSNs are dense: each is one more than the one before.
pub open spec fn dense(txns: Seq<StreamTxnModel>) -> bool {
    forall|i: int| 0 <= i < txns.len() ==> (#[trigger] txns[i]).lsn == txns[0].lsn + i
}

/// A dense log stays dense under retention.
pub proof fn law_retention_keeps_density(txns: Seq<StreamTxnModel>, budget: usize)
    requires
        dense(txns),
    ensures
        dense(kept_within(txns, budget)),
{
    law_retention_keeps_the_newest(txns, budget);
    let kept = kept_within(txns, budget);
    let gone = txns.len() - kept.len();
    assert forall|i: int| 0 <= i < kept.len() implies (#[trigger] kept[i]).lsn == kept[0].lsn
        + i by {
        assert(kept[i] == txns[gone + i]);
        assert(kept[0] == txns[gone]);
    }
}

proof fn lemma_from_position_of_dense(txns: Seq<StreamTxnModel>, from: Lsn)
    requires
        dense(txns),
        txns.len() > 0,
        txns[0].lsn <= from <= txns[0].lsn + txns.len(),
    ensures
        from_position(txns, from) == txns.skip(from - txns[0].lsn),
    decreases txns.len(),
{
    let at = from - txns[0].lsn;
    let rest = txns.drop_last();
    assert(txns[txns.len() - 1].lsn == txns[0].lsn + txns.len() - 1);
    if txns.last().lsn >= from {
        if rest.len() > 0 {
            assert forall|i: int| 0 <= i < rest.len() implies (#[trigger] rest[i]).lsn
                == rest[0].lsn + i by {
                assert(rest[i] == txns[i]);
                assert(rest[0] == txns[0]);
            }
            lemma_from_position_of_dense(rest, from);
            assert(rest.skip(at).push(txns.last()) =~= txns.skip(at));
        } else {
            assert(from_position(rest, from) =~= Seq::empty());
            assert(from_position(txns, from) =~= txns.skip(at));
        }
    } else {
        assert(at == txns.len());
        lemma_none_from(txns, from);
        assert(txns.skip(at) =~= Seq::empty());
    }
}

proof fn lemma_none_from(txns: Seq<StreamTxnModel>, from: Lsn)
    requires
        forall|i: int| 0 <= i < txns.len() ==> (#[trigger] txns[i]).lsn < from,
    ensures
        from_position(txns, from) =~= Seq::<StreamTxnModel>::empty(),
    decreases txns.len(),
{
    if txns.len() > 0 {
        assert(txns[txns.len() - 1].lsn < from);
        let rest = txns.drop_last();
        assert forall|i: int| 0 <= i < rest.len() implies (#[trigger] rest[i]).lsn < from by {
            assert(rest[i] == txns[i]);
        }
        lemma_none_from(rest, from);
    }
}

/// A subscription is never answered across a gap: from a dense log, the frames served start at the
/// very position that was asked for and follow each other without a hole, as many as there are up
/// to the maximum. History that is gone is reported as too old instead.
pub proof fn law_served_frames_have_no_gap(txns: Seq<StreamTxnModel>, from: Lsn, max: usize)
    requires
        dense(txns),
        max > 0,
    ensures
        match answer(Some(txns), from, max) {
            ServedModel::Frames(f) => f.len() > 0 && f[0].lsn == from && dense(f)
                && txns[0].lsn <= from && (f.len() == max || f.last() == txns.last()),
            ServedModel::TooOld { lowest_retained } => from < lowest_retained && txns.len() > 0
                && lowest_retained == txns[0].lsn,
            ServedModel::UpToDate => txns.len() == 0 || from > txns.last().lsn,
        },
{
    if txns.len() > 0 && txns[0].lsn <= from <= txns.last().lsn {
        assert(txns[txns.len() - 1].lsn == txns[0].lsn + txns.len() - 1);
        lemma_from_position_of_dense(txns, from);
        let at = from - txns[0].lsn;
        let all = txns.skip(at);
        let f = at_most(all, max);
        assert(all[0] == txns[at]);
        assert(txns[at].lsn == txns[0].lsn + at);
        assert forall|i: int| 0 <= i < f.len() implies (#[trigger] f[i]).lsn == f[0].lsn + i by {
            assert(f[i] == txns[at + i]);
            assert(f[0] == txns[at]);
        }
        if f.len() != max {
            assert(f.last() == txns[txns.len() - 1]);
        }
    }
}

} // verus!
