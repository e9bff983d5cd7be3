//! A follower that pulls from a primary over the network.
//!
//! The follower asks for the position it needs, so its own position is the single truth about its
//! progress, and a missed round trip costs nothing but a retry. Retention is bounded: a follower
//! too far behind is told to bootstrap, takes a snapshot and resumes from it.

use vstd::prelude::*;

use super::client::{answer_view, Client, sent_one, unit_view};
use super::protocol::{Request, RequestModel, Response, ResponseModel};
use super::server::{kind, response_kind};
use crate::calls::{goes_on, lemma_added, since, Line};
use crate::error::{Error, ErrorModel};
use crate::replication::bootstrap::{meta_text, SnapshotId, SnapshotTransfer};
use crate::replication::follower::{Follower, Position, position_in};
use crate::replication::stream::{stream_model, StreamTxn};
use crate::shard::id::ShardId;
use crate::text::{decimal, push_decimal};

verus! {

#[derive(Debug)]
pub struct ReplicaConfig {
    pub primary_addr: String,
    /// Shards to follow.
    pub shards: Vec<ShardId>,
    /// How long to wait when there is nothing new, before asking again.
    pub poll_interval_ms: u64,
    /// Transactions per subscription response.
    pub batch: u32,
    /// Bytes per snapshot chunk.
    pub snapshot_chunk: usize,
    /// Where partial snapshot transfers are staged.
    pub staging_dir: String,
}

#[derive(Clone, Copy, Debug, PartialEq, Eq, Structural)]
pub struct ReplicaStats {
    pub applied_txns: u64,
    /// Bootstraps performed. Repeated ones mean that retention is too small for the write rate.
    pub bootstraps: u64,
    pub polls: u64,
    pub up_to_date: u64,
    pub errors: u64,
}

/// Follows a primary.
#[derive(Debug)]
pub struct Replica {
    cfg: ReplicaConfig,
    follower: Follower,
    counters: ReplicaStats,
    stopped: bool,
}

/// What a follower does next about a shard.
#[derive(Debug)]
pub enum Turn {
    /// It was told to stop.
    Stop,
    /// It asks the primary this.
    Ask(Request),
}

/// What the primary's answer asks of a follower.
#[derive(Debug)]
pub enum Heard {
    /// Nothing; the shard is caught up for now.
    Level,
    /// These transactions of this generation are to be applied.
    Apply { epoch: u64, txns: Vec<StreamTxn> },
    /// A snapshot is to be taken.
    Bootstrap,
    /// It makes no sense here.
    Failed(Error),
}

/// The request of a follower at a position. It claims its own generation, never the primary's, so
/// that the primary can tell a copy of an older one.
pub open spec fn subscribe_from(shard: ShardId, pos: Position, batch: u32) -> RequestModel {
    RequestModel::Subscribe {
        node: 0,
        shard: shard.0,
        epoch: pos.epoch,
        from_lsn: pos.applied_lsn.wrapping_add(1),
        max_txns: batch,
    }
}

/// Whether this is what an answer asks of a follower.
pub open spec fn heard_as(answer: ResponseModel, heard: Heard) -> bool {
    match answer {
        ResponseModel::Frames { epoch, txns, .. } => if txns.len() == 0 {
            heard is Level
        } else {
            heard matches Heard::Apply { epoch: e, txns: v } && e == epoch && stream_model(v@)
                == txns
        },
        ResponseModel::UpToDate { .. } => heard is Level,
        ResponseModel::NeedsBootstrap { .. } => heard is Bootstrap,
        other => heard matches Heard::Failed(e) && e@ == ErrorModel::Protocol(
            "unexpected response to subscribe: "@ + kind(other),
        ),
    }
}

impl Replica {
    pub closed spec fn wf(&self) -> bool {
        self.follower.wf()
    }

    pub closed spec fn config(&self) -> ReplicaConfig {
        self.cfg
    }

    pub closed spec fn counts(&self) -> ReplicaStats {
        self.counters
    }

    pub closed spec fn copies(&self) -> Follower {
        self.follower
    }

    pub closed spec fn is_stopped(&self) -> bool {
        self.stopped
    }

    /// Where this follower stands with a shard.
    pub open spec fn standing(&self, shard: ShardId) -> Position {
        position_in(self.copies()@, shard)
    }

    pub fn new(cfg: ReplicaConfig, follower: Follower) -> (r: Replica)
        requires
            follower.wf(),
        ensures
            r.wf(),
            r.config() == cfg,
            r.copies() == follower,
            r.counts() == (ReplicaStats {
                applied_txns: 0,
                bootstraps: 0,
                polls: 0,
                up_to_date: 0,
                errors: 0,
            }),
            !r.is_stopped(),
    {
        Replica {
            cfg,
            follower,
            counters: ReplicaStats {
                applied_txns: 0,
                bootstraps: 0,
                polls: 0,
                up_to_date: 0,
                errors: 0,
            },
            stopped: false,
        }
    }

    pub fn stats(&self) -> (r: ReplicaStats)
        ensures
            r == self.counts(),
    {
        self.counters
    }

    pub fn follower(&self) -> (r: &Follower)
        requires
            self.wf(),
        ensures
            *r == self.copies(),
            r.wf(),
    {
        &self.follower
    }

    pub fn cfg(&self) -> (r: &ReplicaConfig)
        ensures
            *r == self.config(),
    {
        &self.cfg
    }

    /// Tells the follower to stop at its next turn.
    pub fn stop(&mut self)
        requires
            old(self).wf(),
        ensures
            final(self).wf(),
            final(self).is_stopped(),
            final(self).config() == old(self).config(),
            final(self).counts() == old(self).counts(),
            final(self).copies() == old(self).copies(),
    {
        self.stopped = true;
    }

    /// What to do next about a shard.
    pub fn turn(&mut self, shard: ShardId) -> (r: Turn)
        requires
            old(self).wf(),
        ensures
            final(self).wf(),
            final(self).config() == old(self).config(),
            final(self).copies() == old(self).copies(),
            final(self).is_stopped() == old(self).is_stopped(),
            if old(self).is_stopped() {
                r is Stop && final(self).counts() == old(self).counts()
            } else {
                (r matches Turn::Ask(q) && q.model() == subscribe_from(
                    shard,
                    old(self).standing(shard),
                    old(self).config().batch,
                )) && final(self).counts() == (ReplicaStats {
                    polls: old(self).counts().polls.wrapping_add(1),
                    ..old(self).counts()
                })
            },
    {
        if self.stopped {
            return Turn::Stop;
        }
        let pos = self.follower.position(shard);
        self.counters.polls = self.counters.polls.wrapping_add(1);
        Turn::Ask(
            Request::Subscribe {
                node: 0,
                shard: shard.0,
                epoch: pos.epoch,
                from_lsn: pos.applied_lsn.wrapping_add(1),
                max_txns: self.cfg.batch,
            },
        )
    }

    /// Takes in the primary's answer.
    pub fn hear(&mut self, answer: Response) -> (r: Heard)
        requires
            old(self).wf(),
        ensures
            final(self).wf(),
            final(self).config() == old(self).config(),
            final(self).copies() == old(self).copies(),
            final(self).is_stopped() == old(self).is_stopped(),
            heard_as(answer@, r),
            final(self).counts() == (ReplicaStats {
                up_to_date: if answer@ is UpToDate {
                    old(self).counts().up_to_date.wrapping_add(1)
                } else {
                    old(self).counts().up_to_date
                },
                ..old(self).counts()
            }),
    {
        match answer {
            Response::Frames { epoch, txns, .. } => {
                assert(stream_model(txns@).len() == txns@.len());
                if txns.len() == 0 {
                    Heard::Level
                } else {
                    Heard::Apply { epoch, txns }
                }
            },
            Response::UpToDate { .. } => {
                self.counters.up_to_date = self.counters.up_to_date.wrapping_add(1);
                Heard::Level
            },
            Response::NeedsBootstrap { .. } => Heard::Bootstrap,
            other => {
                let mut m = "unexpected response to subscribe: ".to_owned();
                m.append(response_kind(&other));
                Heard::Failed(Error::Protocol(m))
            },
        }
    }

    /// Notes that a batch of `n` transactions is applied and durable. A full batch means that there
    /// is probably more, so the shard gets another turn at once.
    pub fn applied(&mut self, shard: ShardId, pos: Position, n: usize) -> (r: bool)
        requires
            old(self).wf(),
        ensures
            final(self).wf(),
            final(self).config() == old(self).config(),
            final(self).is_stopped() == old(self).is_stopped(),
            final(self).copies()@ == old(self).copies()@.insert(shard.0, pos),
            final(self).counts() == (ReplicaStats {
                applied_txns: old(self).counts().applied_txns.wrapping_add(n as u64),
                ..old(self).counts()
            }),
            r == (n >= old(self).config().batch),
    {
        self.follower.record(shard, pos);
        self.counters.applied_txns = self.counters.applied_txns.wrapping_add(n as u64);
        n >= self.cfg.batch as usize
    }

    /// Notes that a snapshot is installed; the shard gets another turn, for what arrived during the
    /// copy.
    pub fn bootstrapped(&mut self, shard: ShardId, pos: Position)
        requires
            old(self).wf(),
        ensures
            final(self).wf(),
            final(self).config() == old(self).config(),
            final(self).is_stopped() == old(self).is_stopped(),
            final(self).copies()@ == old(self).copies()@.insert(shard.0, pos),
            final(self).counts() == (ReplicaStats {
                bootstraps: old(self).counts().bootstraps.wrapping_add(1),
                ..old(self).counts()
            }),
    {
        self.follower.record(shard, pos);
        self.counters.bootstraps = self.counters.bootstraps.wrapping_add(1);
    }

    /// Notes that a cycle failed; a primary that is down is expected, so the follower goes on.
    pub fn failed(&mut self)
        requires
            old(self).wf(),
        ensures
            final(self).wf(),
            final(self).config() == old(self).config(),
            final(self).is_stopped() == old(self).is_stopped(),
            final(self).copies() == old(self).copies(),
            final(self).counts() == (ReplicaStats {
                errors: old(self).counts().errors.wrapping_add(1),
                ..old(self).counts()
            }),
    {
        self.counters.errors = self.counters.errors.wrapping_add(1);
    }
}

// ---- requests of a follower --------------------------------------------------------------------

/// What an answer to the beginning of a snapshot comes to: its epoch, position and size.
pub open spec fn info_of(t: Result<ResponseModel, ErrorModel>) -> Result<(u64, u64, u64), ErrorModel> {
    match t {
        Ok(ResponseModel::SnapshotInfo { epoch, lsn, total_bytes, .. }) => Ok(
            (epoch, lsn, total_bytes),
        ),
        Ok(other) => Err(
            ErrorModel::Protocol("unexpected response to snapshot_begin: "@ + kind(other)),
        ),
        Err(e) => Err(e),
    }
}

/// What an answer to a read of a snapshot comes to.
pub open spec fn chunk_of(t: Result<ResponseModel, ErrorModel>) -> Result<Seq<u8>, ErrorModel> {
    match t {
        Ok(ResponseModel::SnapshotChunk { data }) => Ok(data),
        Ok(other) => Err(
            ErrorModel::Protocol("unexpected response to snapshot_read: "@ + kind(other)),
        ),
        Err(e) => Err(e),
    }
}

/// What an answer to the end of a snapshot comes to.
pub open spec fn ended_as(t: Result<ResponseModel, ErrorModel>) -> Result<(), ErrorModel> {
    match t {
        Ok(ResponseModel::Done) => Ok(()),
        Ok(other) => Err(
            ErrorModel::Protocol("unexpected response to snapshot_end: "@ + kind(other)),
        ),
        Err(e) => Err(e),
    }
}

fn misread(what: &str, r: &Response) -> (e: Error)
    ensures
        e@ == ErrorModel::Protocol(what@ + kind(r@)),
{
    let mut m = what.to_owned();
    m.append(response_kind(r));
    Error::Protocol(m)
}

/// The length of a chunk as it is asked for.
pub open spec fn asked_length(len: usize) -> u32 {
    (len as int % 4_294_967_296) as u32
}

impl<L: Fn(Request) -> Result<Response, Error>> Client<L> {
    /// Freezes a shard on the primary: the snapshot's epoch, position and size.
    pub fn snapshot_begin(&mut self, shard: u32) -> (r: Result<(u64, u64, u64), Error>)
        requires
            old(self).takes(RequestModel::SnapshotBegin { shard }),
        ensures
            sent_one(*old(self), *final(self), RequestModel::SnapshotBegin { shard }),
            match info_of(final(self).reply()) {
                Ok(info) => r == Ok::<(u64, u64, u64), Error>(info),
                Err(e) => r matches Err(x) && x@ == e,
            },
    {
        read_info(self.request(Request::SnapshotBegin { shard }))
    }

    /// Reads some bytes of the frozen snapshot.
    pub fn snapshot_read(&mut self, shard: u32, offset: u64, len: usize) -> (r: Result<
        Vec<u8>,
        Error,
    >)
        requires
            old(self).takes(
                RequestModel::SnapshotRead { shard, offset, len: asked_length(len) },
            ),
        ensures
            sent_one(
                *old(self),
                *final(self),
                RequestModel::SnapshotRead { shard, offset, len: asked_length(len) },
            ),
            match chunk_of(final(self).reply()) {
                Ok(data) => r matches Ok(v) && v@ == data,
                Err(e) => r matches Err(x) && x@ == e,
            },
    {
        read_bytes(self.request(Request::SnapshotRead { shard, offset, len: wire_length(len) }))
    }

    /// Releases the freeze.
    pub fn snapshot_end(&mut self, shard: u32) -> (r: Result<(), Error>)
        requires
            old(self).takes(RequestModel::SnapshotEnd { shard }),
        ensures
            sent_one(*old(self), *final(self), RequestModel::SnapshotEnd { shard }),
            unit_view(r) == ended_as(final(self).reply()),
    {
        read_end(self.request(Request::SnapshotEnd { shard }))
    }
}

fn wire_length(len: usize) -> (r: u32)
    ensures
        r == asked_length(len),
{
    (len as u64 % 4_294_967_296) as u32
}

fn read_info(t: Result<Response, Error>) -> (r: Result<(u64, u64, u64), Error>)
    ensures
        match info_of(answer_view(t)) {
            Ok(info) => r == Ok::<(u64, u64, u64), Error>(info),
            Err(e) => r matches Err(x) && x@ == e,
        },
{
    match t {
        Ok(Response::SnapshotInfo { epoch, lsn, total_bytes, .. }) => Ok((epoch, lsn, total_bytes)),
        Ok(other) => Err(misread("unexpected response to snapshot_begin: ", &other)),
        Err(e) => Err(e),
    }
}

fn read_bytes(t: Result<Response, Error>) -> (r: Result<Vec<u8>, Error>)
    ensures
        match chunk_of(answer_view(t)) {
            Ok(data) => r matches Ok(v) && v@ == data,
            Err(e) => r matches Err(x) && x@ == e,
        },
{
    match t {
        Ok(Response::SnapshotChunk { data }) => Ok(data),
        Ok(other) => Err(misread("unexpected response to snapshot_read: ", &other)),
        Err(e) => Err(e),
    }
}

fn read_end(t: Result<Response, Error>) -> (r: Result<(), Error>)
    ensures
        unit_view(r) == ended_as(answer_view(t)),
{
    match t {
        Ok(Response::Done) => Ok(()),
        Ok(other) => Err(misread("unexpected response to snapshot_end: ", &other)),
        Err(e) => Err(e),
    }
}

// ---- bootstrap ---------------------------------------------------------------------------------

pub open spec fn stopped_sending(at: u64, total: u64) -> ErrorModel {
    ErrorModel::Protocol(
        "the primary stopped sending at "@ + decimal(at as nat) + " of "@ + decimal(total as nat)
            + " bytes"@,
    )
}

/// What copying a shard from the primary asks for next.
#[derive(Debug)]
pub enum Move {
    /// Ask the primary this.
    Ask(Request),
    /// Begin or resume the transfer of a snapshot.
    Open(SnapshotId),
    /// Append bytes to the partial file, durably.
    Append { at: u64, data: Vec<u8> },
    /// Write the progress file.
    Note(String),
    /// Put the partial file, which is complete, in the place of the shard.
    Install(SnapshotId, Position),
    /// Nothing more; this is what the copy came to.
    Over(Result<Position, Error>),
}

pub ghost enum MoveModel {
    Ask(RequestModel),
    Open(SnapshotId),
    Append { at: u64, data: Seq<u8> },
    Note(Seq<char>),
    Install(SnapshotId, Position),
    Over(Result<Position, ErrorModel>),
}

pub open spec fn copy_view(r: Result<Position, Error>) -> Result<Position, ErrorModel> {
    match r {
        Ok(p) => Ok(p),
        Err(e) => Err(e@),
    }
}

impl Move {
    pub open spec fn model(self) -> MoveModel {
        match self {
            Move::Ask(q) => MoveModel::Ask(q.model()),
            Move::Open(id) => MoveModel::Open(id),
            Move::Append { at, data } => MoveModel::Append { at, data: data@ },
            Move::Note(t) => MoveModel::Note(t@),
            Move::Install(id, pos) => MoveModel::Install(id, pos),
            Move::Over(r) => MoveModel::Over(copy_view(r)),
        }
    }
}

/// What became of a move.
#[derive(Debug)]
pub enum Event {
    /// The primary answered.
    Heard(Result<Response, Error>),
    /// The transfer was begun or resumed.
    Opened(Result<SnapshotTransfer, Error>),
    /// The rest: bytes were appended, the progress was noted, the file was installed.
    Did(Result<(), Error>),
}

pub ghost enum EventModel {
    Heard(Result<ResponseModel, ErrorModel>),
    Opened(Result<SnapshotTransfer, ErrorModel>),
    Did(Result<(), ErrorModel>),
}

impl Event {
    pub open spec fn model(self) -> EventModel {
        match self {
            Event::Heard(a) => EventModel::Heard(answer_view(a)),
            Event::Opened(Ok(t)) => EventModel::Opened(Ok(t)),
            Event::Opened(Err(e)) => EventModel::Opened(Err(e@)),
            Event::Did(r) => EventModel::Did(unit_view(r)),
        }
    }
}

#[derive(Debug)]
enum Stage {
    Beginning,
    Opening(SnapshotId),
    Reading(SnapshotTransfer),
    Appending(SnapshotTransfer, usize),
    Noting(SnapshotTransfer),
    Installing(SnapshotId),
    Ending(Result<Position, Error>),
    Over,
}

/// How far a copy has come: what it waits for.
pub ghost enum StageModel {
    Beginning,
    Opening(SnapshotId),
    Reading { id: SnapshotId, at: u64 },
    Appending { id: SnapshotId, at: u64, n: nat },
    Noting { id: SnapshotId, at: u64 },
    Installing(SnapshotId),
    Ending(Result<Position, ErrorModel>),
    Over,
}

impl Stage {
    closed spec fn model(self) -> StageModel {
        match self {
            Stage::Beginning => StageModel::Beginning,
            Stage::Opening(id) => StageModel::Opening(id),
            Stage::Reading(t) => StageModel::Reading { id: t.ident(), at: t.received() },
            Stage::Appending(t, n) => StageModel::Appending {
                id: t.ident(),
                at: t.received(),
                n: n as nat,
            },
            Stage::Noting(t) => StageModel::Noting { id: t.ident(), at: t.received() },
            Stage::Installing(id) => StageModel::Installing(id),
            Stage::Ending(r) => StageModel::Ending(copy_view(r)),
            Stage::Over => StageModel::Over,
        }
    }
}

/// The position that a snapshot brings a follower to.
pub open spec fn brought_to(id: SnapshotId) -> Position {
    Position { epoch: id.epoch, applied_lsn: id.lsn }
}

/// The freeze is released, whatever became of the copy.
pub open spec fn ending(shard: ShardId, copied: Result<Position, ErrorModel>) -> (
    StageModel,
    MoveModel,
) {
    (StageModel::Ending(copied), MoveModel::Ask(RequestModel::SnapshotEnd { shard: shard.0 }))
}

/// With so many bytes received, the next ones are asked for, or the file is installed.
pub open spec fn reading_on(shard: ShardId, chunk: usize, id: SnapshotId, at: u64) -> (
    StageModel,
    MoveModel,
) {
    if at >= id.total_bytes {
        (StageModel::Installing(id), MoveModel::Install(id, brought_to(id)))
    } else {
        (
            StageModel::Reading { id, at },
            MoveModel::Ask(
                RequestModel::SnapshotRead { shard: shard.0, offset: at, len: asked_length(chunk) },
            ),
        )
    }
}

/// Whether an event is one that a stage waits for. No answer holds more bytes than an offset can
/// count.
pub open spec fn awaits(stage: StageModel, event: EventModel) -> bool {
    match (stage, event) {
        (StageModel::Beginning, EventModel::Heard(_)) => true,
        (StageModel::Opening(id), EventModel::Opened(o)) => o matches Ok(t) ==> t.ident() == id,
        (StageModel::Reading { at, .. }, EventModel::Heard(a)) => chunk_of(a) matches Ok(data)
            ==> at + data.len() <= u64::MAX,
        (StageModel::Appending { .. }, EventModel::Did(_)) => true,
        (StageModel::Noting { .. }, EventModel::Did(_)) => true,
        (StageModel::Installing(_), EventModel::Did(_)) => true,
        (StageModel::Ending(_), EventModel::Heard(_)) => true,
        _ => false,
    }
}

/// What a copy does about an event, and how far it has come then. A chunk is appended, durably,
/// before the progress file counts it: a crash between the two repeats a chunk, and never skips
/// one.
pub open spec fn advanced(shard: ShardId, chunk: usize, stage: StageModel, event: EventModel) -> (
    StageModel,
    MoveModel,
) {
    match (stage, event) {
        (StageModel::Beginning, EventModel::Heard(a)) => match info_of(a) {
            Err(e) => (StageModel::Over, MoveModel::Over(Err(e))),
            Ok((epoch, lsn, total_bytes)) => {
                let id = SnapshotId { shard, epoch, lsn, total_bytes };
                (StageModel::Opening(id), MoveModel::Open(id))
            },
        },
        (StageModel::Opening(id), EventModel::Opened(o)) => match o {
            Err(e) => ending(shard, Err(e)),
            Ok(t) => reading_on(shard, chunk, id, t.received()),
        },
        (StageModel::Reading { id, at }, EventModel::Heard(a)) => match chunk_of(a) {
            Err(e) => ending(shard, Err(e)),
            Ok(data) => if data.len() == 0 {
                ending(shard, Err(stopped_sending(at, id.total_bytes)))
            } else {
                (
                    StageModel::Appending { id, at, n: data.len() },
                    MoveModel::Append { at, data },
                )
            },
        },
        (StageModel::Appending { id, at, n }, EventModel::Did(r)) => match r {
            Err(e) => ending(shard, Err(e)),
            Ok(_) => {
                let now = (at + n) as u64;
                (StageModel::Noting { id, at: now }, MoveModel::Note(meta_text(id, now)))
            },
        },
        (StageModel::Noting { id, at }, EventModel::Did(r)) => match r {
            Err(e) => ending(shard, Err(e)),
            Ok(_) => reading_on(shard, chunk, id, at),
        },
        (StageModel::Installing(id), EventModel::Did(r)) => match r {
            Err(e) => ending(shard, Err(e)),
            Ok(_) => ending(shard, Ok(brought_to(id))),
        },
        (StageModel::Ending(copied), EventModel::Heard(a)) => (
            StageModel::Over,
            MoveModel::Over(
                match (copied, ended_as(a)) {
                    (Err(e), _) => Err(e),
                    (Ok(_), Err(e)) => Err(e),
                    (Ok(p), Ok(_)) => Ok(p),
                },
            ),
        ),
        _ => (stage, MoveModel::Over(Err(ErrorModel::Protocol(Seq::empty())))),
    }
}

/// Copies a shard from the primary and installs it, one move at a time.
#[derive(Debug)]
pub struct Bootstrap {
    shard: ShardId,
    chunk: usize,
    stage: Stage,
}

impl Bootstrap {
    pub closed spec fn of(&self) -> ShardId {
        self.shard
    }

    pub closed spec fn chunk_size(&self) -> usize {
        self.chunk
    }

    pub closed spec fn stage(&self) -> StageModel {
        self.stage.model()
    }

    /// Whether nothing that was received is more than an offset can count.
    pub closed spec fn wf(&self) -> bool {
        &&& self.stage matches Stage::Appending(t, n) ==> n > 0 && t.received() + n <= u64::MAX
        &&& self.stage matches Stage::Opening(id) ==> id.shard == self.shard
    }

    /// A copy of a shard, in chunks of a size, and the request that it begins with.
    pub fn start(shard: ShardId, chunk: usize) -> (r: (Bootstrap, Request))
        ensures
            r.0.wf(),
            r.0.of() == shard,
            r.0.chunk_size() == chunk,
            r.0.stage() == StageModel::Beginning,
            r.1.model() == (RequestModel::SnapshotBegin { shard: shard.0 }),
    {
        (
            Bootstrap { shard, chunk, stage: Stage::Beginning },
            Request::SnapshotBegin { shard: shard.0 },
        )
    }

    fn end(&mut self, copied: Result<Position, Error>) -> (r: Move)
        ensures
            final(self).wf(),
            final(self).of() == old(self).of(),
            final(self).chunk_size() == old(self).chunk_size(),
            (final(self).stage(), r.model()) == ending(old(self).of(), copy_view(copied)),
    {
        self.stage = Stage::Ending(copied);
        Move::Ask(Request::SnapshotEnd { shard: self.shard.0 })
    }

    fn read_on(&mut self, transfer: SnapshotTransfer) -> (r: Move)
        ensures
            final(self).wf(),
            final(self).of() == old(self).of(),
            final(self).chunk_size() == old(self).chunk_size(),
            (final(self).stage(), r.model()) == reading_on(
                old(self).of(),
                old(self).chunk_size(),
                transfer.ident(),
                transfer.received(),
            ),
    {
        match transfer.finish() {
            Ok(pos) => {
                self.stage = Stage::Installing(transfer.id());
                Move::Install(transfer.id(), pos)
            },
            Err(_) => {
                self.stage = Stage::Reading(transfer);
                Move::Ask(
                    Request::SnapshotRead {
                        shard: self.shard.0,
                        offset: transfer.offset(),
                        len: wire_length(self.chunk),
                    },
                )
            },
        }
    }

    fn fail_sending(&mut self, transfer: SnapshotTransfer) -> (r: Move)
        ensures
            final(self).wf(),
            final(self).of() == old(self).of(),
            final(self).chunk_size() == old(self).chunk_size(),
            (final(self).stage(), r.model()) == ending(
                old(self).of(),
                Err(stopped_sending(transfer.received(), transfer.ident().total_bytes)),
            ),
    {
        let mut m = "the primary stopped sending at ".to_owned();
        push_decimal(&mut m, transfer.offset());
        m.append(" of ");
        push_decimal(&mut m, transfer.total());
        m.append(" bytes");
        self.end(Err(Error::Protocol(m)))
    }

    /// The move that follows an event.
    pub fn next(&mut self, event: Event) -> (r: Move)
        requires
            old(self).wf(),
            awaits(old(self).stage(), event.model()),
        ensures
            final(self).wf(),
            final(self).of() == old(self).of(),
            final(self).chunk_size() == old(self).chunk_size(),
            (final(self).stage(), r.model()) == advanced(
                old(self).of(),
                old(self).chunk_size(),
                old(self).stage(),
                event.model(),
            ),
    {
        let mut stage = Stage::Over;
        std::mem::swap(&mut stage, &mut self.stage);
        match (stage, event) {
            (Stage::Beginning, Event::Heard(a)) => match read_info(a) {
                Ok((epoch, lsn, total_bytes)) => {
                    let id = SnapshotId { shard: self.shard, epoch, lsn, total_bytes };
                    self.stage = Stage::Opening(id);
                    Move::Open(id)
                },
                Err(e) => Move::Over(Err(e)),
            },
            (Stage::Opening(_), Event::Opened(o)) => match o {
                Ok(t) => self.read_on(t),
                Err(e) => self.end(Err(e)),
            },
            (Stage::Reading(t), Event::Heard(a)) => match read_bytes(a) {
                Ok(data) => {
                    if data.len() == 0 {
                        return self.fail_sending(t);
                    }
                    self.stage = Stage::Appending(t, data.len());
                    Move::Append { at: t.offset(), data }
                },
                Err(e) => self.end(Err(e)),
            },
            (Stage::Appending(t, n), Event::Did(r)) => match r {
                Ok(_) => {
                    let mut t = t;
                    let text = match t.write_chunk(n) {
                        Some(text) => text,
                        None => String::new(),
                    };
                    self.stage = Stage::Noting(t);
                    Move::Note(text)
                },
                Err(e) => self.end(Err(e)),
            },
            (Stage::Noting(t), Event::Did(r)) => match r {
                Ok(_) => self.read_on(t),
                Err(e) => self.end(Err(e)),
            },
            (Stage::Installing(id), Event::Did(r)) => match r {
                Ok(_) => self.end(Ok(Position { epoch: id.epoch, applied_lsn: id.lsn })),
                Err(e) => self.end(Err(e)),
            },
            (Stage::Ending(copied), Event::Heard(a)) => match (copied, read_end(a)) {
                (Err(e), _) => Move::Over(Err(e)),
                (Ok(_), Err(e)) => Move::Over(Err(e)),
                (Ok(p), Ok(_)) => Move::Over(Ok(p)),
            },
            _ => Move::Over(Err(Error::Protocol(String::new()))),
        }
    }
}

// ---- one cycle ---------------------------------------------------------------------------------

/// Whether catching up shards takes them in this order and comes to this: one after the other, up to
/// the first that fails.
pub open spec fn synced(
    shards: Seq<ShardId>,
    turns: Seq<(ShardId, Result<(), Error>)>,
    r: Result<(), Error>,
) -> bool {
    &&& turns.len() <= shards.len()
    &&& forall|i: int| 0 <= i < turns.len() ==> (#[trigger] turns[i]).0 == shards[i]
    &&& forall|i: int| 0 <= i < turns.len() - 1 ==> (#[trigger] turns[i]).1 is Ok
    &&& match r {
        Ok(_) => turns.len() == shards.len() && (turns.len() > 0 ==> turns.last().1 is Ok),
        Err(e) => turns.len() > 0 && turns.last().1 == Err::<(), Error>(e),
    }
}

/// Catches every shard up once, through `sync`, which catches one up.
#[verifier::loop_isolation(false)]
pub fn sync_once<F: Fn(ShardId) -> Result<(), Error>>(
    shards: &Vec<ShardId>,
    sync: &mut Line<ShardId, Result<(), Error>, F>,
) -> (r: Result<(), Error>)
    requires
        forall|s: ShardId| #[trigger] call_requires(old(sync).far(), (s,)),
    ensures
        final(sync).far() == old(sync).far(),
        goes_on(old(sync).record(), final(sync).record()),
        synced(shards@, since(old(sync).record(), final(sync).record()), r),
{
    let ghost first = sync.record();
    let ghost far = sync.far();
    let ghost mut turns: Seq<(ShardId, Result<(), Error>)> = Seq::empty();
    let mut i: usize = 0;
    assert(first + turns =~= first);
    while i < shards.len()
        invariant
            i <= shards@.len(),
            sync.far() == far,
            sync.record() == first + turns,
            turns.len() == i,
            forall|k: int|
                0 <= k < i ==> (#[trigger] turns[k]).0 == shards@[k] && turns[k].1 is Ok,
        decreases shards@.len() - i,
    {
        let shard = shards[i];
        let done = sync.ask(shard);
        proof {
            turns = turns.push((shard, done));
            assert(sync.record() =~= first + turns);
            lemma_added(first, turns);
        }
        if done.is_err() {
            return done;
        }
        i = i + 1;
    }
    proof {
        lemma_added(first, turns);
    }
    Ok(())
}

// ---- laws --------------------------------------------------------------------------------------

/// Only a complete copy is installed, at the position of its snapshot.
pub proof fn law_only_a_complete_copy_is_installed(
    shard: ShardId,
    chunk: usize,
    stage: StageModel,
    event: EventModel,
    id: SnapshotId,
    pos: Position,
)
    requires
        awaits(stage, event),
        advanced(shard, chunk, stage, event).1 == MoveModel::Install(id, pos),
    ensures
        pos == brought_to(id),
        match stage {
            StageModel::Opening(open) => open == id && (event matches EventModel::Opened(Ok(t))
                && t.received() >= id.total_bytes),
            StageModel::Noting { id: noted, at } => noted == id && at >= id.total_bytes,
            _ => false,
        },
{
}

/// The freeze is released whatever became of the copy: once a snapshot was begun, a copy is only
/// over when the request to end it was answered.
pub proof fn law_the_freeze_is_released(
    shard: ShardId,
    chunk: usize,
    stage: StageModel,
    event: EventModel,
)
    requires
        awaits(stage, event),
        advanced(shard, chunk, stage, event).1 is Over,
    ensures
        stage is Ending || (stage is Beginning && info_of(event->Heard_0) is Err),
{
}

/// Nothing is asked to end a snapshot but once the copy failed or was installed, and that is all
/// that is asked then.
pub proof fn law_a_copy_ends_once(
    shard: ShardId,
    chunk: usize,
    stage: StageModel,
    event: EventModel,
)
    requires
        awaits(stage, event),
        advanced(shard, chunk, stage, event).1 == MoveModel::Ask(
            RequestModel::SnapshotEnd { shard: shard.0 },
        ),
    ensures
        advanced(shard, chunk, stage, event).0 is Ending,
        advanced(shard, chunk, stage, event).0->Ending_0 is Ok <==> (stage is Installing
            && event->Did_0 is Ok),
{
}

/// What is appended is what was read, where it belongs, and it counts once it is appended.
pub proof fn law_chunks_count_once_appended(
    shard: ShardId,
    chunk: usize,
    id: SnapshotId,
    at: u64,
    data: Seq<u8>,
)
    requires
        data.len() > 0,
        at + data.len() <= u64::MAX,
    ensures
        ({
            let reading = StageModel::Reading { id, at };
            let heard = EventModel::Heard(Ok(ResponseModel::SnapshotChunk { data }));
            let (appending, append) = advanced(shard, chunk, reading, heard);
            &&& append == (MoveModel::Append { at, data })
            &&& advanced(shard, chunk, appending, EventModel::Did(Ok(()))) == (
                StageModel::Noting { id, at: (at + data.len()) as u64 },
                MoveModel::Note(meta_text(id, (at + data.len()) as u64)),
            )
        }),
{
}

/// A follower asks from just past what it has applied, in its own generation, so what it is sent
/// continues its own copy.
pub proof fn law_a_follower_asks_for_what_it_lacks(shard: ShardId, pos: Position, batch: u32)
    requires
        pos.applied_lsn < u64::MAX,
    ensures
        subscribe_from(shard, pos, batch) == (RequestModel::Subscribe {
            node: 0,
            shard: shard.0,
            epoch: pos.epoch,
            from_lsn: (pos.applied_lsn + 1) as u64,
            max_txns: batch,
        }),
{
}

} // verus!
