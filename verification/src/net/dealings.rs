//! How a client reads its answers, and how a follower copies a shard, in plain terms.

use vstd::prelude::*;

use super::auth::blake3_keyed_of;
use super::client::{
    changes_of, commit_of, dialled, dialled_securely, done_of, greeting, hello, misfit, put_done,
    rows_of, sent_one, trip, welcomed, Client, Dial, Talk,
};
use super::protocol::{Request, RequestModel, Response, ResponseModel, PROTOCOL_VERSION};
use super::replica::{
    advanced, asked_length, brought_to, chunk_of, ended_as, heard_as, info_of, reading_on, synced,
    EventModel, Heard, MoveModel, StageModel,
};
use crate::error::{Error, ErrorModel};
use crate::replication::bootstrap::{SnapshotId, SnapshotTransfer};
use crate::replication::follower::Position;
use crate::replication::stream::{stream_model, StreamTxnModel};
use crate::shard::id::ShardId;
use crate::storage::exec::{Datum, StatementModel, Table};

verus! {

// ---- answers -----------------------------------------------------------------------------------

/// An error of the server is an error of the client: one that may be retried says that the server is
/// busy. Every other answer comes through as it is, and so does a broken link.
pub proof fn law_errors_come_through(r: ResponseModel, message: Seq<char>, e: ErrorModel)
    ensures
        trip(Ok(ResponseModel::Error { message, retryable: true })) == Err::<
            ResponseModel,
            ErrorModel,
        >(ErrorModel::Busy(message)),
        trip(Ok(ResponseModel::Error { message, retryable: false })) == Err::<
            ResponseModel,
            ErrorModel,
        >(ErrorModel::Protocol(message)),
        !(r is Error) ==> trip(Ok(r)) == Ok::<ResponseModel, ErrorModel>(r),
        trip(Err(e)) == Err::<ResponseModel, ErrorModel>(e),
{
}

/// Rows are read as rows, changes as changes; a statement that gave rows changed none. A rejected
/// statement is an error that says why, and so is any answer that does not fit.
pub proof fn law_answers_are_read(
    columns: Seq<Seq<char>>,
    rows: Seq<Seq<Datum>>,
    changed: u64,
    rowid: i64,
    message: Seq<char>,
    other: ResponseModel,
)
    ensures
        ({
            let table = ResponseModel::Rows { columns, rows };
            let change = ResponseModel::Changed {
                rows_affected: changed,
                last_insert_rowid: rowid,
            };
            let rejected = ResponseModel::Rejected { message };
            &&& rows_of(Ok(table)) == Ok::<Table, ErrorModel>(Table { columns, rows })
            &&& changes_of(Ok(change)) == Ok::<(u64, i64), ErrorModel>((changed, rowid))
            &&& changes_of(Ok(table)) == Ok::<(u64, i64), ErrorModel>((0, 0))
            &&& commit_of(Ok(change)) == Ok::<(u64, i64), ErrorModel>((changed, rowid))
            &&& rows_of(Ok(rejected)) == Err::<Table, ErrorModel>(ErrorModel::Unsupported(message))
            &&& changes_of(Ok(rejected)) == Err::<(u64, i64), ErrorModel>(
                ErrorModel::Unsupported(message),
            )
            &&& commit_of(Ok(rejected)) == Err::<(u64, i64), ErrorModel>(
                ErrorModel::Unsupported(message),
            )
            &&& done_of(Ok(ResponseModel::Done)) == Ok::<(), ErrorModel>(())
            &&& !(other is Rows) ==> rows_of(Ok(other)) is Err
            &&& !(other is Changed || other is Rows) ==> changes_of(Ok(other)) is Err
            &&& !(other is Changed) ==> commit_of(Ok(other)) is Err
            &&& !(other is Done) ==> done_of(Ok(other)) is Err
            &&& misfit(rejected) == ErrorModel::Unsupported(message)
        }),
{
}

/// A handshake begins with a hello in this version. Where it is welcomed at once nothing more is
/// sent. A challenge is answered with the proof of the key under the name, where there are
/// credentials, and the client is connected only where that is welcomed.
pub proof fn law_how_a_client_is_let_in(
    talk: Talk,
    credentials: Option<(Seq<char>, Seq<u8>)>,
    r: Result<(u32, Option<u64>), ErrorModel>,
)
    requires
        greeting(talk, credentials, r),
    ensures
        talk[0].0 matches RequestModel::Hello { version, .. } && version == PROTOCOL_VERSION,
        r is Ok ==> (trip(talk.last().1) matches Ok(
            ResponseModel::Welcome { shard_count, epoch, .. },
        ) && r == Ok::<(u32, Option<u64>), ErrorModel>((shard_count, epoch))),
        trip(talk[0].1) matches Ok(ResponseModel::Challenge { nonce }) ==> (credentials matches Some(
            c,
        ) ==> talk.len() == 2 && talk[1].0 == (RequestModel::Auth {
            name: c.0,
            proof: blake3_keyed_of(c.1, nonce),
        })),
        trip(talk[0].1) is Ok && trip(talk[0].1)->Ok_0 is Challenge && credentials is None ==> r
            is Err && talk.len() == 1,
        !(trip(talk[0].1) is Ok && trip(talk[0].1)->Ok_0 is Challenge) ==> talk.len() == 1,
{
}

// ---- following ---------------------------------------------------------------------------------

/// What a follower makes of an answer: frames are applied as they are, under the primary's epoch; no
/// frames, or being level, means there is nothing to do; and a copy is taken where it is told to.
pub proof fn law_what_a_follower_hears(
    shard: u32,
    epoch: u64,
    txns: Seq<StreamTxnModel>,
    reason: Seq<char>,
    heard: Heard,
    other: ResponseModel,
)
    ensures
        txns.len() > 0 && heard_as(ResponseModel::Frames { shard, epoch, txns }, heard) ==> (
        heard matches Heard::Apply { epoch: e, txns: v } && e == epoch && stream_model(v@) == txns),
        heard_as(ResponseModel::Frames { shard, epoch, txns: Seq::empty() }, heard) ==> heard
            is Level,
        heard_as(ResponseModel::UpToDate { shard }, heard) ==> heard is Level,
        heard_as(ResponseModel::NeedsBootstrap { shard, reason }, heard) ==> heard is Bootstrap,
        !(other is Frames || other is UpToDate || other is NeedsBootstrap) && heard_as(other, heard)
            ==> heard is Failed,
{
}

// ---- copying -----------------------------------------------------------------------------------

/// A copy is of the snapshot that the primary froze: its epoch, its position and its size; a primary
/// that will not freeze the shard ends it.
pub proof fn law_a_copy_begins_with_the_snapshot(
    shard: ShardId,
    chunk: usize,
    epoch: u64,
    lsn: u64,
    total_bytes: u64,
    other: ResponseModel,
)
    ensures
        advanced(
            shard,
            chunk,
            StageModel::Beginning,
            EventModel::Heard(
                Ok(ResponseModel::SnapshotInfo { shard: shard.0, epoch, lsn, total_bytes }),
            ),
        ).1 == MoveModel::Open(SnapshotId { shard, epoch, lsn, total_bytes }),
        !(other is SnapshotInfo) ==> (advanced(
            shard,
            chunk,
            StageModel::Beginning,
            EventModel::Heard(Ok(other)),
        ).1 matches MoveModel::Over(r) && r is Err),
        info_of(
            Ok(ResponseModel::SnapshotInfo { shard: shard.0, epoch, lsn, total_bytes }),
        ) == Ok::<(u64, u64, u64), ErrorModel>((epoch, lsn, total_bytes)),
{
}

/// A copy asks for the bytes after those that it has, a chunk at a time, and is installed once it has
/// them all, at the position that the snapshot was taken at.
pub proof fn law_a_copy_reads_on(shard: ShardId, chunk: usize, id: SnapshotId, at: u64)
    requires
        chunk <= u32::MAX,
    ensures
        at < id.total_bytes ==> reading_on(shard, chunk, id, at).1 == MoveModel::Ask(
            RequestModel::SnapshotRead { shard: shard.0, offset: at, len: chunk as u32 },
        ),
        at >= id.total_bytes ==> reading_on(shard, chunk, id, at).1 == MoveModel::Install(
            id,
            Position { epoch: id.epoch, applied_lsn: id.lsn },
        ),
        brought_to(id).epoch == id.epoch,
        brought_to(id).applied_lsn == id.lsn,
        asked_length(chunk) == chunk,
{
}

/// A transfer that is resumed goes on from what it has; an empty chunk before the end, an answer that
/// is no chunk, and any failure of the files end the copy in failure.
pub proof fn law_how_a_copy_goes_on(
    shard: ShardId,
    chunk: usize,
    id: SnapshotId,
    at: u64,
    n: nat,
    t: SnapshotTransfer,
    e: ErrorModel,
    other: ResponseModel,
)
    ensures
        advanced(shard, chunk, StageModel::Opening(id), EventModel::Opened(Ok(t))) == reading_on(
            shard,
            chunk,
            id,
            t.received(),
        ),
        advanced(
            shard,
            chunk,
            StageModel::Reading { id, at },
            EventModel::Heard(Ok(ResponseModel::SnapshotChunk { data: Seq::empty() })),
        ).0 matches StageModel::Ending(r) && r is Err,
        !(other is SnapshotChunk) ==> (advanced(
            shard,
            chunk,
            StageModel::Reading { id, at },
            EventModel::Heard(Ok(other)),
        ).0 matches StageModel::Ending(r) && r is Err),
        advanced(
            shard,
            chunk,
            StageModel::Appending { id, at, n },
            EventModel::Did(Err(e)),
        ).0 == StageModel::Ending(Err(e)),
        advanced(shard, chunk, StageModel::Noting { id, at }, EventModel::Did(Err(e))).0
            == StageModel::Ending(Err(e)),
        advanced(shard, chunk, StageModel::Noting { id, at }, EventModel::Did(Ok(()))) == reading_on(
            shard,
            chunk,
            id,
            at,
        ),
        advanced(shard, chunk, StageModel::Installing(id), EventModel::Did(Err(e))).0
            == StageModel::Ending(Err(e)),
        advanced(shard, chunk, StageModel::Installing(id), EventModel::Did(Ok(()))).0
            == StageModel::Ending(Ok(Position { epoch: id.epoch, applied_lsn: id.lsn })),
{
}

/// A copy counts only where it was installed and the snapshot stayed whole until it was ended; the
/// first failure is the one that is told.
pub proof fn law_how_a_copy_ends(
    shard: ShardId,
    chunk: usize,
    copied: Result<Position, ErrorModel>,
    answer: Result<ResponseModel, ErrorModel>,
)
    ensures
        ({
            let over = advanced(
                shard,
                chunk,
                StageModel::Ending(copied),
                EventModel::Heard(answer),
            ).1;
            &&& copied is Ok && answer == Ok::<ResponseModel, ErrorModel>(ResponseModel::Done)
                ==> over == MoveModel::Over(copied)
            &&& copied is Err ==> over == MoveModel::Over(copied)
            &&& copied is Ok && answer != Ok::<ResponseModel, ErrorModel>(ResponseModel::Done)
                ==> (over matches MoveModel::Over(r) && r is Err)
        }),
        ended_as(answer) is Ok <==> answer == Ok::<ResponseModel, ErrorModel>(ResponseModel::Done),
        chunk_of(answer) is Ok <==> answer is Ok && answer->Ok_0 is SnapshotChunk,
{
}

/// A cycle that succeeds has caught up every shard, once and in order; one that fails has tried no
/// shard after the one that failed.
pub proof fn law_a_cycle(
    shards: Seq<ShardId>,
    turns: Seq<(ShardId, Result<(), Error>)>,
    r: Result<(), Error>,
    i: int,
)
    requires
        synced(shards, turns, r),
        0 <= i < turns.len(),
    ensures
        turns[i].0 == shards[i],
        r is Ok ==> turns.len() == shards.len() && turns[i].1 is Ok,
        turns[i].1 is Err ==> i == turns.len() - 1 && r is Err,
{
}

/// A welcome tells how many shards there are and which generation it is; any other answer to a
/// handshake is an error.
pub proof fn law_welcomes(
    version: u32,
    shard_count: u32,
    epoch: Option<u64>,
    what: Seq<char>,
    other: ResponseModel,
)
    ensures
        hello() matches RequestModel::Hello { version, .. } && version == PROTOCOL_VERSION,
        welcomed(Ok(ResponseModel::Welcome { version, shard_count, epoch }), what) == Ok::<
            (u32, Option<u64>),
            ErrorModel,
        >((shard_count, epoch)),
        !(other is Welcome) ==> welcomed(Ok(other), what) is Err,
{
}

// ---- writing and dialling ----------------------------------------------------------------------

/// A write by its key asks where the key lives and goes there as it is; where that is not told,
/// nothing is written.
pub proof fn law_writes_by_key_go_where_it_lives<L: Fn(Request) -> Result<Response, Error>>(
    before: Client<L>,
    after: Client<L>,
    key: Seq<u8>,
    sql: Seq<char>,
    params: Seq<Datum>,
    r: Result<(u64, i64), ErrorModel>,
)
    requires
        put_done(before, after, key, sql, params, r),
    ensures
        ({
            let n = before.talk().len() as int;
            let routed = trip(after.talk()[n].1);
            &&& after.talk().len() > n
            &&& after.talk()[n].0 == (RequestModel::Route { key })
            &&& routed matches Ok(ResponseModel::Routed { shard }) ==> after.talk().len() == n + 2
                && after.talk()[n + 1].0 == (RequestModel::Execute {
                shard,
                statements: seq![StatementModel { sql, params }],
            })
            &&& !(routed is Ok && routed->Ok_0 is Routed) ==> r is Err && after.talk().len() == n + 1
            &&& r is Ok ==> routed is Ok && trip(after.talk().last().1) is Ok
        }),
{
}

/// An address is dialled once, as it was given; without a link there is no client, and with one it is
/// the link that the client speaks over.
pub proof fn law_addresses_are_dialled_once<L: Fn(Request) -> Result<Response, Error>>(
    before: Seq<(Dial, Result<L, Error>)>,
    after: Seq<(Dial, Result<L, Error>)>,
    addr: Seq<char>,
    connect_ms: u64,
    io_ms: u64,
    credentials: Option<(Seq<char>, Seq<u8>)>,
    r: Result<Client<L>, Error>,
)
    requires
        dialled(before, after, addr, connect_ms, io_ms, credentials, r),
    ensures
        after.len() == before.len() + 1,
        after.last().0.addr@ == addr,
        after.last().0.connect_ms == connect_ms,
        after.last().0.io_ms == io_ms,
        after.last().1 is Err ==> r is Err,
        r matches Ok(c) ==> after.last().1 == Ok::<L, Error>(c.wire()),
{
}

/// A link is secured before anything is said over it: no client speaks over the bare one.
pub proof fn law_links_are_secured_first<T, L: Fn(Request) -> Result<Response, Error>>(
    dials: Seq<(Dial, Result<T, Error>)>,
    dials_after: Seq<(Dial, Result<T, Error>)>,
    secured: Seq<(T, Result<L, Error>)>,
    secured_after: Seq<(T, Result<L, Error>)>,
    addr: Seq<char>,
    connect_ms: u64,
    io_ms: u64,
    credentials: Option<(Seq<char>, Seq<u8>)>,
    r: Result<Client<L>, Error>,
)
    requires
        dialled_securely(
            dials,
            dials_after,
            secured,
            secured_after,
            addr,
            connect_ms,
            io_ms,
            credentials,
            r,
        ),
    ensures
        dials_after.len() == dials.len() + 1,
        dials_after.last().0.addr@ == addr,
        dials_after.last().1 is Err ==> r is Err && secured_after == secured,
        r matches Ok(c) ==> secured_after.len() == secured.len() + 1 && secured_after.last().1 == Ok::<
            L,
            Error,
        >(c.wire()) && dials_after.last().1 == Ok::<T, Error>(secured_after.last().0),
{
}

/// A call of a client sends one request, after all that was sent before, over the same link.
pub proof fn law_one_request_is_sent<L: Fn(Request) -> Result<Response, Error>>(
    before: Client<L>,
    after: Client<L>,
    req: RequestModel,
    i: int,
)
    requires
        sent_one(before, after, req),
    ensures
        after.talk().len() == before.talk().len() + 1,
        after.talk().last().0 == req,
        0 <= i < before.talk().len() ==> after.talk()[i] == before.talk()[i],
        after.wire() == before.wire(),
        after.shards() == before.shards(),
        after.generation() == before.generation(),
{
}

} // verus!
