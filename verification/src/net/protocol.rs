//! Wire protocol: framing and messages.
//!
//! Every message is a big-endian 32-bit length followed by that many bytes. The length is checked
//! against a cap before anything is allocated for it.

use vstd::prelude::*;

use super::auth::Role;
use crate::error::{Error, ErrorModel};
use crate::replication::stream::{stream_model, StreamTxn, StreamTxnModel};
use crate::storage::exec::{copy_bytes, rows_view, Datum, DbStatement, StatementModel, DbValue};
use crate::text::{decimal, push_decimal, views};

verus! {

/// Checked at the handshake, so that a mismatched peer is told exactly that.
pub const PROTOCOL_VERSION: u32 = 3;

/// Largest single message.
pub const MAX_FRAME_BYTES: usize = 16_777_216;

// ---- messages ----------------------------------------------------------------------------------

/// How fresh a read has to be.
#[derive(Clone, Copy, Debug, PartialEq, Eq, Structural)]
pub enum ReadConsistency {
    /// Any copy will do, however far behind.
    Stale,
    /// A copy that has applied at least this position.
    AtLeastLsn(u64),
    /// The shard's current leader.
    Linearizable,
}

impl Default for ReadConsistency {
    /// A caller that says nothing about freshness gets the strongest guarantee.
    fn default() -> (r: ReadConsistency)
        ensures
            r == ReadConsistency::Linearizable,
    {
        ReadConsistency::Linearizable
    }
}

#[allow(inconsistent_fields)]
#[derive(Debug)]
pub enum Request {
    /// First message on a connection.
    Hello { version: u32, client: String },
    /// Run a read against one shard.
    Query { shard: u32, statement: DbStatement, consistency: ReadConsistency },
    /// Run a read across every shard, merged.
    QueryAll { statement: DbStatement },
    /// Run one statement, routed by its shard key.
    Run { statement: DbStatement },
    /// Run a write against one shard.
    Execute { shard: u32, statements: Vec<DbStatement> },
    /// Apply a statement to every shard.
    ExecuteAll { statement: DbStatement },
    /// Apply statements as one atomic transaction on a shard.
    Transaction { shard: u32, statements: Vec<DbStatement> },
    /// Route a key to its shard.
    Route { key: Vec<u8> },
    /// Ask what this node is.
    Info,
    /// Stream committed frames of a shard from a position. The request is also the follower's
    /// acknowledgement of everything below it; node 0 counts toward no quorum.
    Subscribe { node: u64, shard: u32, epoch: u64, from_lsn: u64, max_txns: u32 },
    /// Begin a snapshot of a shard, freezing it.
    SnapshotBegin { shard: u32 },
    /// Read some bytes of the frozen snapshot.
    SnapshotRead { shard: u32, offset: u64, len: u32 },
    /// Release the freeze.
    SnapshotEnd { shard: u32 },
    /// Apply a schema change to one shard.
    SchemaApply { shard: u32, ddl: DbStatement },
    /// Handle this request here, without forwarding it on.
    Direct(Box<Request>),
    /// The answer to a challenge.
    Auth { name: String, proof: [u8; 32] },
    /// Create or replace a user; carries the derived key, never the secret.
    CreateUser { name: String, key: [u8; 32], role: Role },
    DropUser { name: String },
    ListUsers,
    /// A peer is standing for election; the message is the cluster's own.
    Vote(Vec<u8>),
    /// A peer claims leadership and renews its lease; the message is the cluster's own.
    Beat(Vec<u8>),
}

/// What a [`Request`] holds.
#[allow(inconsistent_fields)]
pub ghost enum RequestModel {
    Hello { version: u32, client: Seq<char> },
    Query { shard: u32, statement: StatementModel, consistency: ReadConsistency },
    QueryAll { statement: StatementModel },
    Run { statement: StatementModel },
    Execute { shard: u32, statements: Seq<StatementModel> },
    ExecuteAll { statement: StatementModel },
    Transaction { shard: u32, statements: Seq<StatementModel> },
    Route { key: Seq<u8> },
    Info,
    Subscribe { node: u64, shard: u32, epoch: u64, from_lsn: u64, max_txns: u32 },
    SnapshotBegin { shard: u32 },
    SnapshotRead { shard: u32, offset: u64, len: u32 },
    SnapshotEnd { shard: u32 },
    SchemaApply { shard: u32, ddl: StatementModel },
    Direct(Box<RequestModel>),
    Auth { name: Seq<char>, proof: Seq<u8> },
    CreateUser { name: Seq<char>, key: Seq<u8>, role: Role },
    DropUser { name: Seq<char> },
    ListUsers,
    Vote(Seq<u8>),
    Beat(Seq<u8>),
}

pub open spec fn statements_model(v: Seq<DbStatement>) -> Seq<StatementModel> {
    v.map_values(|s: DbStatement| s@)
}

impl Request {
    pub open spec fn model(self) -> RequestModel
        decreases self,
    {
        match self {
            Request::Hello { version, client } => RequestModel::Hello { version, client: client@ },
            Request::Query { shard, statement, consistency } => RequestModel::Query {
                shard,
                statement: statement@,
                consistency,
            },
            Request::QueryAll { statement } => RequestModel::QueryAll { statement: statement@ },
            Request::Run { statement } => RequestModel::Run { statement: statement@ },
            Request::Execute { shard, statements } => RequestModel::Execute {
                shard,
                statements: statements_model(statements@),
            },
            Request::ExecuteAll { statement } => RequestModel::ExecuteAll { statement: statement@ },
            Request::Transaction { shard, statements } => RequestModel::Transaction {
                shard,
                statements: statements_model(statements@),
            },
            Request::Route { key } => RequestModel::Route { key: key@ },
            Request::Info => RequestModel::Info,
            Request::Subscribe { node, shard, epoch, from_lsn, max_txns } => {
                RequestModel::Subscribe { node, shard, epoch, from_lsn, max_txns }
            },
            Request::SnapshotBegin { shard } => RequestModel::SnapshotBegin { shard },
            Request::SnapshotRead { shard, offset, len } => RequestModel::SnapshotRead {
                shard,
                offset,
                len,
            },
            Request::SnapshotEnd { shard } => RequestModel::SnapshotEnd { shard },
            Request::SchemaApply { shard, ddl } => RequestModel::SchemaApply { shard, ddl: ddl@ },
            Request::Direct(inner) => RequestModel::Direct(Box::new(inner.model())),
            Request::Auth { name, proof } => RequestModel::Auth { name: name@, proof: proof@ },
            Request::CreateUser { name, key, role } => RequestModel::CreateUser {
                name: name@,
                key: key@,
                role,
            },
            Request::DropUser { name } => RequestModel::DropUser { name: name@ },
            Request::ListUsers => RequestModel::ListUsers,
            Request::Vote(m) => RequestModel::Vote(m@),
            Request::Beat(m) => RequestModel::Beat(m@),
        }
    }

    /// The same request again.
    pub fn copy(&self) -> (r: Request)
        ensures
            r.model() == self.model(),
        decreases self,
    {
        match self {
            Request::Hello { version, client } => Request::Hello {
                version: *version,
                client: client.clone(),
            },
            Request::Query { shard, statement, consistency } => Request::Query {
                shard: *shard,
                statement: statement.copy(),
                consistency: *consistency,
            },
            Request::QueryAll { statement } => Request::QueryAll { statement: statement.copy() },
            Request::Run { statement } => Request::Run { statement: statement.copy() },
            Request::Execute { shard, statements } => Request::Execute {
                shard: *shard,
                statements: copy_statements(statements),
            },
            Request::ExecuteAll { statement } => Request::ExecuteAll {
                statement: statement.copy(),
            },
            Request::Transaction { shard, statements } => Request::Transaction {
                shard: *shard,
                statements: copy_statements(statements),
            },
            Request::Route { key } => Request::Route { key: copy_bytes(key) },
            Request::Info => Request::Info,
            Request::Subscribe { node, shard, epoch, from_lsn, max_txns } => Request::Subscribe {
                node: *node,
                shard: *shard,
                epoch: *epoch,
                from_lsn: *from_lsn,
                max_txns: *max_txns,
            },
            Request::SnapshotBegin { shard } => Request::SnapshotBegin { shard: *shard },
            Request::SnapshotRead { shard, offset, len } => Request::SnapshotRead {
                shard: *shard,
                offset: *offset,
                len: *len,
            },
            Request::SnapshotEnd { shard } => Request::SnapshotEnd { shard: *shard },
            Request::SchemaApply { shard, ddl } => Request::SchemaApply {
                shard: *shard,
                ddl: ddl.copy(),
            },
            Request::Direct(inner) => Request::Direct(Box::new(inner.copy())),
            Request::Auth { name, proof } => Request::Auth { name: name.clone(), proof: *proof },
            Request::CreateUser { name, key, role } => Request::CreateUser {
                name: name.clone(),
                key: *key,
                role: *role,
            },
            Request::DropUser { name } => Request::DropUser { name: name.clone() },
            Request::ListUsers => Request::ListUsers,
            Request::Vote(m) => Request::Vote(copy_bytes(m)),
            Request::Beat(m) => Request::Beat(copy_bytes(m)),
        }
    }
}

fn copy_statements(v: &Vec<DbStatement>) -> (r: Vec<DbStatement>)
    ensures
        statements_model(r@) == statements_model(v@),
{
    let ghost model = statements_model(v@);
    let mut out: Vec<DbStatement> = Vec::new();
    let mut i: usize = 0;
    assert(statements_model(out@) =~= model.take(0));
    while i < v.len()
        invariant
            i <= v@.len(),
            model == statements_model(v@),
            statements_model(out@) == model.take(i as int),
        decreases v@.len() - i,
    {
        let ghost before = out@;
        out.push(v[i].copy());
        proof {
            assert(statements_model(out@) =~= statements_model(before).push(model[i as int]));
            assert(model.take(i as int + 1) =~= model.take(i as int).push(model[i as int]));
        }
        i = i + 1;
    }
    assert(model.take(v@.len() as int) =~= model);
    out
}

#[allow(inconsistent_fields)]
#[derive(Debug)]
pub enum Response {
    Welcome { version: u32, shard_count: u32, epoch: Option<u64> },
    Rows { columns: Vec<String>, rows: Vec<Vec<DbValue>> },
    /// No copy on this node is fresh enough, and the leader could not be reached.
    TooStale { shard: u32, have: u64, need: u64 },
    Changed { rows_affected: u64, last_insert_rowid: i64 },
    /// Per-shard outcomes: there is no atomicity across shards.
    AllShards { outcomes: Vec<(u32, ShardOutcome)> },
    Routed { shard: u32 },
    Info { shard_count: u32, epoch: Option<u64>, wal_retries: u64, contended_opens: u64 },
    /// A batch of replication frames.
    Frames { shard: u32, epoch: u64, txns: Vec<StreamTxn> },
    /// The follower must start over from a snapshot.
    NeedsBootstrap { shard: u32, reason: String },
    /// The follower is level with the primary.
    UpToDate { shard: u32 },
    SnapshotInfo { shard: u32, epoch: u64, lsn: u64, total_bytes: u64 },
    /// Empty when the snapshot has been fully read.
    SnapshotChunk { data: Vec<u8> },
    /// Done, with nothing to return.
    Done,
    /// A write was buffered into an open transaction, not yet applied.
    Staged { queued: u64 },
    /// Authentication is required: answer this nonce.
    Challenge { nonce: [u8; 32] },
    /// Names and roles, never keys.
    Users { users: Vec<(String, Role)> },
    SchemaVersion { shard: u32, version: i64 },
    Voted(Vec<u8>),
    Beat(Vec<u8>),
    /// The statement was rejected: a result, not a transport failure.
    Rejected { message: String },
    /// The request failed; `retryable` tells backpressure from a fault.
    Error { message: String, retryable: bool },
}

/// What a [`Response`] holds.
#[allow(inconsistent_fields)]
pub ghost enum ResponseModel {
    Welcome { version: u32, shard_count: u32, epoch: Option<u64> },
    Rows { columns: Seq<Seq<char>>, rows: Seq<Seq<Datum>> },
    TooStale { shard: u32, have: u64, need: u64 },
    Changed { rows_affected: u64, last_insert_rowid: i64 },
    AllShards { outcomes: Seq<(u32, OutcomeModel)> },
    Routed { shard: u32 },
    Info { shard_count: u32, epoch: Option<u64>, wal_retries: u64, contended_opens: u64 },
    Frames { shard: u32, epoch: u64, txns: Seq<StreamTxnModel> },
    NeedsBootstrap { shard: u32, reason: Seq<char> },
    UpToDate { shard: u32 },
    SnapshotInfo { shard: u32, epoch: u64, lsn: u64, total_bytes: u64 },
    SnapshotChunk { data: Seq<u8> },
    Done,
    Staged { queued: u64 },
    Challenge { nonce: Seq<u8> },
    Users { users: Seq<(Seq<char>, Role)> },
    SchemaVersion { shard: u32, version: i64 },
    Voted(Seq<u8>),
    Beat(Seq<u8>),
    Rejected { message: Seq<char> },
    Error { message: Seq<char>, retryable: bool },
}

/// What became of a statement on one shard.
#[derive(Debug)]
pub enum ShardOutcome {
    Applied,
    Rejected(String),
}

/// What a [`ShardOutcome`] holds.
pub ghost enum OutcomeModel {
    Applied,
    Rejected(Seq<char>),
}

impl View for ShardOutcome {
    type V = OutcomeModel;

    open spec fn view(&self) -> OutcomeModel {
        match self {
            ShardOutcome::Applied => OutcomeModel::Applied,
            ShardOutcome::Rejected(m) => OutcomeModel::Rejected(m@),
        }
    }
}

pub open spec fn outcomes_model(v: Seq<(u32, ShardOutcome)>) -> Seq<(u32, OutcomeModel)> {
    v.map_values(|o: (u32, ShardOutcome)| (o.0, o.1@))
}

pub open spec fn users_model(v: Seq<(String, Role)>) -> Seq<(Seq<char>, Role)> {
    v.map_values(|u: (String, Role)| (u.0@, u.1))
}

impl View for Response {
    type V = ResponseModel;

    open spec fn view(&self) -> ResponseModel {
        match self {
            Response::Welcome { version, shard_count, epoch } => ResponseModel::Welcome {
                version: *version,
                shard_count: *shard_count,
                epoch: *epoch,
            },
            Response::Rows { columns, rows } => ResponseModel::Rows {
                columns: views(columns@),
                rows: rows_view(rows@),
            },
            Response::TooStale { shard, have, need } => ResponseModel::TooStale {
                shard: *shard,
                have: *have,
                need: *need,
            },
            Response::Changed { rows_affected, last_insert_rowid } => ResponseModel::Changed {
                rows_affected: *rows_affected,
                last_insert_rowid: *last_insert_rowid,
            },
            Response::AllShards { outcomes } => ResponseModel::AllShards {
                outcomes: outcomes_model(outcomes@),
            },
            Response::Routed { shard } => ResponseModel::Routed { shard: *shard },
            Response::Info { shard_count, epoch, wal_retries, contended_opens } => {
                ResponseModel::Info {
                    shard_count: *shard_count,
                    epoch: *epoch,
                    wal_retries: *wal_retries,
                    contended_opens: *contended_opens,
                }
            },
            Response::Frames { shard, epoch, txns } => ResponseModel::Frames {
                shard: *shard,
                epoch: *epoch,
                txns: stream_model(txns@),
            },
            Response::NeedsBootstrap { shard, reason } => ResponseModel::NeedsBootstrap {
                shard: *shard,
                reason: reason@,
            },
            Response::UpToDate { shard } => ResponseModel::UpToDate { shard: *shard },
            Response::SnapshotInfo { shard, epoch, lsn, total_bytes } => {
                ResponseModel::SnapshotInfo {
                    shard: *shard,
                    epoch: *epoch,
                    lsn: *lsn,
                    total_bytes: *total_bytes,
                }
            },
            Response::SnapshotChunk { data } => ResponseModel::SnapshotChunk { data: data@ },
            Response::Done => ResponseModel::Done,
            Response::Staged { queued } => ResponseModel::Staged { queued: *queued },
            Response::Challenge { nonce } => ResponseModel::Challenge { nonce: nonce@ },
            Response::Users { users } => ResponseModel::Users { users: users_model(users@) },
            Response::SchemaVersion { shard, version } => ResponseModel::SchemaVersion {
                shard: *shard,
                version: *version,
            },
            Response::Voted(m) => ResponseModel::Voted(m@),
            Response::Beat(m) => ResponseModel::Beat(m@),
            Response::Rejected { message } => ResponseModel::Rejected { message: message@ },
            Response::Error { message, retryable } => ResponseModel::Error {
                message: message@,
                retryable: *retryable,
            },
        }
    }
}

// ---- framing -----------------------------------------------------------------------------------

/// A 32-bit number as four bytes, the highest first.
pub open spec fn be32(n: u32) -> Seq<u8> {
    seq![
        (n / 16_777_216) as u8,
        ((n / 65_536) % 256) as u8,
        ((n / 256) % 256) as u8,
        (n % 256) as u8,
    ]
}

/// The number that four bytes write, the highest first.
pub open spec fn from_be32(s: Seq<u8>) -> nat {
    (s[0] * 16_777_216 + s[1] * 65_536 + s[2] * 256 + s[3]) as nat
}

pub proof fn lemma_be32_reads_back(n: u32)
    ensures
        from_be32(be32(n)) == n,
{
    let a = n / 16_777_216;
    let b = (n / 65_536) % 256;
    let c = (n / 256) % 256;
    let d = n % 256;
    assert(a <= 255);
    assert(a * 16_777_216 + b * 65_536 + c * 256 + d == n);
}

/// A message as it goes over the wire.
pub open spec fn framed(body: Seq<u8>) -> Seq<u8> {
    be32(body.len() as u32) + body
}

pub open spec fn too_long_refusal(len: nat) -> Seq<char> {
    "message of "@ + decimal(len) + " bytes exceeds the "@ + decimal(MAX_FRAME_BYTES as nat)
        + " byte limit"@
}

pub open spec fn announced_refusal(len: nat) -> Seq<char> {
    "peer announced a "@ + decimal(len) + " byte message, over the "@ + decimal(
        MAX_FRAME_BYTES as nat,
    ) + " byte limit"@
}

/// Puts the length before an encoded message. One over the limit is refused.
pub fn write_message(body: &Vec<u8>) -> (r: Result<Vec<u8>, Error>)
    ensures
        if body@.len() > MAX_FRAME_BYTES {
            r matches Err(e) && e@ == ErrorModel::Protocol(too_long_refusal(body@.len()))
        } else {
            r matches Ok(bytes) && bytes@ == framed(body@)
        },
{
    if body.len() > MAX_FRAME_BYTES {
        let mut m = "message of ".to_owned();
        push_decimal(&mut m, body.len() as u64);
        m.append(" bytes exceeds the ");
        push_decimal(&mut m, MAX_FRAME_BYTES as u64);
        m.append(" byte limit");
        return Err(Error::Protocol(m));
    }
    let n: u32 = body.len() as u32;
    let mut out: Vec<u8> = Vec::with_capacity(4 + body.len());
    out.push((n / 16_777_216) as u8);
    out.push(((n / 65_536) % 256) as u8);
    out.push(((n / 256) % 256) as u8);
    out.push((n % 256) as u8);
    assert(out@ =~= be32(n));
    let mut copy = copy_bytes(body);
    out.append(&mut copy);
    assert(out@ =~= framed(body@));
    Ok(out)
}

/// The length that a message's first four bytes announce; one over the limit is refused before
/// anything is allocated for it.
pub fn frame_length(header: [u8; 4]) -> (r: Result<usize, Error>)
    ensures
        if from_be32(header@) > MAX_FRAME_BYTES {
            r matches Err(e) && e@ == ErrorModel::Protocol(announced_refusal(from_be32(header@)))
        } else {
            r == Ok::<usize, Error>(from_be32(header@) as usize)
        },
{
    let len: u64 = header[0] as u64 * 16_777_216 + header[1] as u64 * 65_536 + header[2] as u64
        * 256 + header[3] as u64;
    if len > MAX_FRAME_BYTES as u64 {
        let mut m = "peer announced a ".to_owned();
        push_decimal(&mut m, len);
        m.append(" byte message, over the ");
        push_decimal(&mut m, MAX_FRAME_BYTES as u64);
        m.append(" byte limit");
        return Err(Error::Protocol(m));
    }
    Ok(len as usize)
}

/// What reading a message from a stream of bytes comes to: its body, or why there is none.
pub open spec fn read_frame(bytes: Seq<u8>) -> Result<Seq<u8>, Seq<char>> {
    if bytes.len() < 4 {
        Err("reading length: failed to fill whole buffer"@)
    } else {
        let len = from_be32(bytes.take(4));
        if len > MAX_FRAME_BYTES {
            Err(announced_refusal(len))
        } else if bytes.len() < 4 + len {
            Err("reading body: failed to fill whole buffer"@)
        } else {
            Ok(bytes.subrange(4, 4 + len as int))
        }
    }
}

/// Takes the body of the first message out of received bytes. Bytes that end too soon are an
/// error.
pub fn read_message(bytes: &Vec<u8>) -> (r: Result<Vec<u8>, Error>)
    ensures
        match read_frame(bytes@) {
            Ok(body) => r matches Ok(b) && b@ == body,
            Err(m) => r matches Err(e) && e@ == ErrorModel::Protocol(m),
        },
{
    if bytes.len() < 4 {
        return Err(Error::Protocol("reading length: failed to fill whole buffer".to_owned()));
    }
    let header: [u8; 4] = [bytes[0], bytes[1], bytes[2], bytes[3]];
    assert(header@ =~= bytes@.take(4));
    let len: usize = match frame_length(header) {
        Ok(n) => n,
        Err(e) => {
            return Err(e);
        },
    };
    if bytes.len() - 4 < len {
        return Err(Error::Protocol("reading body: failed to fill whole buffer".to_owned()));
    }
    let mut body: Vec<u8> = Vec::with_capacity(len);
    let mut i: usize = 0;
    while i < len
        invariant
            i <= len,
            4 + len <= bytes.len(),
            bytes.len() == bytes@.len(),
            body@ == bytes@.subrange(4, 4 + i as int),
        decreases len - i,
    {
        body.push(bytes[4 + i]);
        assert(bytes@.subrange(4, 4 + i as int + 1) =~= bytes@.subrange(4, 4 + i as int).push(
            bytes@[4 + i as int],
        ));
        i = i + 1;
    }
    Ok(body)
}

// ---- laws --------------------------------------------------------------------------------------

/// A message that is sent is the message that is received, whatever follows it.
pub proof fn law_frames_read_back(body: Seq<u8>, rest: Seq<u8>)
    requires
        body.len() <= MAX_FRAME_BYTES,
    ensures
        read_frame(framed(body) + rest) == Ok::<Seq<u8>, Seq<char>>(body),
{
    let n = body.len() as u32;
    lemma_be32_reads_back(n);
    let bytes = framed(body) + rest;
    assert(bytes.take(4) =~= be32(n));
    assert(bytes.subrange(4, 4 + body.len() as int) =~= body);
}

/// A message cut short is an error.
pub proof fn law_cut_frames_are_errors(body: Seq<u8>, n: int)
    requires
        body.len() <= MAX_FRAME_BYTES,
        0 <= n < framed(body).len(),
    ensures
        read_frame(framed(body).take(n)) is Err,
{
    let len = body.len() as u32;
    lemma_be32_reads_back(len);
    if n >= 4 {
        assert(framed(body).take(n).take(4) =~= be32(len));
    }
}

} // verus!
