//! What a node makes of a request.
//!
//! [`handle`] decides where a request is handled: here, on the node that owns its shard, or nowhere
//! yet. [`handle_local`] answers what the node's own state can answer and leaves the rest, as a
//! [`Local::Carry`], to the databases; each such answer has a function here that makes a response
//! of it.

use vstd::prelude::*;

use super::auth::{
    AuthConfig, law_created_user_is_found, law_dropped_user_is_gone, Role, sorted, UserModel,
    user_named, users_text, valid_name, with_user, without_user,
};
use super::forward::Router;
use super::protocol::{
    MAX_FRAME_BYTES, OutcomeModel, outcomes_model, PROTOCOL_VERSION, ReadConsistency, Request,
    RequestModel, Response, ResponseModel, ShardOutcome,
};
use super::session::{refusal, refuse};
use crate::calls::{goes_on, lemma_added, since, Line};
use crate::error::{Error, ErrorModel};
use crate::replication::ack::{AckModel, AckTracker, reported};
use crate::replication::follower::{Follower, position_in};
use crate::replication::log::{answer, FrameLog, LogModel, Served, ServedModel};
use crate::shard::id::ShardId;
use crate::shard::mode::ShardMode;
use crate::storage::exec::{
    Executed, Outcome, OutcomeView, outcomes_view, QueryResult, DbStatement, StatementModel,
};
use crate::text::{decimal, push_decimal};

verus! {

// ---- configuration and counts ------------------------------------------------------------------

#[derive(Debug)]
pub struct ServerConfig {
    pub addr: String,
    /// The most connections at a time: the bound at which load is shed.
    pub max_connections: usize,
    /// How long a connection may sit idle before it is closed.
    pub idle_timeout_secs: u64,
}

impl Default for ServerConfig {
    fn default() -> (r: ServerConfig)
        ensures
            r.addr@ == "127.0.0.1:4600"@,
            r.max_connections == 256,
            r.idle_timeout_secs == 300,
    {
        ServerConfig {
            addr: "127.0.0.1:4600".to_owned(),
            max_connections: 256,
            idle_timeout_secs: 300,
        }
    }
}

#[derive(Clone, Copy, Debug, PartialEq, Eq, Structural)]
pub struct ServerStats {
    pub accepted: u64,
    /// Connections turned away because the cap was reached.
    pub refused_at_capacity: u64,
    pub requests: u64,
    pub errors: u64,
    /// Failed authentication attempts.
    pub auth_failures: u64,
    /// Requests that the authenticated role does not permit.
    pub authz_refused: u64,
    /// Snapshot freezes released because the connection that held them went away.
    pub abandoned_freezes: u64,
    pub live: usize,
}

impl Default for ServerStats {
    fn default() -> (r: ServerStats)
        ensures
            r == (ServerStats {
                accepted: 0,
                refused_at_capacity: 0,
                requests: 0,
                errors: 0,
                auth_failures: 0,
                authz_refused: 0,
                abandoned_freezes: 0,
                live: 0,
            }),
    {
        ServerStats {
            accepted: 0,
            refused_at_capacity: 0,
            requests: 0,
            errors: 0,
            auth_failures: 0,
            authz_refused: 0,
            abandoned_freezes: 0,
            live: 0,
        }
    }
}

impl ServerStats {
    /// Lets a connection in, or gives what it is turned away with: at the cap it is refused rather
    /// than left to wait.
    pub fn accept(&mut self, cfg: &ServerConfig) -> (r: Option<Response>)
        ensures
            if old(self).live >= cfg.max_connections {
                &&& r matches Some(x) && x@ == (ResponseModel::Error {
                    message: (ErrorModel::TooManyConnections {
                        current: old(self).live,
                        limit: cfg.max_connections,
                    }).message(),
                    retryable: true,
                })
                &&& *final(self) == (ServerStats {
                    refused_at_capacity: old(self).refused_at_capacity.wrapping_add(1),
                    ..*old(self)
                })
            } else {
                &&& r is None
                &&& *final(self) == (ServerStats {
                    live: (old(self).live + 1) as usize,
                    accepted: old(self).accepted.wrapping_add(1),
                    ..*old(self)
                })
            },
    {
        if self.live >= cfg.max_connections {
            self.refused_at_capacity = self.refused_at_capacity.wrapping_add(1);
            let e = Error::TooManyConnections { current: self.live, limit: cfg.max_connections };
            return Some(Response::Error { message: e.to_text(), retryable: true });
        }
        self.live = self.live + 1;
        self.accepted = self.accepted.wrapping_add(1);
        None
    }

    /// A connection that was let in has ended, still holding this many snapshot freezes.
    pub fn end(&mut self, held: usize)
        requires
            old(self).live > 0,
        ensures
            *final(self) == (ServerStats {
                live: (old(self).live - 1) as usize,
                abandoned_freezes: old(self).abandoned_freezes.wrapping_add(held as u64),
                ..*old(self)
            }),
    {
        self.live = self.live - 1;
        self.abandoned_freezes = self.abandoned_freezes.wrapping_add(held as u64);
    }

    /// A request has arrived.
    pub fn request(&mut self)
        ensures
            *final(self) == (ServerStats {
                requests: old(self).requests.wrapping_add(1),
                ..*old(self)
            }),
    {
        self.requests = self.requests.wrapping_add(1);
    }

    /// A request has been answered.
    pub fn answered(&mut self, answer: &Response)
        ensures
            *final(self) == (ServerStats {
                errors: if answer@ is Error {
                    old(self).errors.wrapping_add(1)
                } else {
                    old(self).errors
                },
                ..*old(self)
            }),
    {
        match answer {
            Response::Error { .. } => {
                self.errors = self.errors.wrapping_add(1);
            },
            _ => {},
        }
    }
}

// ---- the node ----------------------------------------------------------------------------------

/// What a node says of itself.
#[derive(Clone, Copy, Debug, PartialEq, Eq, Structural)]
pub struct NodeFacts {
    pub shard_count: u32,
    /// The generation of its stream, if it captures frames.
    pub epoch: Option<u64>,
    pub wal_retries: u64,
    pub contended_opens: u64,
}

/// What a node is for one shard, and how far it has written that shard itself.
#[derive(Clone, Copy, Debug, PartialEq, Eq, Structural)]
pub struct Standing {
    pub mode: ShardMode,
    pub last_lsn: u64,
}

/// What a node may be capable of beyond serving queries.
#[derive(Debug)]
pub struct NodeServices {
    /// Recent frames, so that a follower a little behind can resume.
    pub frames: Option<FrameLog>,
    /// Whether this node takes part in elections.
    pub member: bool,
    /// Quorum confirmation.
    pub acks: Option<AckTracker>,
    /// This node's replicated copies.
    pub follower: Option<Follower>,
    /// Sends shard work to the node that owns it.
    pub router: Option<Router>,
    /// Who may connect and what they may do; nobody listed means that the server is open.
    pub auth: Option<AuthConfig>,
}

impl NodeServices {
    /// A node of its own: it serves queries and nothing else.
    pub fn standalone() -> (r: NodeServices)
        ensures
            r.wf(),
            r@ == (ServicesModel { frames: None, member: false, acks: None, users: None }),
            r.follower is None,
            r.router is None,
    {
        NodeServices {
            frames: None,
            member: false,
            acks: None,
            follower: None,
            router: None,
            auth: None,
        }
    }

    pub open spec fn wf(&self) -> bool {
        &&& (self.frames matches Some(f) ==> f.wf())
        &&& (self.acks matches Some(a) ==> a.wf())
        &&& (self.follower matches Some(f) ==> f.wf())
        &&& (self.router matches Some(x) ==> x.wf())
    }

    /// Whether anyone may connect, and may do everything.
    pub fn is_open(&self) -> (r: bool)
        ensures
            r == (self.auth matches Some(a) ==> a@.len() == 0),
    {
        match &self.auth {
            Some(auth) => auth.is_empty(),
            None => true,
        }
    }
}

/// What a node's services hold that an answer may depend on or change.
pub ghost struct ServicesModel {
    pub frames: Option<LogModel>,
    pub member: bool,
    pub acks: Option<AckModel>,
    /// The users, and whether they are kept in a file.
    pub users: Option<(Seq<UserModel>, bool)>,
}

impl View for NodeServices {
    type V = ServicesModel;

    open spec fn view(&self) -> ServicesModel {
        ServicesModel {
            frames: match self.frames {
                Some(f) => Some(f@),
                None => None,
            },
            member: self.member,
            acks: match self.acks {
                Some(a) => Some(a@),
                None => None,
            },
            users: match self.auth {
                Some(a) => Some((a@, a.file() is Some)),
                None => None,
            },
        }
    }
}

// ---- where a request is handled ----------------------------------------------------------------

/// How far this node's own copy of a shard has got: what it has written itself where it leads, what
/// it has durably applied where it follows.
pub open spec fn position_of(standing: Standing, follower: Option<Follower>, shard: ShardId) -> u64 {
    match standing.mode {
        ShardMode::Led => standing.last_lsn,
        ShardMode::Followed => match follower {
            Some(f) => position_in(f@, shard).applied_lsn,
            None => 0,
        },
    }
}

/// How far this node's own copy of a shard has got.
pub fn local_position(shard: ShardId, standing: Standing, services: &NodeServices) -> (r: u64)
    requires
        services.wf(),
    ensures
        r == position_of(standing, services.follower, shard),
{
    match standing.mode {
        ShardMode::Led => standing.last_lsn,
        ShardMode::Followed => match &services.follower {
            Some(f) => f.position(shard).applied_lsn,
            None => 0,
        },
    }
}

/// Whether a copy that has got this far meets the freshness asked for. A node that leads the shard
/// holds every acknowledged write. One that does not, and has applied nothing, holds no copy.
pub open spec fn fresh_enough(mode: ShardMode, have: u64, consistency: ReadConsistency) -> bool {
    mode == ShardMode::Led || have > 0 && match consistency {
        ReadConsistency::Linearizable => false,
        ReadConsistency::Stale => true,
        ReadConsistency::AtLeastLsn(n) => have >= n,
    }
}

/// Whether this node may answer a read itself, given the freshness asked for.
pub fn can_serve_read(
    shard: ShardId,
    consistency: ReadConsistency,
    standing: Standing,
    services: &NodeServices,
) -> (r: bool)
    requires
        services.wf(),
    ensures
        r == fresh_enough(
            standing.mode,
            position_of(standing, services.follower, shard),
            consistency,
        ),
{
    match standing.mode {
        ShardMode::Led => true,
        ShardMode::Followed => {
            let have: u64 = local_position(shard, standing, services);
            if have == 0 {
                return false;
            }
            match consistency {
                ReadConsistency::Linearizable => false,
                ReadConsistency::Stale => true,
                ReadConsistency::AtLeastLsn(n) => have >= n,
            }
        },
    }
}

/// The shard a request is about, if it is about one.
pub open spec fn shard_of(req: RequestModel) -> Option<ShardId> {
    match req {
        RequestModel::Query { shard, .. } => Some(ShardId(shard)),
        RequestModel::Execute { shard, .. } => Some(ShardId(shard)),
        RequestModel::Transaction { shard, .. } => Some(ShardId(shard)),
        RequestModel::SchemaApply { shard, .. } => Some(ShardId(shard)),
        _ => None,
    }
}

/// The shard a request is about, if it is about one.
pub fn target_shard(req: &Request) -> (r: Option<ShardId>)
    ensures
        r == shard_of(req.model()),
{
    match req {
        Request::Query { shard, .. } => Some(ShardId(*shard)),
        Request::Execute { shard, .. } => Some(ShardId(*shard)),
        Request::Transaction { shard, .. } => Some(ShardId(*shard)),
        Request::SchemaApply { shard, .. } => Some(ShardId(*shard)),
        _ => None,
    }
}

/// Where a request is handled.
#[derive(Debug)]
pub enum Handling {
    /// On this node.
    Here(Request),
    /// On the node that owns the shard.
    There(ShardId, Request),
    /// Nowhere; here is the answer.
    Refused(Response),
}

pub ghost enum HandlingModel {
    Here(RequestModel),
    There(ShardId, RequestModel),
    Refused(ResponseModel),
}

impl Handling {
    pub open spec fn model(self) -> HandlingModel {
        match self {
            Handling::Here(q) => HandlingModel::Here(q.model()),
            Handling::There(shard, q) => HandlingModel::There(shard, q.model()),
            Handling::Refused(r) => HandlingModel::Refused(r@),
        }
    }
}

/// The answer to a read that no copy here is fresh enough for.
pub open spec fn stale(shard: u32, have: u64, consistency: ReadConsistency) -> ResponseModel {
    ResponseModel::TooStale {
        shard,
        have,
        need: match consistency {
            ReadConsistency::AtLeastLsn(n) => n,
            _ => 0,
        },
    }
}

/// Whether a shard's work belongs to another node.
pub open spec fn elsewhere(router: Option<Router>, shard: ShardId) -> bool {
    router matches Some(x) && !x.mine(shard)
}

/// Where a request goes by ownership alone.
pub open spec fn owned(req: RequestModel, router: Option<Router>) -> HandlingModel {
    match shard_of(req) {
        Some(shard) => if elsewhere(router, shard) {
            HandlingModel::There(shard, req)
        } else {
            HandlingModel::Here(req)
        },
        None => HandlingModel::Here(req),
    }
}

/// Where a request is handled. One that was forwarded is handled here. A read is answered here if a
/// copy here is fresh enough; if not, and there is nowhere to send it, it is refused. What is left
/// goes to the node that owns its shard.
pub open spec fn handling(
    req: RequestModel,
    standing: Standing,
    follower: Option<Follower>,
    router: Option<Router>,
) -> HandlingModel {
    match req {
        RequestModel::Direct(inner) => HandlingModel::Here(*inner),
        RequestModel::Query { shard, consistency, .. } => {
            let have = position_of(standing, follower, ShardId(shard));
            if fresh_enough(standing.mode, have, consistency) {
                HandlingModel::Here(req)
            } else if router is None {
                HandlingModel::Refused(stale(shard, have, consistency))
            } else {
                owned(req, router)
            }
        },
        _ => owned(req, router),
    }
}

/// Decides where a request is handled. `standing` is what this node is for the shard that the
/// request is about.
pub fn handle(req: Request, standing: Standing, services: &NodeServices) -> (r: Handling)
    requires
        services.wf(),
    ensures
        r.model() == handling(req.model(), standing, services.follower, services.router),
{
    let ghost asked = req.model();
    let req = match req {
        Request::Direct(inner) => {
            let inner = *inner;
            assert(asked == RequestModel::Direct(Box::new(inner.model())));
            return Handling::Here(inner);
        },
        other => other,
    };
    match &req {
        Request::Query { shard, consistency, .. } => {
            let id = ShardId(*shard);
            if can_serve_read(id, *consistency, standing, services) {
                return Handling::Here(req);
            }
            if services.router.is_none() {
                return Handling::Refused(
                    Response::TooStale {
                        shard: *shard,
                        have: local_position(id, standing, services),
                        need: match *consistency {
                            ReadConsistency::AtLeastLsn(n) => n,
                            _ => 0,
                        },
                    },
                );
            }
        },
        _ => {},
    }
    match (&services.router, target_shard(&req)) {
        (Some(router), Some(shard)) => {
            if !router.is_mine(shard) {
                return Handling::There(shard, req);
            }
        },
        _ => {},
    }
    Handling::Here(req)
}

// ---- answers -----------------------------------------------------------------------------------

/// A failure as it is answered: backpressure is told from a fault.
pub open spec fn failed(e: ErrorModel) -> ResponseModel {
    ResponseModel::Error { message: e.message(), retryable: e.retryable() }
}

/// Answers a failure.
pub fn error_response(e: Error) -> (r: Response)
    ensures
        r@ == failed(e@),
{
    Response::Error { message: e.to_text(), retryable: e.is_retryable() }
}

pub open spec fn outcome_response(o: OutcomeView) -> ResponseModel {
    match o {
        OutcomeView::Rows(t) => ResponseModel::Rows { columns: t.columns, rows: t.rows },
        OutcomeView::Changed(w) => ResponseModel::Changed {
            rows_affected: w.rows_affected,
            last_insert_rowid: w.last_insert_rowid,
        },
        OutcomeView::Rejected(message) => ResponseModel::Rejected { message },
    }
}

/// Answers with what became of a statement.
pub fn outcome_to_response(o: Outcome) -> (r: Response)
    ensures
        r@ == outcome_response(o@),
{
    match o {
        Outcome::Ran(Executed::Rows(t)) => Response::Rows { columns: t.columns, rows: t.rows },
        Outcome::Ran(Executed::Changed(w)) => Response::Changed {
            rows_affected: w.rows_affected,
            last_insert_rowid: w.last_insert_rowid,
        },
        Outcome::Rejected(message) => Response::Rejected { message },
    }
}

/// Answers a read on one shard, or a routed statement.
pub fn query_reply(done: Result<Outcome, Error>) -> (r: Response)
    ensures
        match done {
            Ok(o) => r@ == outcome_response(o@),
            Err(e) => r@ == failed(e@),
        },
{
    match done {
        Ok(o) => outcome_to_response(o),
        Err(e) => error_response(e),
    }
}

/// Answers a read across shards.
pub fn query_all_reply(done: Result<QueryResult, Error>) -> (r: Response)
    ensures
        match done {
            Ok(t) => r@ == (ResponseModel::Rows { columns: t@.columns, rows: t@.rows }),
            Err(e) => r@ == failed(e@),
        },
{
    match done {
        Ok(t) => Response::Rows { columns: t.columns, rows: t.rows },
        Err(e) => error_response(e),
    }
}

/// The first rejection from a place on.
pub open spec fn rejection_from(outcomes: Seq<OutcomeView>, i: int) -> Option<Seq<char>>
    decreases outcomes.len() - i,
{
    if i < 0 || i >= outcomes.len() {
        None
    } else {
        match outcomes[i] {
            OutcomeView::Rejected(m) => Some(m),
            _ => rejection_from(outcomes, i + 1),
        }
    }
}

/// The rows that some statements changed in all, as far as a 64-bit count goes.
pub open spec fn rows_changed(outcomes: Seq<OutcomeView>) -> u64
    decreases outcomes.len(),
{
    if outcomes.len() == 0 {
        0
    } else {
        let before = rows_changed(outcomes.drop_last());
        match outcomes.last() {
            OutcomeView::Changed(w) => before.wrapping_add(w.rows_affected),
            _ => before,
        }
    }
}

/// The row that the last of the writes inserted.
pub open spec fn last_rowid(outcomes: Seq<OutcomeView>) -> i64
    decreases outcomes.len(),
{
    if outcomes.len() == 0 {
        0
    } else {
        match outcomes.last() {
            OutcomeView::Changed(w) => w.last_insert_rowid,
            _ => last_rowid(outcomes.drop_last()),
        }
    }
}

fn first_rejection(outcomes: &Vec<Outcome>) -> (r: Option<&String>)
    ensures
        match rejection_from(outcomes_view(outcomes@), 0) {
            Some(m) => r matches Some(s) && s@ == m,
            None => r is None,
        },
{
    let ghost model = outcomes_view(outcomes@);
    let mut i: usize = 0;
    while i < outcomes.len()
        invariant
            i <= outcomes@.len(),
            model == outcomes_view(outcomes@),
            rejection_from(model, 0) == rejection_from(model, i as int),
        decreases outcomes@.len() - i,
    {
        assert(model[i as int] == outcomes@[i as int]@);
        match &outcomes[i] {
            Outcome::Rejected(m) => {
                return Some(m);
            },
            _ => {},
        }
        i = i + 1;
    }
    None
}

/// The answer to a `COMMIT`. One rejection voids the whole transaction.
pub open spec fn transaction_response(outcomes: Seq<OutcomeView>) -> ResponseModel {
    match rejection_from(outcomes, 0) {
        Some(m) => refusal(m),
        None => ResponseModel::Changed {
            rows_affected: rows_changed(outcomes),
            last_insert_rowid: last_rowid(outcomes),
        },
    }
}

/// Answers the `COMMIT` of a transaction.
pub fn transaction_reply(done: Result<Vec<Outcome>, Error>) -> (r: Response)
    ensures
        match done {
            Ok(outcomes) => r@ == transaction_response(outcomes_view(outcomes@)),
            Err(e) => r@ == failed(e@),
        },
{
    let outcomes = match done {
        Ok(outcomes) => outcomes,
        Err(e) => {
            return error_response(e);
        },
    };
    match first_rejection(&outcomes) {
        Some(m) => {
            return refuse(m.as_str());
        },
        None => {},
    }
    let ghost model = outcomes_view(outcomes@);
    let mut rows: u64 = 0;
    let mut last: i64 = 0;
    let mut i: usize = 0;
    while i < outcomes.len()
        invariant
            i <= outcomes@.len(),
            model == outcomes_view(outcomes@),
            rows == rows_changed(model.take(i as int)),
            last == last_rowid(model.take(i as int)),
        decreases outcomes@.len() - i,
    {
        proof {
            assert(model.take(i as int + 1).drop_last() =~= model.take(i as int));
            assert(model.take(i as int + 1).last() == outcomes@[i as int]@);
        }
        match &outcomes[i] {
            Outcome::Ran(Executed::Changed(w)) => {
                rows = rows.wrapping_add(w.rows_affected);
                last = w.last_insert_rowid;
            },
            _ => {},
        }
        i = i + 1;
    }
    assert(model.take(outcomes@.len() as int) =~= model);
    Response::Changed { rows_affected: rows, last_insert_rowid: last }
}

/// The answer to a batch of independent statements: the first rejection, so that nobody is told of
/// a success where part of the batch failed, or else the last outcome.
pub open spec fn execute_response(outcomes: Seq<OutcomeView>) -> ResponseModel {
    match rejection_from(outcomes, 0) {
        Some(message) => ResponseModel::Rejected { message },
        None => if outcomes.len() == 0 {
            ResponseModel::Changed { rows_affected: 0, last_insert_rowid: 0 }
        } else {
            outcome_response(outcomes.last())
        },
    }
}

/// Answers a batch of independent statements.
pub fn execute_reply(done: Result<Vec<Outcome>, Error>) -> (r: Response)
    ensures
        match done {
            Ok(outcomes) => r@ == execute_response(outcomes_view(outcomes@)),
            Err(e) => r@ == failed(e@),
        },
{
    let mut outcomes = match done {
        Ok(outcomes) => outcomes,
        Err(e) => {
            return error_response(e);
        },
    };
    let ghost model = outcomes_view(outcomes@);
    match first_rejection(&outcomes) {
        Some(m) => {
            return Response::Rejected { message: m.clone() };
        },
        None => {},
    }
    proof {
        if outcomes@.len() > 0 {
            assert(model.last() == outcomes@.last()@);
        }
    }
    match outcomes.pop() {
        Some(o) => outcome_to_response(o),
        None => Response::Changed { rows_affected: 0, last_insert_rowid: 0 },
    }
}

/// Answers a schema change on one shard, given the version it led to.
pub fn schema_reply(shard: u32, done: Result<i64, Error>) -> (r: Response)
    ensures
        match done {
            Ok(version) => r@ == (ResponseModel::SchemaVersion { shard, version }),
            Err(e) => r@ == failed(e@),
        },
{
    match done {
        Ok(version) => Response::SchemaVersion { shard, version },
        Err(e) => error_response(e),
    }
}

/// What taking a snapshot came to.
#[derive(Debug)]
pub enum SnapshotTaken {
    /// The shard is frozen, at a position, in a file of so many bytes.
    Frozen { epoch: u64, lsn: u64, total_bytes: u64 },
    /// The shard is frozen, and its file could not be sized: the reason.
    Unsized(String),
    /// The shard could not be frozen.
    Failed(Error),
}

/// Answers the beginning of a snapshot; says as well whether the freeze is to be released again,
/// since nobody is going to read that snapshot.
pub fn snapshot_begin_reply(shard: u32, taken: SnapshotTaken) -> (r: (Response, bool))
    ensures
        match taken {
            SnapshotTaken::Frozen { epoch, lsn, total_bytes } => r.0@
                == (ResponseModel::SnapshotInfo { shard, epoch, lsn, total_bytes }) && !r.1,
            SnapshotTaken::Unsized(why) => r.0@ == failed(
                ErrorModel::Protocol("sizing snapshot: "@ + why@),
            ) && r.1,
            SnapshotTaken::Failed(e) => r.0@ == failed(e@) && !r.1,
        },
{
    match taken {
        SnapshotTaken::Frozen { epoch, lsn, total_bytes } => (
            Response::SnapshotInfo { shard, epoch, lsn, total_bytes },
            false,
        ),
        SnapshotTaken::Unsized(why) => {
            let mut m = "sizing snapshot: ".to_owned();
            m.append(why.as_str());
            (error_response(Error::Protocol(m)), true)
        },
        SnapshotTaken::Failed(e) => (error_response(e), false),
    }
}

/// Answers a read of a snapshot.
pub fn snapshot_read_reply(done: Result<Vec<u8>, Error>) -> (r: Response)
    ensures
        match done {
            Ok(data) => r@ == (ResponseModel::SnapshotChunk { data: data@ }),
            Err(e) => r@ == failed(e@),
        },
{
    match done {
        Ok(data) => Response::SnapshotChunk { data },
        Err(e) => error_response(e),
    }
}

pub open spec fn invalidated(shard: u32) -> ResponseModel {
    ResponseModel::Error {
        message: "the snapshot of shard_"@ + decimal(shard as nat)
            + " was invalidated while it was being read;                      retake it"@,
        retryable: true,
    }
}

/// Answers the end of a snapshot, given whether it stayed whole until then.
pub fn snapshot_end_reply(shard: u32, done: Result<bool, Error>) -> (r: Response)
    ensures
        match done {
            Ok(true) => r@ == ResponseModel::Done,
            Ok(false) => r@ == invalidated(shard),
            Err(e) => r@ == failed(e@),
        },
{
    match done {
        Ok(true) => Response::Done,
        Ok(false) => {
            let mut m = "the snapshot of shard_".to_owned();
            push_decimal(&mut m, shard as u64);
            m.append(" was invalidated while it was being read;                      retake it");
            Response::Error { message: m, retryable: true }
        },
        Err(e) => error_response(e),
    }
}

/// Answers a vote request.
pub fn vote_reply(done: Result<Vec<u8>, Error>) -> (r: Response)
    ensures
        match done {
            Ok(reply) => r@ == ResponseModel::Voted(reply@),
            Err(e) => r@ == failed(e@),
        },
{
    match done {
        Ok(reply) => Response::Voted(reply),
        Err(e) => error_response(e),
    }
}

/// Answers a heartbeat.
pub fn beat_reply(done: Result<Vec<u8>, Error>) -> (r: Response)
    ensures
        match done {
            Ok(reply) => r@ == ResponseModel::Beat(reply@),
            Err(e) => r@ == failed(e@),
        },
{
    match done {
        Ok(reply) => Response::Beat(reply),
        Err(e) => error_response(e),
    }
}

// ---- a schema change on every shard ------------------------------------------------------------

pub open spec fn kind(r: ResponseModel) -> Seq<char> {
    match r {
        ResponseModel::Welcome { .. } => "Welcome"@,
        ResponseModel::Rows { .. } => "Rows"@,
        ResponseModel::TooStale { .. } => "TooStale"@,
        ResponseModel::Changed { .. } => "Changed"@,
        ResponseModel::AllShards { .. } => "AllShards"@,
        ResponseModel::Routed { .. } => "Routed"@,
        ResponseModel::Info { .. } => "Info"@,
        ResponseModel::Frames { .. } => "Frames"@,
        ResponseModel::NeedsBootstrap { .. } => "NeedsBootstrap"@,
        ResponseModel::UpToDate { .. } => "UpToDate"@,
        ResponseModel::SnapshotInfo { .. } => "SnapshotInfo"@,
        ResponseModel::SnapshotChunk { .. } => "SnapshotChunk"@,
        ResponseModel::Done => "Ok"@,
        ResponseModel::Staged { .. } => "Staged"@,
        ResponseModel::Challenge { .. } => "Challenge"@,
        ResponseModel::Users { .. } => "Users"@,
        ResponseModel::SchemaVersion { .. } => "SchemaVersion"@,
        ResponseModel::Voted(_) => "Voted"@,
        ResponseModel::Beat(_) => "Beat"@,
        ResponseModel::Rejected { .. } => "Rejected"@,
        ResponseModel::Error { .. } => "Error"@,
    }
}

/// The name of a response's kind, for a message about one that was not expected.
pub fn response_kind(r: &Response) -> (name: &'static str)
    ensures
        name@ == kind(r@),
{
    match r {
        Response::Welcome { .. } => "Welcome",
        Response::Rows { .. } => "Rows",
        Response::TooStale { .. } => "TooStale",
        Response::Changed { .. } => "Changed",
        Response::AllShards { .. } => "AllShards",
        Response::Routed { .. } => "Routed",
        Response::Info { .. } => "Info",
        Response::Frames { .. } => "Frames",
        Response::NeedsBootstrap { .. } => "NeedsBootstrap",
        Response::UpToDate { .. } => "UpToDate",
        Response::SnapshotInfo { .. } => "SnapshotInfo",
        Response::SnapshotChunk { .. } => "SnapshotChunk",
        Response::Done => "Ok",
        Response::Staged { .. } => "Staged",
        Response::Challenge { .. } => "Challenge",
        Response::Users { .. } => "Users",
        Response::SchemaVersion { .. } => "SchemaVersion",
        Response::Voted(_) => "Voted",
        Response::Beat(_) => "Beat",
        Response::Rejected { .. } => "Rejected",
        Response::Error { .. } => "Error",
    }
}

/// What a schema change on a shard came to.
pub open spec fn schema_outcome(done: Result<Response, Error>) -> OutcomeModel {
    match done {
        Ok(r) => match r@ {
            ResponseModel::SchemaVersion { .. } => OutcomeModel::Applied,
            ResponseModel::Error { message, .. } => OutcomeModel::Rejected(message),
            ResponseModel::Rejected { message } => OutcomeModel::Rejected(message),
            other => OutcomeModel::Rejected("unexpected response: "@ + kind(other)),
        },
        Err(e) => OutcomeModel::Rejected(e@.message()),
    }
}

/// Reads what a schema change on a shard was answered.
pub fn outcome_of(done: Result<Response, Error>) -> (r: ShardOutcome)
    ensures
        r@ == schema_outcome(done),
{
    match done {
        Ok(Response::SchemaVersion { .. }) => ShardOutcome::Applied,
        Ok(Response::Error { message, .. }) => ShardOutcome::Rejected(message),
        Ok(Response::Rejected { message }) => ShardOutcome::Rejected(message),
        Ok(other) => {
            let mut m = "unexpected response: ".to_owned();
            m.append(response_kind(&other));
            ShardOutcome::Rejected(m)
        },
        Err(e) => ShardOutcome::Rejected(e.to_text()),
    }
}

/// A schema change on a shard, to be carried out here or by the node that owns the shard.
#[derive(Debug)]
pub struct Roll {
    pub here: bool,
    pub request: Request,
}

/// What was carried out of a schema change, and what it was answered.
pub type RollRecord = Seq<(Roll, Result<Response, Error>)>;

/// Whether these are the changes of the shards from 0 on, one each, where they belong.
pub open spec fn rolled(calls: RollRecord, router: Option<Router>, ddl: StatementModel) -> bool {
    forall|i: int|
        0 <= i < calls.len() ==> {
            &&& (#[trigger] calls[i]).0.here == !elsewhere(router, ShardId(i as u32))
            &&& calls[i].0.request.model() == (RequestModel::SchemaApply { shard: i as u32, ddl })
        }
}

/// What each of them came to.
pub open spec fn roll_outcomes(calls: RollRecord) -> Seq<(u32, OutcomeModel)> {
    Seq::new(calls.len(), |i: int| (i as u32, schema_outcome(calls[i].1)))
}

/// Applies a schema change to every shard, one after the other, each where it belongs: `line` carries
/// one out here, or sends it to the node that owns the shard. What became of it is reported shard by
/// shard, since nothing is atomic across shards.
#[verifier::loop_isolation(false)]
pub fn execute_all<F: Fn(Roll) -> Result<Response, Error>>(
    shard_count: u32,
    router: &Option<Router>,
    ddl: &DbStatement,
    line: &mut Line<Roll, Result<Response, Error>, F>,
) -> (r: Response)
    requires
        *router matches Some(x) ==> x.wf(),
        forall|x: Roll| #[trigger] call_requires(old(line).far(), (x,)),
    ensures
        final(line).far() == old(line).far(),
        goes_on(old(line).record(), final(line).record()),
        since(old(line).record(), final(line).record()).len() == shard_count,
        rolled(since(old(line).record(), final(line).record()), *router, ddl@),
        r@ == (ResponseModel::AllShards {
            outcomes: roll_outcomes(since(old(line).record(), final(line).record())),
        }),
{
    let ghost first = line.record();
    let ghost far = line.far();
    let ghost mut made: RollRecord = Seq::empty();
    let mut outcomes: Vec<(u32, ShardOutcome)> = Vec::new();
    let mut s: u32 = 0;
    assert(first + made =~= first);
    assert(outcomes_model(outcomes@) =~= roll_outcomes(made));
    while s < shard_count
        invariant
            s <= shard_count,
            made.len() == s,
            line.far() == far,
            line.record() == first + made,
            rolled(made, *router, ddl@),
            outcomes_model(outcomes@) == roll_outcomes(made),
        decreases shard_count - s,
    {
        let ghost before = outcomes@;
        let ghost had = made;
        let mine = match router {
            Some(x) => x.is_mine(ShardId(s)),
            None => true,
        };
        let roll = Roll {
            here: mine,
            request: Request::SchemaApply { shard: s, ddl: ddl.copy() },
        };
        let ghost asked = roll;
        let done = line.ask(roll);
        proof {
            made = had.push((asked, done));
            assert(line.record() =~= first + made);
        }
        let outcome = outcome_of(done);
        let ghost model = outcome@;
        outcomes.push((s, outcome));
        proof {
            assert(outcomes_model(outcomes@) =~= outcomes_model(before).push((s, model)));
            assert(outcomes_model(outcomes@) =~= roll_outcomes(made));
        }
        s = s + 1;
    }
    proof {
        lemma_added(first, made);
    }
    Response::AllShards { outcomes }
}

// ---- replication -------------------------------------------------------------------------------

pub open spec fn not_capturing() -> Seq<char> {
    "this node is not capturing frames, so it has no stream to subscribe to (capture is off)"@
}

pub open spec fn other_epoch(theirs: u64, ours: u64) -> Seq<char> {
    "follower is on epoch "@ + decimal(theirs as nat) + ", this node is on "@ + decimal(ours as nat)
        + "; a new epoch is a new stream whose positions cannot be compared to the old ones"@
}

pub open spec fn not_retained(lowest: u64) -> Seq<char> {
    "frames before LSN "@ + decimal(lowest as nat)
        + " are no longer retained; take a snapshot and resume from it"@
}

/// How many transactions one answer to a follower may hold.
pub open spec fn batch_limit(max_txns: usize) -> usize {
    if max_txns < 1 {
        1
    } else if max_txns > 512 {
        512
    } else {
        max_txns
    }
}

/// What a frame log's answer is for a follower.
pub open spec fn served_response(shard: ShardId, epoch: u64, served: ServedModel) -> ResponseModel {
    match served {
        ServedModel::Frames(txns) => ResponseModel::Frames { shard: shard.0, epoch, txns },
        ServedModel::UpToDate => ResponseModel::UpToDate { shard: shard.0 },
        ServedModel::TooOld { lowest_retained } => ResponseModel::NeedsBootstrap {
            shard: shard.0,
            reason: not_retained(lowest_retained),
        },
    }
}

/// The answer to a follower asking for frames from a position, and the frame log after it. Epoch 0
/// claims no generation, so it is no mismatch.
pub open spec fn subscription(
    ours: Option<u64>,
    frames: Option<LogModel>,
    shard: ShardId,
    epoch: u64,
    from_lsn: u64,
    max_txns: usize,
) -> (ResponseModel, Option<LogModel>) {
    match ours {
        None => (refusal(not_capturing()), frames),
        Some(current) => if epoch != 0 && epoch != current {
            (
                ResponseModel::NeedsBootstrap {
                    shard: shard.0,
                    reason: other_epoch(epoch, current),
                },
                frames,
            )
        } else {
            match frames {
                None => (
                    refusal("this node has no frame log, so it cannot serve followers"@),
                    frames,
                ),
                Some(log) => {
                    let served = answer(log.of(shard), from_lsn, batch_limit(max_txns));
                    (served_response(shard, current, served), Some(log.answered(served)))
                },
            }
        },
    }
}

pub open spec fn log_model(frames: Option<FrameLog>) -> Option<LogModel> {
    match frames {
        Some(f) => Some(f@),
        None => None,
    }
}

/// Serves a follower asking for frames from a position.
pub fn serve_subscribe(
    ours: Option<u64>,
    frames: &mut Option<FrameLog>,
    shard: ShardId,
    epoch: u64,
    from_lsn: u64,
    max_txns: usize,
) -> (r: Response)
    requires
        *old(frames) matches Some(f) ==> f.wf(),
    ensures
        *final(frames) matches Some(f) ==> f.wf(),
        (r@, log_model(*final(frames))) == subscription(
            ours,
            log_model(*old(frames)),
            shard,
            epoch,
            from_lsn,
            max_txns,
        ),
{
    let current: u64 = match ours {
        Some(e) => e,
        None => {
            return refuse(
                "this node is not capturing frames, so it has no stream to subscribe to (capture is off)",
            );
        },
    };
    if epoch != 0 && epoch != current {
        let mut reason = "follower is on epoch ".to_owned();
        push_decimal(&mut reason, epoch);
        reason.append(", this node is on ");
        push_decimal(&mut reason, current);
        reason.append(
            "; a new epoch is a new stream whose positions cannot be compared to the old ones",
        );
        return Response::NeedsBootstrap { shard: shard.0, reason };
    }
    let limit: usize = if max_txns < 1 {
        1
    } else if max_txns > 512 {
        512
    } else {
        max_txns
    };
    match frames.take() {
        None => refuse("this node has no frame log, so it cannot serve followers"),
        Some(mut log) => {
            let served = log.serve(shard, from_lsn, limit);
            *frames = Some(log);
            match served {
                Served::Frames(txns) => Response::Frames { shard: shard.0, epoch: current, txns },
                Served::UpToDate => Response::UpToDate { shard: shard.0 },
                Served::TooOld { lowest_retained } => {
                    let mut reason = "frames before LSN ".to_owned();
                    push_decimal(&mut reason, lowest_retained);
                    reason.append(" are no longer retained; take a snapshot and resume from it");
                    Response::NeedsBootstrap { shard: shard.0, reason }
                },
            }
        },
    }
}

// ---- handling a request here -------------------------------------------------------------------

/// What this node makes of a request that it handles itself.
#[derive(Debug)]
pub enum Local {
    /// Here is the answer.
    Reply(Response),
    /// The users have changed. Their file is to be given this text; once that is done, here is the
    /// answer.
    Save { text: String, reply: Response },
    /// The databases, or the cluster, have to carry this out.
    Carry(Request),
}

pub ghost enum LocalModel {
    Reply(ResponseModel),
    Save { text: Seq<char>, reply: ResponseModel },
    Carry(RequestModel),
}

impl Local {
    pub open spec fn model(self) -> LocalModel {
        match self {
            Local::Reply(r) => LocalModel::Reply(r@),
            Local::Save { text, reply } => LocalModel::Save { text: text@, reply: reply@ },
            Local::Carry(q) => LocalModel::Carry(q.model()),
        }
    }
}

pub open spec fn wrong_version(version: u32) -> Seq<char> {
    "protocol version "@ + decimal(version as nat) + " is not supported; this server speaks "@
        + decimal(PROTOCOL_VERSION as nat)
}

/// Refuses a peer that speaks another version of the protocol.
pub fn version_refusal(version: u32) -> (r: Response)
    ensures
        r@ == refusal(wrong_version(version)),
{
    let mut m = "protocol version ".to_owned();
    push_decimal(&mut m, version as u64);
    m.append(" is not supported; this server speaks ");
    push_decimal(&mut m, PROTOCOL_VERSION as u64);
    refuse(m.as_str())
}

pub open spec fn welcome(facts: NodeFacts) -> ResponseModel {
    ResponseModel::Welcome {
        version: PROTOCOL_VERSION,
        shard_count: facts.shard_count,
        epoch: facts.epoch,
    }
}

pub open spec fn parameters_refusal() -> Seq<char> {
    "a cross-shard query cannot carry bound parameters yet; the planner does not inspect them, so it cannot prove the query is safe to fan out"@
}

pub open spec fn no_users_refusal() -> Seq<char> {
    "authentication is not enabled on this server, so there are no users                           to manage"@
}

pub open spec fn no_auth_refusal() -> Seq<char> {
    "authentication is not enabled on this server"@
}

pub open spec fn cluster_user_refusal() -> Seq<char> {
    "an admin may not create a cluster user; cluster credentials                                   are provisioned at deploy time, not over the wire"@
}

pub open spec fn no_member(what: Seq<char>) -> Seq<char> {
    "this node is not a cluster member, so it cannot answer "@ + what
        + "; it was started without cluster configuration"@
}

/// Says plainly that this node is no cluster member, so that it is not taken for one that cannot be
/// reached.
pub fn not_a_member(what: &str) -> (r: Response)
    ensures
        r@ == refusal(no_member(what@)),
{
    let mut m = "this node is not a cluster member, so it cannot answer ".to_owned();
    m.append(what);
    m.append("; it was started without cluster configuration");
    refuse(m.as_str())
}

/// The bytes of a snapshot that one answer may hold.
pub open spec fn chunk_limit(len: u32) -> u32 {
    if len > (MAX_FRAME_BYTES / 2) as u32 {
        (MAX_FRAME_BYTES / 2) as u32
    } else {
        len
    }
}

/// An answer, once the file of the users is written, if they have one.
pub open spec fn once_saved(users: Seq<UserModel>, kept: bool, reply: ResponseModel) -> LocalModel {
    if kept {
        LocalModel::Save { text: users_text(users), reply }
    } else {
        LocalModel::Reply(reply)
    }
}

/// Creating a user. An admin is a client, and may not mint the credential of a machine.
pub open spec fn user_created(
    s: ServicesModel,
    user: UserModel,
) -> (LocalModel, ServicesModel) {
    match s.users {
        None => (LocalModel::Reply(refusal(no_users_refusal())), s),
        Some((users, kept)) => if user.role == Role::Cluster {
            (LocalModel::Reply(refusal(cluster_user_refusal())), s)
        } else if !valid_name(user.name) {
            (
                LocalModel::Reply(
                    failed(
                        ErrorModel::Protocol(
                            "a user name must be non-empty and contain no whitespace"@,
                        ),
                    ),
                ),
                s,
            )
        } else {
            let after = with_user(users, user);
            (
                once_saved(after, kept, ResponseModel::Done),
                ServicesModel { users: Some((after, kept)), ..s },
            )
        },
    }
}

/// Dropping a user.
pub open spec fn user_dropped(s: ServicesModel, name: Seq<char>) -> (LocalModel, ServicesModel) {
    match s.users {
        None => (LocalModel::Reply(refusal(no_auth_refusal())), s),
        Some((users, kept)) => if user_named(users, name) is None {
            (LocalModel::Reply(refusal("no such user: "@ + name)), s)
        } else {
            let after = without_user(users, name);
            (
                once_saved(after, kept, ResponseModel::Done),
                ServicesModel { users: Some((after, kept)), ..s },
            )
        },
    }
}

/// The positions known of a shard's followers after one asks for frames from a position: asking is
/// proof that it holds everything below. Node 0 is nobody.
pub open spec fn acknowledged(
    acks: Option<AckModel>,
    node: u64,
    shard: ShardId,
    from_lsn: u64,
) -> Option<AckModel> {
    match acks {
        Some(a) if node != 0 && from_lsn > 0 => Some(
            AckModel { reports: reported(a.reports, shard, node, (from_lsn - 1) as u64), ..a },
        ),
        _ => acks,
    }
}

/// What this node makes of a request that it handles itself, and its services after it.
pub open spec fn local_result(
    req: RequestModel,
    facts: NodeFacts,
    s: ServicesModel,
) -> (LocalModel, ServicesModel)
    decreases req,
{
    match req {
        RequestModel::Hello { version, .. } => (
            LocalModel::Reply(
                if version != PROTOCOL_VERSION {
                    refusal(wrong_version(version))
                } else {
                    welcome(facts)
                },
            ),
            s,
        ),
        RequestModel::Info => (
            LocalModel::Reply(
                ResponseModel::Info {
                    shard_count: facts.shard_count,
                    epoch: facts.epoch,
                    wal_retries: facts.wal_retries,
                    contended_opens: facts.contended_opens,
                },
            ),
            s,
        ),
        RequestModel::QueryAll { statement } => (
            if statement.params.len() > 0 {
                LocalModel::Reply(refusal(parameters_refusal()))
            } else {
                LocalModel::Carry(req)
            },
            s,
        ),
        RequestModel::Subscribe { node, shard, epoch, from_lsn, max_txns } => {
            let id = ShardId(shard);
            let told = subscription(facts.epoch, s.frames, id, epoch, from_lsn, max_txns as usize);
            (
                LocalModel::Reply(told.0),
                ServicesModel {
                    frames: told.1,
                    acks: acknowledged(s.acks, node, id, from_lsn),
                    ..s
                },
            )
        },
        RequestModel::SnapshotRead { shard, offset, len } => (
            LocalModel::Carry(RequestModel::SnapshotRead { shard, offset, len: chunk_limit(len) }),
            s,
        ),
        RequestModel::Direct(inner) => local_result(*inner, facts, s),
        RequestModel::Auth { .. } => (LocalModel::Reply(refusal(no_auth_refusal())), s),
        RequestModel::CreateUser { name, key, role } => user_created(
            s,
            UserModel { name, key, role },
        ),
        RequestModel::DropUser { name } => user_dropped(s, name),
        RequestModel::ListUsers => (
            LocalModel::Reply(
                match s.users {
                    None => refusal(no_auth_refusal()),
                    Some((users, _)) => ResponseModel::Users {
                        users: users.map_values(|u: UserModel| (u.name, u.role)),
                    },
                },
            ),
            s,
        ),
        RequestModel::Vote(_) => (
            if s.member {
                LocalModel::Carry(req)
            } else {
                LocalModel::Reply(refusal(no_member("a vote request"@)))
            },
            s,
        ),
        RequestModel::Beat(_) => (
            if s.member {
                LocalModel::Carry(req)
            } else {
                LocalModel::Reply(refusal(no_member("a heartbeat"@)))
            },
            s,
        ),
        _ => (LocalModel::Carry(req), s),
    }
}

/// Whether what a request leaves alone is left alone.
pub open spec fn same_peers(before: NodeServices, after: NodeServices) -> bool {
    before.follower == after.follower && before.router == after.router
}

fn create_user(services: &mut NodeServices, name: String, key: [u8; 32], role: Role) -> (r: Local)
    requires
        old(services).wf(),
    ensures
        final(services).wf(),
        same_peers(*old(services), *final(services)),
        (r.model(), final(services)@) == user_created(
            old(services)@,
            UserModel { name: name@, key: key@, role },
        ),
{
    match services.auth.take() {
        None => Local::Reply(
            refuse("authentication is not enabled on this server, so there are no users                           to manage"),
        ),
        Some(mut auth) => {
            if role == Role::Cluster {
                services.auth = Some(auth);
                return Local::Reply(
                    refuse("an admin may not create a cluster user; cluster credentials                                   are provisioned at deploy time, not over the wire"),
                );
            }
            let done = auth.create(name.as_str(), key, role);
            services.auth = Some(auth);
            match done {
                Ok(Some(text)) => Local::Save { text, reply: Response::Done },
                Ok(None) => Local::Reply(Response::Done),
                Err(e) => Local::Reply(error_response(e)),
            }
        },
    }
}

fn drop_user(services: &mut NodeServices, name: String) -> (r: Local)
    requires
        old(services).wf(),
    ensures
        final(services).wf(),
        same_peers(*old(services), *final(services)),
        (r.model(), final(services)@) == user_dropped(old(services)@, name@),
{
    match services.auth.take() {
        None => Local::Reply(refuse("authentication is not enabled on this server")),
        Some(mut auth) => {
            let ghost before = auth@;
            let (found, text) = auth.drop_user(name.as_str());
            services.auth = Some(auth);
            if !found {
                proof {
                    lemma_absent_user_stays(before, name@);
                }
                let mut m = "no such user: ".to_owned();
                m.append(name.as_str());
                return Local::Reply(refuse(m.as_str()));
            }
            match text {
                Some(text) => Local::Save { text, reply: Response::Done },
                None => Local::Reply(Response::Done),
            }
        },
    }
}

proof fn lemma_absent_user_stays(users: Seq<UserModel>, name: Seq<char>)
    requires
        user_named(users, name) is None,
    ensures
        without_user(users, name) == users,
    decreases users.len(),
{
    if users.len() > 0 {
        lemma_absent_user_stays(users.drop_first(), name);
        assert(without_user(users, name) =~= users);
    } else {
        assert(without_user(users, name) =~= users);
    }
}

/// Handles a request on this node, as far as its own state can answer it.
pub fn handle_local(req: Request, facts: &NodeFacts, services: &mut NodeServices) -> (r: Local)
    requires
        old(services).wf(),
    ensures
        final(services).wf(),
        same_peers(*old(services), *final(services)),
        (r.model(), final(services)@) == local_result(req.model(), *facts, old(services)@),
    decreases req,
{
    match req {
        Request::Hello { version, .. } => {
            if version != PROTOCOL_VERSION {
                return Local::Reply(version_refusal(version));
            }
            Local::Reply(
                Response::Welcome {
                    version: PROTOCOL_VERSION,
                    shard_count: facts.shard_count,
                    epoch: facts.epoch,
                },
            )
        },
        Request::Info => Local::Reply(
            Response::Info {
                shard_count: facts.shard_count,
                epoch: facts.epoch,
                wal_retries: facts.wal_retries,
                contended_opens: facts.contended_opens,
            },
        ),
        Request::QueryAll { statement } => {
            if statement.params.len() > 0 {
                return Local::Reply(
                    refuse("a cross-shard query cannot carry bound parameters yet; the planner does not inspect them, so it cannot prove the query is safe to fan out"),
                );
            }
            Local::Carry(Request::QueryAll { statement })
        },
        Request::Subscribe { node, shard, epoch, from_lsn, max_txns } => {
            let id = ShardId(shard);
            if node != 0 && from_lsn > 0 {
                match services.acks.take() {
                    Some(mut acks) => {
                        acks.record(node, id, from_lsn - 1);
                        services.acks = Some(acks);
                    },
                    None => {},
                }
            }
            Local::Reply(
                serve_subscribe(
                    facts.epoch,
                    &mut services.frames,
                    id,
                    epoch,
                    from_lsn,
                    max_txns as usize,
                ),
            )
        },
        Request::SnapshotRead { shard, offset, len } => {
            let cap: u32 = (MAX_FRAME_BYTES / 2) as u32;
            let len: u32 = if len > cap {
                cap
            } else {
                len
            };
            Local::Carry(Request::SnapshotRead { shard, offset, len })
        },
        Request::Direct(inner) => {
            let inner = *inner;
            handle_local(inner, facts, services)
        },
        Request::Auth { .. } => Local::Reply(
            refuse("authentication is not enabled on this server"),
        ),
        Request::CreateUser { name, key, role } => create_user(services, name, key, role),
        Request::DropUser { name } => drop_user(services, name),
        Request::ListUsers => match &services.auth {
            None => Local::Reply(refuse("authentication is not enabled on this server")),
            Some(auth) => Local::Reply(Response::Users { users: auth.list() }),
        },
        Request::Vote(m) => if services.member {
            Local::Carry(Request::Vote(m))
        } else {
            Local::Reply(not_a_member("a vote request"))
        },
        Request::Beat(m) => if services.member {
            Local::Carry(Request::Beat(m))
        } else {
            Local::Reply(not_a_member("a heartbeat"))
        },
        other => Local::Carry(other),
    }
}

// ---- laws --------------------------------------------------------------------------------------

/// Forwarding cannot loop: a request as it is forwarded is handled where it arrives, whatever that
/// node takes for the owner of its shard.
pub proof fn law_forwarded_requests_stop_here(
    req: RequestModel,
    standing: Standing,
    follower: Option<Follower>,
    router: Option<Router>,
)
    ensures
        handling(RequestModel::Direct(Box::new(req)), standing, follower, router)
            == HandlingModel::Here(req),
{
}

/// A read answered here is as fresh as was asked for: this node leads the shard, or a copy that has
/// applied something will do, or the copy has reached the position.
pub proof fn law_reads_are_fresh_enough(
    shard: u32,
    statement: StatementModel,
    consistency: ReadConsistency,
    standing: Standing,
    follower: Option<Follower>,
)
    ensures
        ({
            let req = RequestModel::Query { shard, statement, consistency };
            let have = position_of(standing, follower, ShardId(shard));
            handling(req, standing, follower, None) == HandlingModel::Here(req) <==> match standing.mode {
                ShardMode::Led => true,
                ShardMode::Followed => have > 0 && match consistency {
                    ReadConsistency::Linearizable => false,
                    ReadConsistency::Stale => true,
                    ReadConsistency::AtLeastLsn(n) => have >= n,
                },
            }
        }),
{
}

/// Work on a shard that another node owns never runs here, but for a read that a copy here is fresh
/// enough for.
pub proof fn law_owners_do_the_work(
    req: RequestModel,
    shard: ShardId,
    standing: Standing,
    follower: Option<Follower>,
    router: Option<Router>,
)
    requires
        shard_of(req) == Some(shard),
        elsewhere(router, shard),
        !(req is Query),
    ensures
        handling(req, standing, follower, router) == HandlingModel::There(shard, req),
{
}

/// The users, if any.
pub open spec fn users_in(s: ServicesModel) -> Seq<UserModel> {
    match s.users {
        Some((users, _)) => users,
        None => Seq::empty(),
    }
}

/// No request over the wire makes a user with the cluster role.
pub proof fn law_no_cluster_users_over_the_wire(
    req: RequestModel,
    facts: NodeFacts,
    s: ServicesModel,
    name: Seq<char>,
)
    requires
        sorted(users_in(s)),
    ensures
        match user_named(users_in(local_result(req, facts, s).1), name) {
            Some(u) => u.role == Role::Cluster ==> user_named(users_in(s), name) == Some(u),
            None => true,
        },
    decreases req,
{
    match req {
        RequestModel::Direct(inner) => {
            law_no_cluster_users_over_the_wire(*inner, facts, s, name);
        },
        RequestModel::CreateUser { name: new, key, role } => {
            law_created_user_is_found(users_in(s), UserModel { name: new, key, role }, name);
        },
        RequestModel::DropUser { name: gone } => {
            law_dropped_user_is_gone(users_in(s), gone, name);
        },
        _ => {},
    }
}

/// A follower's request is its acknowledgement: after one that asks from a position, every position
/// below counts as held by that node.
pub proof fn law_asking_acknowledges(
    node: u64,
    shard: u32,
    epoch: u64,
    from_lsn: u64,
    max_txns: u32,
    facts: NodeFacts,
    s: ServicesModel,
)
    requires
        node != 0,
        from_lsn > 0,
        s.acks is Some,
    ensures
        ({
            let req = RequestModel::Subscribe { node, shard, epoch, from_lsn, max_txns };
            local_result(req, facts, s).1.acks == Some(
                AckModel {
                    reports: reported(
                        s.acks->0.reports,
                        ShardId(shard),
                        node,
                        (from_lsn - 1) as u64,
                    ),
                    ..s.acks->0
                },
            )
        }),
{
}

/// A follower of another generation is never fed this one's frames.
pub proof fn law_no_frames_across_epochs(
    ours: u64,
    frames: Option<LogModel>,
    shard: ShardId,
    epoch: u64,
    from_lsn: u64,
    max_txns: usize,
)
    requires
        epoch != 0,
        epoch != ours,
    ensures
        !(subscription(Some(ours), frames, shard, epoch, from_lsn, max_txns).0 is Frames),
{
}

/// A transaction of which any statement was rejected is never reported as a success.
pub proof fn law_rejections_are_reported(outcomes: Seq<OutcomeView>, i: int)
    requires
        0 <= i < outcomes.len(),
        outcomes[i] is Rejected,
    ensures
        transaction_response(outcomes) is Error,
        execute_response(outcomes) is Rejected,
{
    lemma_rejection_found(outcomes, 0, i);
}

proof fn lemma_rejection_found(outcomes: Seq<OutcomeView>, from: int, i: int)
    requires
        0 <= from <= i < outcomes.len(),
        outcomes[i] is Rejected,
    ensures
        rejection_from(outcomes, from) is Some,
    decreases i - from,
{
    if from < i && !(outcomes[from] is Rejected) {
        lemma_rejection_found(outcomes, from + 1, i);
    }
}

} // verus!
