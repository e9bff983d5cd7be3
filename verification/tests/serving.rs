use std::cell::RefCell;

use shardlite::calls::Line;
use shardlite::error::Error;
use shardlite::net::auth::{derive_key, prove, AuthConfig, Role};
use shardlite::net::connection::{Admission, Connection};
use shardlite::net::forward::{ForwardStats, Fresh, Kept, Membership, Router};
use shardlite::net::protocol::{ReadConsistency, Request, Response, ShardOutcome};
use shardlite::net::server::{
    beat_reply, can_serve_read, error_response, execute_all, execute_reply, handle, handle_local,
    outcome_of, query_all_reply, query_reply, response_kind, schema_reply, snapshot_begin_reply,
    snapshot_end_reply, snapshot_read_reply, target_shard, transaction_reply, vote_reply, Handling,
    Local, NodeFacts, NodeServices, ServerConfig, ServerStats, SnapshotTaken, Standing, Roll,
};
use shardlite::net::session::{session_step, SessionStep, Txn, MAX_TXN_STATEMENTS};
use shardlite::replication::ack::AckTracker;
use shardlite::replication::follower::{Follower, Position};
use shardlite::replication::log::{FrameLog, FrameLogConfig};
use shardlite::replication::stream::StreamTxn;
use shardlite::replication::FrameSink;
use shardlite::shard::map::ShardMap;
use shardlite::shard::mode::ShardMode;
use shardlite::shard::ShardId;
use shardlite::storage::exec::{
    DbStatement, DbValue, Executed, Outcome, QueryResult, WriteSummary,
};
use shardlite::vfs::{CommittedTxn, Frame};

const FACTS: NodeFacts =
    NodeFacts { shard_count: 4, epoch: Some(7), wal_retries: 1, contended_opens: 2 };
const LED: Standing = Standing { mode: ShardMode::Led, last_lsn: 9 };
const FOLLOWED: Standing = Standing { mode: ShardMode::Followed, last_lsn: 0 };

fn stmt(sql: &str) -> DbStatement {
    DbStatement::new(sql)
}

fn execute(shard: u32, sql: &[&str]) -> Request {
    Request::Execute { shard, statements: sql.iter().map(|s| stmt(s)).collect() }
}

fn query(shard: u32, consistency: ReadConsistency) -> Request {
    Request::Query { shard, statement: stmt("SELECT 1"), consistency }
}

fn message(r: &Response) -> String {
    match r {
        Response::Error { message, .. } => message.clone(),
        Response::Rejected { message } => message.clone(),
        other => panic!("{other:?}"),
    }
}

fn router(id: u64, owners: &[(u32, u64)], peers: &[(u64, &str)]) -> Router {
    let mut map = ShardMap::new();
    for (s, n) in owners {
        map.insert(*s, *n);
    }
    Router::new(Membership {
        id,
        owners: map,
        peers: peers.iter().map(|(n, a)| (*n, a.to_string())).collect(),
    })
}

fn following(shard: u32, lsn: u64) -> Follower {
    let mut f = Follower::open("dir".to_string(), &Vec::new());
    f.record(ShardId(shard), Position { epoch: 7, applied_lsn: lsn });
    f
}

fn changed(n: u64, id: i64) -> Outcome {
    Outcome::Ran(Executed::Changed(WriteSummary { rows_affected: n, last_insert_rowid: id }))
}

// ---- transactions ------------------------------------------------------------------------------

fn step(
    txn: &mut Option<Txn>,
    req: Request,
    asked: &RefCell<Vec<String>>,
) -> Result<Response, Request> {
    let mut carry = Line::new(|q: Request| {
        let text = match &q {
            Request::Transaction { shard, statements } => format!("tx {shard} {}", statements.len()),
            Request::Execute { shard, statements } => format!("ex {shard} {}", statements.len()),
            other => format!("{other:?}"),
        };
        asked.borrow_mut().push(text);
        Response::Changed { rows_affected: 5, last_insert_rowid: 6 }
    });
    match session_step(txn, req, &mut carry) {
        SessionStep::Handled(r) => Ok(r),
        SessionStep::Passthrough(q) => Err(q),
    }
}

#[test]
fn a_transaction_is_buffered_and_committed_whole() {
    let asked = RefCell::new(Vec::new());
    let mut txn = None;
    assert!(matches!(step(&mut txn, execute(2, &["BEGIN"]), &asked), Ok(Response::Done)));
    for i in 1..=3u64 {
        match step(&mut txn, execute(2, &["INSERT INTO t VALUES (1)"]), &asked) {
            Ok(Response::Staged { queued }) => assert_eq!(queued, i),
            other => panic!("{other:?}"),
        }
    }
    assert!(asked.borrow().is_empty());
    match step(&mut txn, execute(2, &["COMMIT"]), &asked) {
        Ok(Response::Changed { rows_affected: 5, last_insert_rowid: 6 }) => {}
        other => panic!("{other:?}"),
    }
    assert_eq!(*asked.borrow(), vec!["tx 2 3".to_string()]);
    assert!(txn.is_none());
}

#[test]
fn a_rolled_back_transaction_vanishes() {
    let asked = RefCell::new(Vec::new());
    let mut txn = None;
    step(&mut txn, execute(0, &["BEGIN", "DELETE FROM t", "ROLLBACK"]), &asked).unwrap();
    assert!(txn.is_none() && asked.borrow().is_empty());
    match step(&mut txn, execute(0, &["COMMIT"]), &asked) {
        Ok(r) => assert_eq!(message(&r), "COMMIT without an open transaction"),
        other => panic!("{other:?}"),
    }
    match step(&mut txn, execute(0, &["BEGIN", "COMMIT"]), &asked) {
        Ok(Response::Changed { rows_affected: 0, last_insert_rowid: 0 }) => {}
        other => panic!("{other:?}"),
    }
}

#[test]
fn what_a_transaction_does_not_take() {
    let asked = RefCell::new(Vec::new());
    let mut txn = None;
    step(&mut txn, execute(0, &["BEGIN"]), &asked).unwrap();
    let read = step(&mut txn, query(0, ReadConsistency::Stale), &asked).unwrap();
    assert!(message(&read).starts_with("reads are not supported inside a transaction"));
    let nested = step(&mut txn, execute(0, &["BEGIN"]), &asked).unwrap();
    assert!(message(&nested).starts_with("a transaction is already open"));
    let point = step(&mut txn, execute(0, &["SAVEPOINT a"]), &asked).unwrap();
    assert!(message(&point).starts_with("savepoints are not supported"));
    assert!(txn.is_some());
    let other = step(&mut txn, execute(1, &["DELETE FROM t"]), &asked).unwrap();
    assert!(message(&other).starts_with("a transaction is limited to one shard: it began on shard 0"));
    assert!(txn.is_none());
}

#[test]
fn a_transaction_is_bounded() {
    let asked = RefCell::new(Vec::new());
    let mut txn = None;
    step(&mut txn, execute(0, &["BEGIN"]), &asked).unwrap();
    let big = Request::Execute {
        shard: 0,
        statements: vec![DbStatement::with_params(
            "INSERT INTO t VALUES (?1)",
            vec![DbValue::Blob(vec![0; 64 * 1024 * 1024])],
        )],
    };
    let r = step(&mut txn, big, &asked).unwrap();
    assert_eq!(message(&r), "transaction too large; COMMIT or ROLLBACK and use smaller batches");
    assert!(txn.is_some());
    assert_eq!(MAX_TXN_STATEMENTS, 100_000);
}

#[test]
fn ordinary_traffic_passes_a_session_by() {
    let asked = RefCell::new(Vec::new());
    let mut txn = None;
    assert!(step(&mut txn, execute(3, &["DELETE FROM t"]), &asked).is_err());
    assert!(step(&mut txn, Request::Info, &asked).is_err());
    step(&mut txn, execute(3, &["DELETE FROM t", "ROLLBACK"]), &asked).unwrap();
    assert_eq!(*asked.borrow(), vec!["ex 3 1".to_string()]);
}

// ---- the doorman -------------------------------------------------------------------------------

fn challenge() -> Result<[u8; 32], Error> {
    Ok([3; 32])
}

fn greet(version: u32) -> Request {
    Request::Hello { version, client: "test".to_string() }
}

#[test]
fn a_secured_server_lets_nobody_in_without_a_proof() {
    let users = AuthConfig::new().user("app", "s3cret", Role::Read);
    let mut c = Connection::new(Some(&users));
    match c.screen(Request::Info, Some(&users), &FACTS, &challenge) {
        Admission::Answer(r) => assert_eq!(message(&r), "authentication required"),
        other => panic!("{other:?}"),
    }
    match c.screen(greet(1), Some(&users), &FACTS, &challenge) {
        Admission::Answer(r) => assert_eq!(
            message(&r),
            "protocol version 1 is not supported; this server speaks 3"
        ),
        other => panic!("{other:?}"),
    }
    let nonce = match c.screen(greet(3), Some(&users), &FACTS, &challenge) {
        Admission::Answer(Response::Challenge { nonce }) => nonce,
        other => panic!("{other:?}"),
    };
    match c.screen(Request::ListUsers, Some(&users), &FACTS, &challenge) {
        Admission::Answer(r) => assert_eq!(message(&r), "authentication required"),
        other => panic!("{other:?}"),
    }
    let proof = prove(&derive_key("s3cret"), &nonce);
    let auth = Request::Auth { name: "app".to_string(), proof };
    match c.screen(auth, Some(&users), &FACTS, &challenge) {
        Admission::Answer(Response::Welcome { version: 3, shard_count: 4, epoch: Some(7) }) => {}
        other => panic!("{other:?}"),
    }
    assert!(matches!(
        c.screen(Request::Info, Some(&users), &FACTS, &challenge),
        Admission::Pass(Request::Info)
    ));
    match c.screen(execute(0, &["DELETE FROM t"]), Some(&users), &FACTS, &challenge) {
        Admission::Denied(r) => assert_eq!(
            message(&r),
            "not permitted: this connection is authenticated with the read role, and this \
             request requires Write"
        ),
        other => panic!("{other:?}"),
    }
}

#[test]
fn an_impostor_is_shown_out() {
    let users = AuthConfig::new().user("app", "s3cret", Role::Read);
    let mut c = Connection::new(Some(&users));
    c.screen(greet(3), Some(&users), &FACTS, &challenge);
    let auth = Request::Auth { name: "app".to_string(), proof: [0; 32] };
    let out = c.screen(auth, Some(&users), &FACTS, &challenge);
    let mut stats = ServerStats::default();
    stats.screened(&out);
    assert_eq!((stats.auth_failures, stats.authz_refused), (1, 0));
    match out {
        Admission::Impostor(r) => assert_eq!(message(&r), "authentication failed"),
        other => panic!("{other:?}"),
    }
}

#[test]
fn without_entropy_there_is_no_challenge() {
    let users = AuthConfig::new().user("app", "s3cret", Role::Read);
    let mut c = Connection::new(Some(&users));
    let none = || Err(Error::Protocol("no entropy".to_string()));
    assert!(matches!(c.screen(greet(3), Some(&users), &FACTS, &none), Admission::Broken(_)));
}

#[test]
fn an_open_server_asks_nothing() {
    let nobody = AuthConfig::new();
    let mut c = Connection::new(Some(&nobody));
    assert!(matches!(
        c.screen(Request::ListUsers, Some(&nobody), &FACTS, &challenge),
        Admission::Pass(Request::ListUsers)
    ));
}

#[test]
fn frozen_shards_are_remembered_until_they_are_released() {
    let mut c = Connection::new(None);
    let mut info = Line::new(|q: Request| match q {
        Request::SnapshotBegin { shard } => {
            Response::SnapshotInfo { shard, epoch: 1, lsn: 2, total_bytes: 3 }
        }
        _ => Response::Done,
    });
    c.serve(Request::SnapshotBegin { shard: 5 }, &mut info);
    c.serve(Request::SnapshotBegin { shard: 2 }, &mut info);
    c.serve(Request::SnapshotEnd { shard: 2 }, &mut info);
    c.serve(Request::SnapshotBegin { shard: 1 }, &mut info);
    let mut fails =
        Line::new(|_: Request| Response::Error { message: "no".to_string(), retryable: false });
    c.serve(Request::SnapshotEnd { shard: 1 }, &mut fails);
    c.serve(Request::SnapshotBegin { shard: 9 }, &mut fails);
    assert_eq!(c.finish(), vec![1, 5]);
}

#[test]
fn connections_are_capped() {
    let cfg = ServerConfig { max_connections: 1, ..ServerConfig::default() };
    assert_eq!((cfg.addr.as_str(), cfg.idle_timeout_secs), ("127.0.0.1:4600", 300));
    let mut stats = ServerStats::default();
    assert!(stats.accept(&cfg).is_none());
    match stats.accept(&cfg) {
        Some(Response::Error { message, retryable: true }) => {
            assert_eq!(message, "too many connections: 1 of 1")
        }
        other => panic!("{other:?}"),
    }
    stats.request();
    stats.answered(&Response::Error { message: String::new(), retryable: true });
    stats.end(2);
    assert_eq!(stats.live, 0);
    assert_eq!(
        (stats.accepted, stats.refused_at_capacity, stats.requests, stats.errors),
        (1, 1, 1, 1)
    );
    assert_eq!(stats.abandoned_freezes, 2);
    assert_eq!(ServerConfig::default().max_connections, 256);
}

// ---- where a request is handled ----------------------------------------------------------------

#[test]
fn a_follower_answers_what_its_copy_is_fresh_enough_for() {
    let mut s = NodeServices::standalone();
    let shard = ShardId(1);
    assert!(can_serve_read(shard, ReadConsistency::Linearizable, LED, &s));
    assert!(!can_serve_read(shard, ReadConsistency::Stale, FOLLOWED, &s));
    s.follower = Some(following(1, 10));
    assert!(can_serve_read(shard, ReadConsistency::Stale, FOLLOWED, &s));
    assert!(can_serve_read(shard, ReadConsistency::AtLeastLsn(10), FOLLOWED, &s));
    assert!(!can_serve_read(shard, ReadConsistency::AtLeastLsn(11), FOLLOWED, &s));
    assert!(!can_serve_read(shard, ReadConsistency::Linearizable, FOLLOWED, &s));
    match handle(query(1, ReadConsistency::AtLeastLsn(11)), FOLLOWED, &s) {
        Handling::Refused(Response::TooStale { shard: 1, have: 10, need: 11 }) => {}
        other => panic!("{other:?}"),
    }
    match handle(query(1, ReadConsistency::Linearizable), FOLLOWED, &s) {
        Handling::Refused(Response::TooStale { shard: 1, have: 10, need: 0 }) => {}
        other => panic!("{other:?}"),
    }
}

#[test]
fn work_goes_to_the_owner_and_stops_there() {
    let mut s = NodeServices::standalone();
    s.router = Some(router(1, &[(0, 1), (3, 2)], &[(2, "b:1")]));
    assert!(matches!(handle(execute(0, &["x"]), LED, &s), Handling::Here(_)));
    assert!(matches!(handle(execute(9, &["x"]), LED, &s), Handling::Here(_)));
    match handle(execute(3, &["x"]), FOLLOWED, &s) {
        Handling::There(ShardId(3), Request::Execute { shard: 3, .. }) => {}
        other => panic!("{other:?}"),
    }
    assert!(matches!(
        handle(query(3, ReadConsistency::Linearizable), FOLLOWED, &s),
        Handling::There(ShardId(3), _)
    ));
    let direct = Request::Direct(Box::new(execute(3, &["x"])));
    assert!(matches!(
        handle(direct, FOLLOWED, &s),
        Handling::Here(Request::Execute { shard: 3, .. })
    ));
    assert_eq!(target_shard(&Request::Info), None);
}

#[test]
fn a_forward_is_wrapped_and_counted() {
    let mut r = router(1, &[(3, 2), (4, 9)], &[(2, "b:1")]).with_timeout(77);
    let seen = RefCell::new(Vec::new());
    let mut no_link = Line::new(|_: Kept| -> Option<Result<Response, Error>> { None });
    let mut dials = Line::new(|f: Fresh| -> Result<Response, Error> {
        seen.borrow_mut().push(format!("{} {}", f.addr, f.timeout_ms));
        assert!(matches!(f.request, Request::Direct(_)));
        Ok(Response::Done)
    });
    assert!(r.forward(ShardId(3), Request::Info, &mut no_link, &mut dials).is_ok());
    assert_eq!(*seen.borrow(), vec!["b:1 77".to_string()]);
    let mut broken = Line::new(|k: Kept| -> Option<Result<Response, Error>> {
        assert!(k.owner == 2 && matches!(k.request, Request::Direct(_)));
        Some(Err(Error::Protocol("gone".to_string())))
    });
    assert!(r.forward(ShardId(3), Request::Info, &mut broken, &mut dials).is_ok());
    let mut kept =
        Line::new(|_: Kept| -> Option<Result<Response, Error>> { Some(Ok(Response::Done)) });
    let mut never = Line::new(|_: Fresh| -> Result<Response, Error> { panic!("dialled") });
    assert!(r.forward(ShardId(3), Request::Info, &mut kept, &mut never).is_ok());
    let mut down = Line::new(|_: Fresh| -> Result<Response, Error> {
        Err(Error::Protocol("down".to_string()))
    });
    assert!(r.forward(ShardId(3), Request::Info, &mut no_link, &mut down).is_err());
    assert_eq!(r.stats(), ForwardStats { forwarded: 4, failed: 1 });
    match r.forward(ShardId(4), Request::Info, &mut no_link, &mut dials) {
        Err(e) => assert_eq!(
            e.to_text(),
            "no node owns shard_4 (owner is node 9, whose address is unknown)"
        ),
        other => panic!("{other:?}"),
    }
    match r.forward(ShardId(8), Request::Info, &mut no_link, &mut dials) {
        Err(Error::NoOwner { shard }) => assert_eq!(shard, "shard_8"),
        other => panic!("{other:?}"),
    }
    assert_eq!(r.stats(), ForwardStats { forwarded: 4, failed: 2 });
    assert!(r.is_mine(ShardId(8)) && !r.is_mine(ShardId(3)));
    assert_eq!(r.owner(ShardId(3)), Some(2));
}

// ---- handling a request here -------------------------------------------------------------------

fn reply(l: Local) -> Response {
    match l {
        Local::Reply(r) => r,
        other => panic!("{other:?}"),
    }
}

#[test]
fn a_node_answers_for_itself() {
    let mut s = NodeServices::standalone();
    assert!(s.is_open());
    match reply(handle_local(greet(3), &FACTS, &mut s)) {
        Response::Welcome { version: 3, shard_count: 4, epoch: Some(7) } => {}
        other => panic!("{other:?}"),
    }
    assert!(message(&reply(handle_local(greet(2), &FACTS, &mut s))).contains("version 2"));
    match reply(handle_local(Request::Info, &FACTS, &mut s)) {
        Response::Info { shard_count: 4, epoch: Some(7), wal_retries: 1, contended_opens: 2 } => {}
        other => panic!("{other:?}"),
    }
    let bound = Request::QueryAll {
        statement: DbStatement::with_params("SELECT ?1", vec![DbValue::Integer(1)]),
    };
    assert!(message(&reply(handle_local(bound, &FACTS, &mut s)))
        .starts_with("a cross-shard query cannot carry bound parameters yet"));
    let vote = message(&reply(handle_local(Request::Vote(vec![1]), &FACTS, &mut s)));
    assert_eq!(
        vote,
        "this node is not a cluster member, so it cannot answer a vote request; it was started \
         without cluster configuration"
    );
    s.member = true;
    assert!(matches!(
        handle_local(Request::Beat(vec![1]), &FACTS, &mut s),
        Local::Carry(Request::Beat(_))
    ));
    let long = Request::SnapshotRead { shard: 0, offset: 5, len: u32::MAX };
    match handle_local(Request::Direct(Box::new(long)), &FACTS, &mut s) {
        Local::Carry(Request::SnapshotRead { shard: 0, offset: 5, len: 8_388_608 }) => {}
        other => panic!("{other:?}"),
    }
}

#[test]
fn users_are_managed_over_the_wire_but_not_cluster_ones() {
    let create = |role| Request::CreateUser { name: "bob".to_string(), key: [1; 32], role };
    let mut s = NodeServices::standalone();
    let off = message(&reply(handle_local(create(Role::Read), &FACTS, &mut s)));
    assert!(off.starts_with("authentication is not enabled on this server, so there are no users"));
    s.auth = Some(AuthConfig::open("users", None).unwrap().0);
    let minted = message(&reply(handle_local(create(Role::Cluster), &FACTS, &mut s)));
    assert!(minted.starts_with("an admin may not create a cluster user"));
    match handle_local(create(Role::Write), &FACTS, &mut s) {
        Local::Save { text, reply: Response::Done } => assert!(text.contains("user bob write ")),
        other => panic!("{other:?}"),
    }
    match reply(handle_local(Request::ListUsers, &FACTS, &mut s)) {
        Response::Users { users } => assert_eq!(users, vec![("bob".to_string(), Role::Write)]),
        other => panic!("{other:?}"),
    }
    let drop = |n: &str| Request::DropUser { name: n.to_string() };
    let gone = message(&reply(handle_local(drop("ann"), &FACTS, &mut s)));
    assert_eq!(gone, "no such user: ann");
    assert!(matches!(
        handle_local(drop("bob"), &FACTS, &mut s),
        Local::Save { reply: Response::Done, .. }
    ));
}

fn txn(lsn: u64) -> StreamTxn {
    let frames = vec![Frame { page_no: 1, data: vec![0; 10] }];
    StreamTxn {
        lsn,
        txn: CommittedTxn { db_size_pages: 1, page_size: 4096, generation: 1, frames },
    }
}

#[test]
fn a_subscription_is_served_and_acknowledges() {
    let mut log = FrameLog::new(FrameLogConfig { total_bytes: 1 << 20, shard_count: 1 });
    log.accept(ShardId(0), 7, (1..=5).map(txn).collect()).unwrap();
    let mut s = NodeServices::standalone();
    let ask = |epoch, from_lsn, node| Request::Subscribe {
        node,
        shard: 0,
        epoch,
        from_lsn,
        max_txns: 0,
    };
    let none = reply(handle_local(ask(0, 1, 0), &FACTS, &mut s));
    assert_eq!(message(&none), "this node has no frame log, so it cannot serve followers");
    s.frames = Some(log);
    s.acks = Some(AckTracker::new(3, 1000));
    match reply(handle_local(ask(7, 4, 2), &FACTS, &mut s)) {
        Response::Frames { shard: 0, epoch: 7, txns } => {
            assert_eq!(txns.len(), 1);
            assert_eq!(txns[0].lsn, 4);
        }
        other => panic!("{other:?}"),
    }
    assert_eq!(s.acks.as_ref().unwrap().quorum_lsn(ShardId(0)), 3);
    assert!(matches!(
        reply(handle_local(ask(0, 6, 0), &FACTS, &mut s)),
        Response::UpToDate { shard: 0 }
    ));
    match reply(handle_local(ask(6, 1, 0), &FACTS, &mut s)) {
        Response::NeedsBootstrap { shard: 0, reason } => {
            assert!(reason.starts_with("follower is on epoch 6, this node is on 7"))
        }
        other => panic!("{other:?}"),
    }
    match reply(handle_local(ask(7, 0, 0), &FACTS, &mut s)) {
        Response::NeedsBootstrap { reason, .. } => {
            assert!(reason.starts_with("frames before LSN 1 are no longer retained"))
        }
        other => panic!("{other:?}"),
    }
    let idle = NodeFacts { epoch: None, ..FACTS };
    let off = message(&reply(handle_local(ask(7, 1, 0), &idle, &mut s)));
    assert!(off.ends_with("(capture is off)"));
}

#[test]
fn outcomes_become_answers() {
    let rejected = || Outcome::Rejected("no such table".to_string());
    match transaction_reply(Ok(vec![changed(2, 5), changed(3, 8)])) {
        Response::Changed { rows_affected: 5, last_insert_rowid: 8 } => {}
        other => panic!("{other:?}"),
    }
    assert!(matches!(
        transaction_reply(Ok(vec![changed(2, 5), rejected()])),
        Response::Error { retryable: false, .. }
    ));
    match execute_reply(Ok(vec![changed(2, 5), changed(3, 8)])) {
        Response::Changed { rows_affected: 3, last_insert_rowid: 8 } => {}
        other => panic!("{other:?}"),
    }
    assert_eq!(message(&execute_reply(Ok(vec![rejected(), changed(1, 1)]))), "no such table");
    assert!(matches!(
        execute_reply(Ok(vec![])),
        Response::Changed { rows_affected: 0, last_insert_rowid: 0 }
    ));
    assert!(matches!(query_reply(Ok(rejected())), Response::Rejected { .. }));
    let table = QueryResult { columns: vec!["a".to_string()], rows: vec![] };
    assert!(matches!(query_all_reply(Ok(table)), Response::Rows { .. }));
    assert!(matches!(
        error_response(Error::WriterBusy),
        Response::Error { retryable: true, .. }
    ));
    assert!(matches!(
        query_reply(Err(Error::Protocol("x".to_string()))),
        Response::Error { retryable: false, .. }
    ));
    assert!(matches!(
        schema_reply(3, Ok(9)),
        Response::SchemaVersion { shard: 3, version: 9 }
    ));
    assert!(matches!(vote_reply(Ok(vec![1])), Response::Voted(_)));
    assert!(matches!(beat_reply(Ok(vec![1])), Response::Beat(_)));
}

#[test]
fn snapshots_are_answered() {
    let taken = SnapshotTaken::Frozen { epoch: 1, lsn: 2, total_bytes: 3 };
    assert!(matches!(
        snapshot_begin_reply(4, taken),
        (Response::SnapshotInfo { shard: 4, epoch: 1, lsn: 2, total_bytes: 3 }, false)
    ));
    let (r, release) = snapshot_begin_reply(4, SnapshotTaken::Unsized("gone".to_string()));
    assert_eq!((message(&r).as_str(), release), ("sizing snapshot: gone", true));
    let (_, release) = snapshot_begin_reply(4, SnapshotTaken::Failed(Error::WriterBusy));
    assert!(!release);
    assert!(matches!(snapshot_end_reply(4, Ok(true)), Response::Done));
    match snapshot_end_reply(4, Ok(false)) {
        Response::Error { message, retryable: true } => {
            assert!(message.starts_with("the snapshot of shard_4 was invalidated"))
        }
        other => panic!("{other:?}"),
    }
    assert!(matches!(snapshot_read_reply(Ok(vec![1])), Response::SnapshotChunk { .. }));
}

#[test]
fn a_schema_change_reports_shard_by_shard() {
    let r = Some(router(1, &[(0, 1), (1, 2), (2, 1)], &[(2, "b:1")]));
    let mut line = Line::new(|roll: Roll| match roll.request {
        Request::SchemaApply { shard: 2, .. } => {
            assert!(roll.here);
            Err(Error::WriterBusy)
        }
        Request::SchemaApply { shard, .. } => {
            assert_eq!(roll.here, shard != 1);
            Ok(Response::SchemaVersion { shard, version: 2 })
        }
        other => panic!("{other:?}"),
    });
    match execute_all(3, &r, &stmt("CREATE TABLE t (a)"), &mut line) {
        Response::AllShards { outcomes } => {
            assert_eq!(outcomes.len(), 3);
            assert!(matches!(outcomes[0], (0, ShardOutcome::Applied)));
            assert!(matches!(outcomes[1], (1, ShardOutcome::Applied)));
            assert!(matches!(outcomes[2], (2, ShardOutcome::Rejected(_))));
        }
        other => panic!("{other:?}"),
    }
    match outcome_of(Ok(Response::Done)) {
        ShardOutcome::Rejected(m) => assert_eq!(m, "unexpected response: Ok"),
        other => panic!("{other:?}"),
    }
    assert_eq!(response_kind(&Response::UpToDate { shard: 1 }), "UpToDate");
}
