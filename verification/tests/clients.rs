use std::cell::RefCell;

use shardlite::calls::Line;
use shardlite::error::Error;
use shardlite::net::auth::{derive_key, prove, Role};
use shardlite::net::client::{Client, Dial};
use shardlite::net::protocol::{ReadConsistency, Request, Response, ShardOutcome};
use shardlite::net::replica::{
    sync_once, Bootstrap, Event, Heard, Move, Replica, ReplicaConfig, Turn,
};
use shardlite::replication::bootstrap::{
    pump, CopyStep, SnapshotId, SnapshotSource, SnapshotTransfer,
};
use shardlite::replication::follower::{apply_at, Durable, Follower, Need, Position};
use shardlite::replication::log::{FrameLog, FrameLogConfig, Served};
use shardlite::replication::stream::StreamTxn;
use shardlite::replication::{FrameSink, MemorySink, NullSink};
use shardlite::shard::ShardId;
use shardlite::storage::exec::{DbStatement, DbValue};
use shardlite::vfs::{CommittedTxn, Frame};

fn welcome() -> Response {
    Response::Welcome { version: 3, shard_count: 8, epoch: Some(2) }
}

type Link = Box<dyn Fn(Request) -> Result<Response, Error>>;

fn link(answer: fn(Request) -> Response) -> Link {
    Box::new(move |q| match q {
        Request::Hello { version, client } => {
            assert_eq!((version, client.as_str()), (3, "meshdb-client/0.1.0"));
            Ok(welcome())
        }
        other => Ok(answer(other)),
    })
}

fn client(answer: fn(Request) -> Response) -> Client<Link> {
    Client::from_link(link(answer), None).ok().unwrap()
}

#[test]
fn a_client_learns_what_the_server_is() {
    let c = client(|_| Response::Done);
    assert_eq!((c.shard_count(), c.epoch()), (8, Some(2)));
}

#[test]
fn a_challenge_is_answered_with_a_proof() {
    let wants = |q: Request| match q {
        Request::Hello { .. } => Ok(Response::Challenge { nonce: [9; 32] }),
        Request::Auth { name, proof } => {
            assert_eq!(name, "ann");
            assert_eq!(proof, prove(&derive_key("pw"), &[9; 32]));
            Ok(welcome())
        }
        other => panic!("{other:?}"),
    };
    let key = Some(("ann".to_string(), derive_key("pw")));
    assert!(Client::from_link(wants, key).is_ok());
    match Client::from_link(wants, None) {
        Err(e) => assert!(e.to_text().starts_with("this server requires authentication")),
        Ok(_) => panic!("connected"),
    }
}

#[test]
fn connecting_dials_and_shakes_hands() {
    let dialled = RefCell::new(Vec::new());
    let mut dial = Line::new(|d: Dial| {
        dialled.borrow_mut().push((d.addr.clone(), d.connect_ms, d.io_ms));
        if d.addr == "nowhere" {
            Err(Error::Protocol("resolving nowhere".to_string()))
        } else {
            Ok(link(|_| Response::Done))
        }
    });
    assert!(Client::connect("a:1", &mut dial).is_ok());
    assert!(Client::connect_bounded("b:1", 5, 6, &mut dial).is_ok());
    assert!(Client::connect_as("c:1", "ann", "pw", &mut dial).is_ok());
    assert!(Client::connect_with("nowhere", 7, &mut dial).is_err());
    assert_eq!(
        *dialled.borrow(),
        vec![
            ("a:1".to_string(), 30_000, 30_000),
            ("b:1".to_string(), 5, 6),
            ("c:1".to_string(), 30_000, 30_000),
            ("nowhere".to_string(), 7, 7)
        ]
    );
}

#[test]
fn a_link_is_secured_before_the_handshake() {
    let mut dial = Line::new(|_: Dial| -> Result<u8, Error> { Ok(5) });
    let mut secure = Line::new(|raw: u8| -> Result<Link, Error> {
        assert_eq!(raw, 5);
        Ok(link(|_| Response::Done))
    });
    assert!(Client::connect_tls("a:1", 1, 2, None, &mut dial, &mut secure).is_ok());
    let mut fails = Line::new(|_: u8| -> Result<Link, Error> {
        Err(Error::Protocol("handshake".to_string()))
    });
    match Client::connect_tls("a:1", 1, 2, None, &mut dial, &mut fails) {
        Err(e) => assert_eq!(e.to_text(), "handshake"),
        Ok(_) => panic!("connected"),
    }
}

#[test]
fn requests_and_answers() {
    let mut c = client(|q| match q {
        Request::Route { key } => Response::Routed { shard: key.len() as u32 },
        Request::Query { consistency: ReadConsistency::Linearizable, .. } => {
            Response::Rows { columns: vec!["a".to_string()], rows: vec![] }
        }
        Request::Query { .. } => Response::TooStale { shard: 1, have: 2, need: 3 },
        Request::QueryAll { .. } => Response::Rejected { message: "no such table".to_string() },
        Request::Execute { shard, statements } => match statements[0].sql.as_str() {
            "BEGIN" => Response::Done,
            "ROLLBACK" => Response::Done,
            "COMMIT" => Response::Changed { rows_affected: 2, last_insert_rowid: 3 },
            "STAGE" => Response::Staged { queued: 1 },
            "SELECT" => Response::Rows { columns: vec![], rows: vec![] },
            _ => Response::Changed { rows_affected: shard as u64, last_insert_rowid: 1 },
        },
        Request::ExecuteAll { .. } => {
            Response::AllShards { outcomes: vec![(0, ShardOutcome::Applied)] }
        }
        Request::CreateUser { key, .. } => {
            assert_eq!(key, derive_key("pw"));
            Response::Done
        }
        Request::DropUser { .. } => Response::Error { message: "no".to_string(), retryable: false },
        Request::ListUsers => Response::Users { users: vec![("a".to_string(), Role::Read)] },
        _ => Response::Error { message: "busy".to_string(), retryable: true },
    });
    let s = |t: &str| DbStatement::new(t);
    assert_eq!(c.route(&vec![1, 2]).unwrap(), 2);
    assert_eq!(c.query(0, s("x")).unwrap().columns, vec!["a".to_string()]);
    match c.query_with(0, s("x"), ReadConsistency::Stale) {
        Err(e) => assert_eq!(e.to_text(), "unexpected response: TooStale"),
        Ok(_) => panic!(),
    }
    assert!(matches!(c.query_all("x"), Err(Error::Unsupported(m)) if m == "no such table"));
    assert_eq!(c.execute(4, s("x")).unwrap(), (4, 1));
    assert_eq!(c.execute_batch(4, vec![s("SELECT")]).unwrap(), (0, 0));
    assert_eq!(c.put(&vec![1, 2, 3], "x", vec![DbValue::Null]).unwrap(), (3, 1));
    assert_eq!(c.execute_all("x").unwrap().len(), 1);
    assert!(c.create_user("ann", "pw", Role::Read).is_ok());
    assert!(matches!(c.drop_user("ann"), Err(Error::Protocol(_))));
    assert_eq!(c.list_users().unwrap().len(), 1);
    assert!(matches!(c.request(Request::Info), Err(Error::Busy(m)) if m == "busy"));
    let mut t = c.begin(5).unwrap();
    assert_eq!(t.execute(s("STAGE")).unwrap(), 1);
    assert!(matches!(t.raw(Request::Info), Err(Error::Busy(_))));
    assert_eq!(t.commit().unwrap(), (2, 3));
    assert!(c.begin(5).unwrap().rollback().is_ok());
}

#[test]
fn peers_vote_and_beat() {
    let mut c = client(|q| match q {
        Request::Vote(m) => Response::Voted(m.into_iter().rev().collect()),
        Request::Beat(m) if m.is_empty() => Response::Done,
        Request::Beat(m) => Response::Beat(m),
        other => panic!("{other:?}"),
    });
    assert_eq!(c.request_vote(&vec![1, 2]).unwrap(), vec![2, 1]);
    assert_eq!(c.heartbeat(&vec![3]).unwrap(), vec![3]);
    assert!(c.heartbeat(&vec![]).is_err());
}

// ---- following ---------------------------------------------------------------------------------

fn txn(lsn: u64) -> StreamTxn {
    let frames = vec![Frame { page_no: 1, data: vec![0; 10] }];
    StreamTxn {
        lsn,
        txn: CommittedTxn { db_size_pages: 1, page_size: 4096, generation: 1, frames },
    }
}

fn replica() -> Replica {
    let cfg = ReplicaConfig {
        primary_addr: "p:1".to_string(),
        shards: vec![ShardId(0)],
        poll_interval_ms: 100,
        batch: 2,
        snapshot_chunk: 4,
        staging_dir: "staging".to_string(),
    };
    Replica::new(cfg, Follower::open("dir".to_string(), &Vec::new()))
}

#[test]
fn a_follower_asks_for_what_it_lacks() {
    let mut r = replica();
    match r.turn(ShardId(0)) {
        Turn::Ask(Request::Subscribe { node: 0, shard: 0, epoch: 0, from_lsn: 1, max_txns: 2 }) => {}
        other => panic!("{other:?}"),
    }
    let frames = Response::Frames { shard: 0, epoch: 7, txns: vec![txn(1), txn(2)] };
    let (epoch, txns) = match r.hear(frames) {
        Heard::Apply { epoch, txns } => (epoch, txns),
        other => panic!("{other:?}"),
    };
    let from = r.follower().position(ShardId(0));
    let mut disk = Line::new(|_: Durable<'_>| Ok(()));
    let pos = apply_at(from, ShardId(0), epoch, &txns, &mut disk).unwrap().unwrap();
    assert_eq!(pos, Position { epoch: 7, applied_lsn: 2 });
    assert!(r.applied(ShardId(0), pos, 2), "a full batch means there may be more");
    assert!(matches!(
        r.turn(ShardId(0)),
        Turn::Ask(Request::Subscribe { epoch: 7, from_lsn: 3, .. })
    ));
    assert!(matches!(r.hear(Response::UpToDate { shard: 0 }), Heard::Level));
    let empty = Response::Frames { shard: 0, epoch: 7, txns: vec![] };
    assert!(matches!(r.hear(empty), Heard::Level));
    let old = Response::NeedsBootstrap { shard: 0, reason: "old".to_string() };
    assert!(matches!(r.hear(old), Heard::Bootstrap));
    match r.hear(Response::Done) {
        Heard::Failed(e) => assert_eq!(e.to_text(), "unexpected response to subscribe: Ok"),
        other => panic!("{other:?}"),
    }
    r.bootstrapped(ShardId(0), Position { epoch: 8, applied_lsn: 50 });
    r.failed();
    let s = r.stats();
    assert_eq!((s.polls, s.applied_txns, s.up_to_date, s.bootstraps, s.errors), (2, 2, 1, 1, 1));
    r.stop();
    assert!(matches!(r.turn(ShardId(0)), Turn::Stop));
}

#[test]
fn a_gap_is_never_applied() {
    let mut f = Follower::open("dir".to_string(), &Vec::new());
    let (second, sixth, seventh) = (vec![txn(2)], vec![txn(6)], vec![txn(7)]);
    let both = vec![txn(6), txn(7)];
    let deeds = RefCell::new(0);
    let mut disk = Line::new(|_: Durable<'_>| {
        *deeds.borrow_mut() += 1;
        Ok(())
    });
    assert!(f.apply(ShardId(0), 7, &second, &mut disk).is_err());
    f.record(ShardId(0), Position { epoch: 7, applied_lsn: 5 });
    assert!(f.apply(ShardId(0), 7, &seventh, &mut disk).is_err());
    assert!(f.apply(ShardId(0), 8, &sixth, &mut disk).is_err());
    assert_eq!(*deeds.borrow(), 0);
    assert!(matches!(f.need(ShardId(0), 7), Need::Next(6)));
    assert!(f.apply(ShardId(0), 7, &both, &mut disk).is_ok());
    assert_eq!(*deeds.borrow(), 2);
    assert!(matches!(f.need(ShardId(0), 7), Need::Next(8)));
    assert!(matches!(f.need(ShardId(0), 8), Need::Bootstrap { .. }));
    assert!(matches!(f.need(ShardId(3), 7), Need::Bootstrap { .. }));
}

#[test]
fn pages_are_durable_before_the_position_moves() {
    let txns = vec![txn(1), txn(2)];
    let failing = RefCell::new(0);
    let seen = RefCell::new(Vec::new());
    let deed = |d: Durable<'_>| {
        seen.borrow_mut().push(match d {
            Durable::Write(s, t) => format!("write {} {}", s.0, t.len()),
            Durable::Check(s) => format!("check {}", s.0),
            Durable::Swap(s) => format!("swap {}", s.0),
            Durable::Place(s, p) => format!("place {} {}:{}", s.0, p.epoch, p.applied_lsn),
        });
        if seen.borrow().len() == *failing.borrow() {
            Err(Error::Manifest("disk".to_string()))
        } else {
            Ok(())
        }
    };
    let mut disk = Line::new(deed);
    let mut f = Follower::open("dir".to_string(), &Vec::new());
    for (at, steps) in [(1, vec!["write 3 2"]), (2, vec!["write 3 2", "place 3 7:2"])] {
        *failing.borrow_mut() = at;
        seen.borrow_mut().clear();
        let e = f.apply(ShardId(3), 7, &txns, &mut disk).unwrap_err();
        assert_eq!(e.to_text(), Error::Manifest("disk".to_string()).to_text());
        assert_eq!(*seen.borrow(), steps);
        assert_eq!(f.position(ShardId(3)), Position { epoch: 0, applied_lsn: 0 });
    }
    *failing.borrow_mut() = 0;
    let reached = f.apply(ShardId(3), 7, &txns, &mut disk).unwrap();
    assert_eq!(reached, Some(Position { epoch: 7, applied_lsn: 2 }));
    assert_eq!(f.position(ShardId(3)), Position { epoch: 7, applied_lsn: 2 });
    let at = Position { epoch: 8, applied_lsn: 9 };
    for (bad, n) in [(1, 1), (2, 2), (3, 3), (0, 3)] {
        *failing.borrow_mut() = bad;
        seen.borrow_mut().clear();
        assert_eq!(f.install_snapshot(ShardId(3), at, &mut disk).is_ok(), bad == 0);
        assert_eq!(*seen.borrow(), ["check 3", "swap 3", "place 3 8:9"][..n]);
    }
    assert_eq!(f.position(ShardId(3)), at);
}

#[test]
fn shards_are_caught_up_in_turn_until_one_fails() {
    let seen = RefCell::new(Vec::new());
    let mut each = Line::new(|s: ShardId| {
        seen.borrow_mut().push(s.0);
        if s.0 == 9 {
            Err(Error::Protocol("down".to_string()))
        } else {
            Ok(())
        }
    });
    assert!(sync_once(&vec![ShardId(2), ShardId(1)], &mut each).is_ok());
    let e = sync_once(&vec![ShardId(4), ShardId(9), ShardId(5)], &mut each).unwrap_err();
    assert_eq!(e.to_text(), "down");
    assert_eq!(*seen.borrow(), vec![2, 1, 4, 9]);
    assert!(sync_once(&vec![], &mut each).is_ok());
}

#[test]
fn a_follower_applies_what_a_log_serves() {
    let mut log = FrameLog::new(FrameLogConfig::floor(1));
    log.accept(ShardId(0), 7, (1..=5).map(txn).collect()).unwrap();
    let mut f = Follower::open("dir".to_string(), &Vec::new());
    let mut reached = Vec::new();
    loop {
        let from = f.position(ShardId(0)).applied_lsn + 1;
        match log.serve(ShardId(0), from, 2) {
            Served::Frames(txns) => {
                let mut disk = Line::new(|_: Durable<'_>| Ok(()));
                let pos = f.apply(ShardId(0), 7, &txns, &mut disk).unwrap().unwrap();
                reached.push(pos.applied_lsn);
            }
            Served::UpToDate => break,
            other => panic!("{other:?}"),
        }
    }
    assert_eq!(reached, vec![2, 4, 5]);
}

fn drive(
    chunk: usize,
    ask: &dyn Fn(Request) -> Response,
    open: &dyn Fn(SnapshotId) -> SnapshotTransfer,
    did: &dyn Fn(&Move),
) -> Result<Position, Error> {
    let (mut copy, first) = Bootstrap::start(ShardId(3), chunk);
    let mut next = Move::Ask(first);
    loop {
        did(&next);
        let event = match next {
            Move::Ask(q) => Event::Heard(Ok(ask(q))),
            Move::Open(id) => Event::Opened(Ok(open(id))),
            Move::Over(r) => return r,
            _ => Event::Did(Ok(())),
        };
        next = copy.next(event);
    }
}

const ID: SnapshotId = SnapshotId { shard: ShardId(3), epoch: 7, lsn: 9, total_bytes: 10 };

#[test]
fn a_snapshot_is_copied_and_released() {
    let data: Vec<u8> = (0..10).collect();
    let moves = RefCell::new(Vec::new());
    let file = RefCell::new(Vec::new());
    let ask = |q: Request| match q {
        Request::SnapshotBegin { shard } => {
            Response::SnapshotInfo { shard, epoch: 7, lsn: 9, total_bytes: 10 }
        }
        Request::SnapshotRead { offset, len, .. } => {
            let end = data.len().min(offset as usize + len as usize);
            Response::SnapshotChunk { data: data[offset as usize..end].to_vec() }
        }
        Request::SnapshotEnd { shard: 3 } => Response::Done,
        other => panic!("{other:?}"),
    };
    let open = |id: SnapshotId| SnapshotTransfer::begin(id, None, 0).0;
    let did = |m: &Move| {
        moves.borrow_mut().push(format!("{m:?}").split(['(', ' ']).next().unwrap_or("").to_string());
        match m {
            Move::Append { at, data } => {
                assert_eq!(*at as usize, file.borrow().len());
                file.borrow_mut().extend_from_slice(data);
            }
            Move::Install(id, p) => {
                assert_eq!((*id, *p), (ID, Position { epoch: 7, applied_lsn: 9 }));
                assert_eq!(file.borrow().len(), 10);
            }
            Move::Note(t) => assert!(SnapshotId::decode(t).is_some()),
            _ => {}
        }
    };
    let pos = drive(4, &ask, &open, &did).unwrap();
    assert_eq!(pos, Position { epoch: 7, applied_lsn: 9 });
    assert_eq!(*file.borrow(), data);
    let each = ["Ask", "Append", "Note"];
    let mut expected = vec!["Ask", "Open"];
    for _ in 0..3 {
        expected.extend_from_slice(&each);
    }
    expected.extend_from_slice(&["Install", "Ask", "Over"]);
    assert_eq!(*moves.borrow(), expected);
}

#[test]
fn a_failed_copy_releases_the_freeze_too() {
    let ended = RefCell::new(0);
    let ask = |q: Request| match q {
        Request::SnapshotBegin { shard } => {
            Response::SnapshotInfo { shard, epoch: 7, lsn: 9, total_bytes: 10 }
        }
        Request::SnapshotRead { .. } => Response::SnapshotChunk { data: vec![] },
        _ => {
            *ended.borrow_mut() += 1;
            Response::Done
        }
    };
    let open = |id: SnapshotId| SnapshotTransfer::begin(id, Some(&ID.encode(6)), 6).0;
    let did = |m: &Move| assert!(!matches!(m, Move::Install(..)));
    let e = drive(4, &ask, &open, &did).unwrap_err();
    assert_eq!(e.to_text(), "the primary stopped sending at 6 of 10 bytes");
    assert_eq!(*ended.borrow(), 1);
}

#[test]
fn a_transfer_resumes_only_the_same_snapshot() {
    let text = ID.encode(6);
    let (t, keep) = SnapshotTransfer::begin(ID, Some(&text), 8);
    assert_eq!((t.offset(), keep), (6, true));
    let (t, keep) = SnapshotTransfer::begin(ID, Some(&text), 4);
    assert_eq!((t.offset(), keep), (4, true));
    let other = SnapshotId { lsn: 10, ..ID };
    let (t, keep) = SnapshotTransfer::begin(other, Some(&text), 8);
    assert_eq!((t.offset(), keep), (0, false));
    assert!(t.finish().unwrap_err().to_text().contains("incomplete: 0 of 10 bytes"));
}

#[test]
fn a_pump_copies_what_remains() {
    let data: Vec<u8> = (0..10).collect();
    let file = RefCell::new(data[..6].to_vec());
    let mut line = Line::new(|step: CopyStep| -> Result<Vec<u8>, Error> {
        match step {
            CopyStep::Read { at, n } => {
                let end = data.len().min(at as usize + n);
                Ok(data[at as usize..end].to_vec())
            }
            CopyStep::Append { data, .. } => {
                file.borrow_mut().extend_from_slice(&data);
                Ok(vec![])
            }
            CopyStep::Note(_) => Ok(vec![]),
        }
    });
    let mut source = SnapshotSource::open(ShardId(3), 7, 9, 10);
    let (mut transfer, _) = SnapshotTransfer::begin(ID, Some(&ID.encode(6)), 6);
    pump(&mut source, &mut transfer, 3, &mut line).unwrap();
    assert!(transfer.is_complete());
    assert_eq!(*file.borrow(), data);
    assert_eq!(transfer.finish().unwrap(), Position { epoch: 7, applied_lsn: 9 });
    let mut wrong = SnapshotSource::open(ShardId(3), 7, 8, 10);
    let e = pump(&mut wrong, &mut transfer, 3, &mut line).unwrap_err();
    assert!(e.to_text().starts_with("snapshot identity mismatch for shard_3"));
}

#[test]
fn sinks_take_what_they_are_given() {
    let mut null = NullSink::new();
    null.accept(ShardId(0), 1, vec![txn(1), txn(2)]).unwrap();
    assert_eq!(null.counts(), (2, 2, 20));
    let mut memory = MemorySink::new();
    memory.accept(ShardId(4), 1, vec![txn(1)]).unwrap();
    memory.accept(ShardId(2), 1, vec![txn(1), txn(2)]).unwrap();
    assert_eq!(memory.txn_count(ShardId(2)), 2);
    assert_eq!(memory.shards(), vec![ShardId(2), ShardId(4)]);
    assert_eq!(memory.take(ShardId(2)).len(), 2);
    assert_eq!(memory.txn_count(ShardId(2)), 0);
}
