use shardlite::replication::log::{FrameLog, FrameLogConfig, Served};
use shardlite::replication::stream::StreamTxn;
use shardlite::replication::FrameSink;
use shardlite::shard::ShardId;
use shardlite::vfs::{CommittedTxn, Frame};

fn txn(lsn: u64, bytes: usize) -> StreamTxn {
    StreamTxn {
        lsn,
        txn: CommittedTxn {
            db_size_pages: 1,
            page_size: 4096,
            generation: 1,
            frames: vec![Frame { page_no: 1, data: vec![0u8; bytes] }],
        },
    }
}

fn log_of(total: usize) -> FrameLog {
    FrameLog::new(FrameLogConfig { total_bytes: total, shard_count: 1 })
}

#[test]
fn serves_from_a_retained_position() {
    let mut log = log_of(1024 * 1024);
    let batch: Vec<StreamTxn> = (1..=10).map(|i| txn(i, 100)).collect();
    log.accept(ShardId(0), 1, batch).unwrap();

    match log.serve(ShardId(0), 4, 100) {
        Served::Frames(f) => {
            assert_eq!(f.len(), 7);
            assert_eq!(f[0].lsn, 4);
            assert_eq!(f.last().unwrap().lsn, 10);
        }
        other => panic!("expected frames, got {other:?}"),
    }
}

#[test]
fn a_follower_level_with_the_primary_is_up_to_date() {
    let mut log = log_of(1024 * 1024);
    log.accept(ShardId(0), 1, (1..=5).map(|i| txn(i, 100)).collect()).unwrap();
    assert!(matches!(log.serve(ShardId(0), 6, 100), Served::UpToDate));
}

#[test]
fn evicted_history_is_reported_as_too_old_not_as_a_gap() {
    let mut log = log_of(64 * 1024);
    log.accept(ShardId(0), 1, (1..=8).map(|i| txn(i, 40_000)).collect()).unwrap();

    let lowest = log.lowest_retained(ShardId(0)).unwrap();
    assert!(lowest > 1, "old frames should have been evicted");

    match log.serve(ShardId(0), 1, 100) {
        Served::TooOld { lowest_retained } => assert_eq!(lowest_retained, lowest),
        other => panic!("expected TooOld, got {other:?}"),
    }
    assert!(log.stats().missed_requests > 0, "the miss must be counted");
}

#[test]
fn retention_stays_inside_its_budget_and_counts_evictions() {
    let mut log = log_of(64 * 1024);
    log.accept(ShardId(0), 1, (1..=50).map(|i| txn(i, 10_000)).collect()).unwrap();

    let stats = log.stats();
    assert!(
        stats.bytes <= 64 * 1024 + 10_000,
        "retention exceeded its budget: {} bytes",
        stats.bytes
    );
    assert!(stats.evicted_txns > 0, "evictions must be counted");
    assert_eq!(stats.retained_txns, 50);
}

#[test]
fn the_budget_is_divided_between_shards_not_multiplied_by_them() {
    let cfg = FrameLogConfig { total_bytes: 8 * 1024 * 1024, shard_count: 64 };
    let mut log = FrameLog::new(cfg);
    for s in 0..64u32 {
        log.accept(ShardId(s), 1, (1..=40).map(|i| txn(i, 20_000)).collect()).unwrap();
    }
    let bytes = log.stats().bytes;
    assert!(
        bytes <= 16 * 1024 * 1024,
        "64 shards retained {bytes} bytes against an 8 MiB budget"
    );
}

#[test]
fn an_unknown_shard_is_level_from_its_start() {
    let mut log = log_of(1024);
    assert!(matches!(log.serve(ShardId(9), 1, 10), Served::UpToDate));
    assert!(matches!(log.serve(ShardId(9), 2, 10), Served::TooOld { lowest_retained: 0 }));
    assert_eq!(log.lowest_retained(ShardId(9)), None);
}

#[test]
fn an_answer_holds_no_more_than_was_asked_for() {
    let mut log = log_of(1024 * 1024);
    log.accept(ShardId(0), 1, (1..=10).map(|i| txn(i, 10)).collect()).unwrap();
    match log.serve(ShardId(0), 3, 2) {
        Served::Frames(f) => assert_eq!(f.iter().map(|t| t.lsn).collect::<Vec<_>>(), vec![3, 4]),
        other => panic!("{other:?}"),
    }
    assert_eq!(log.highest_retained(ShardId(0)), Some(10));
}
