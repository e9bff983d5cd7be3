use shardlite::replication::stream::StreamPositions;
use shardlite::shard::ShardId;

fn fresh() -> StreamPositions {
    StreamPositions::load_or_init("stream", None).unwrap()
}

#[test]
fn allocates_dense_positions_per_shard() {
    let mut p = fresh();
    assert_eq!(p.allocate(ShardId(0), 3), 1);
    assert_eq!(p.allocate(ShardId(0), 2), 4);
    assert_eq!(p.last_allocated(ShardId(0)), 5);
    assert_eq!(p.allocate(ShardId(1), 1), 1);
}

#[test]
fn rolling_back_returns_positions_for_reuse() {
    let mut p = fresh();
    assert_eq!(p.allocate(ShardId(0), 5), 1);
    p.rollback(ShardId(0), 5);
    assert_eq!(p.allocate(ShardId(0), 5), 1, "rolled-back positions must be handed out again");
}

#[test]
fn a_clean_shutdown_continues_the_epoch() {
    let mut p = fresh();
    p.allocate(ShardId(0), 10);
    let text = p.mark_clean();
    let epoch = p.epoch();

    let mut p2 = StreamPositions::load_or_init("stream", Some(&text)).unwrap();
    assert_eq!(p2.epoch(), epoch, "a clean restart keeps the epoch");
    assert_eq!(p2.allocate(ShardId(0), 1), 11, "and continues the LSN where it stopped");
}

#[test]
fn an_unclean_shutdown_bumps_the_epoch_and_forces_rebootstrap() {
    let mut p = fresh();
    let text = p.persist();
    p.allocate(ShardId(0), 10);
    let epoch = p.epoch();

    let mut p2 = StreamPositions::load_or_init("stream", Some(&text)).unwrap();
    assert_eq!(p2.epoch(), epoch + 1, "an unclean restart must bump the epoch");
    assert_eq!(
        p2.allocate(ShardId(0), 1),
        1,
        "and restart LSNs, since the new epoch is a fresh stream"
    );
}

#[test]
fn a_file_of_something_else_is_refused() {
    assert!(StreamPositions::load_or_init("stream", Some("not a stream")).is_err());
}

#[test]
fn no_run_starts_after_the_last_epoch() {
    assert!(StreamPositions::may_start(None));
    assert!(StreamPositions::may_start(Some("not a stream")));
    let mut p = fresh();
    let last = format!("epoch={}", u64::MAX);
    let unclean = p.persist().replace("epoch=1", &last);
    assert!(unclean.contains(&last));
    assert!(!StreamPositions::may_start(Some(&unclean)));
    let clean = p.mark_clean().replace("epoch=1", &last);
    assert!(StreamPositions::may_start(Some(&clean)));
}
