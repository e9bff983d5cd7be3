use shardlite::replication::ack::{AckTracker, Wait};
use shardlite::shard::ShardId;

const S: ShardId = ShardId(0);
const HOW_LONG_US: u64 = 300_000;

fn tracker(voters: usize) -> AckTracker {
    AckTracker::new(voters, HOW_LONG_US)
}

#[test]
fn a_single_node_cluster_is_its_own_quorum() {
    let mut t = tracker(1);
    assert!(matches!(t.wait_for_quorum(S, 100, 0).unwrap(), Wait::Confirmed));
    assert_eq!(t.stats().confirmed, 1);
}

#[test]
fn one_follower_of_three_is_enough() {
    let mut t = tracker(3);
    t.record(2, S, 50);
    assert!(matches!(t.wait_for_quorum(S, 50, 0).unwrap(), Wait::Confirmed));
}

#[test]
fn a_write_no_follower_holds_is_not_confirmed() {
    let mut t = tracker(3);
    let err = t.wait_for_quorum(S, 7, HOW_LONG_US).unwrap_err();
    let msg = err.to_text();
    assert!(msg.contains("committed"), "{msg}");
    assert!(
        msg.contains("not confirmed") || msg.contains("quorum"),
        "the message must distinguish unconfirmed from failed: {msg}"
    );
    assert_eq!(t.stats().timed_out, 1);
}

#[test]
fn a_writer_blocks_until_a_follower_catches_up() {
    let mut t = tracker(3);
    assert!(matches!(t.wait_for_quorum(S, 42, 0).unwrap(), Wait::Again { .. }));
    assert!(matches!(t.wait_for_quorum(S, 42, 40_000).unwrap(), Wait::Again { left_us: 260_000 }));
    assert_eq!(t.stats().confirmed, 0, "it must still be waiting");
    t.record(2, S, 42);
    assert!(
        matches!(t.wait_for_quorum(S, 42, 40_000).unwrap(), Wait::Confirmed),
        "the wait should succeed"
    );
    assert_eq!(t.stats().confirmed, 1);
}

#[test]
fn a_follower_behind_the_write_does_not_count() {
    let mut t = tracker(3);
    t.record(2, S, 41);
    let err = t.wait_for_quorum(S, 42, HOW_LONG_US).unwrap_err().to_text();
    assert!(err.contains("42"), "{err}");
}

#[test]
fn shards_are_counted_independently() {
    let mut t = tracker(3);
    t.record(2, ShardId(1), 999);
    assert!(t.wait_for_quorum(ShardId(0), 1, HOW_LONG_US).is_err());
}

#[test]
fn a_five_node_cluster_needs_two_followers() {
    let mut t = tracker(5);
    t.record(2, S, 10);
    assert!(
        t.wait_for_quorum(S, 10, HOW_LONG_US).is_err(),
        "one follower of five is not a majority"
    );
    t.record(3, S, 10);
    assert!(matches!(t.wait_for_quorum(S, 10, 0).unwrap(), Wait::Confirmed));
}

#[test]
fn a_report_never_moves_backwards() {
    let mut t = tracker(3);
    t.record(2, S, 100);
    t.record(2, S, 5);
    assert!(matches!(t.wait_for_quorum(S, 100, 0).unwrap(), Wait::Confirmed));
}

#[test]
fn quorum_lsn_reports_what_a_majority_holds() {
    let mut t = tracker(3);
    assert_eq!(t.quorum_lsn(S), 0);
    t.record(2, S, 10);
    assert_eq!(t.quorum_lsn(S), 10);
    t.record(3, S, 20);
    assert_eq!(
        t.quorum_lsn(S),
        20,
        "with two followers at 10 and 20, a majority of three holds 20"
    );
}
