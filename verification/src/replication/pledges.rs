//! What replication pledges, in plain terms: when a write is held by a majority, what a log keeps
//! and serves, and what a follower applies.

use vstd::prelude::*;

use super::ack::{followers_with, holders, report_at, reported, AckModel, Report};
use super::bootstrap::{pumped, read_meta, resume_point, CopyModel, CopyTrail, SnapshotId};
use super::follower::{
    applied_as, apply_refusal, first_misplaced, needs, position_file_shard, position_in,
    positions_in, read_position, Deeds, Durable, NeedModel, Position,
};
use super::log::{
    answer, at_most, from_position, kept_within, log_size, FrameLogConfig, LogModel, ServedModel,
};
use super::sinks::{byte_count, frame_count};
use super::stream::{Lsn, PositionsModel, StreamTxnModel};
use crate::error::{Error, ErrorModel};
use crate::lines::{after_prefix, before_suffix};
use crate::shard::id::ShardId;
use crate::text::{decimal, lemma_decimal_reads_back};
use crate::vfs::{frames_size, FrameModel};
use crate::wording::law_prefixes_and_suffixes;

verus! {

// ---- majorities --------------------------------------------------------------------------------

/// The followers that hold a position are counted one by one: those that report the shard at or
/// past it, and no other.
pub proof fn law_followers_are_counted(reports: Seq<Report>, new: Report, shard: ShardId, lsn: Lsn)
    ensures
        followers_with(Seq::<Report>::empty(), shard, lsn) == 0,
        new.shard == shard && new.lsn >= lsn ==> followers_with(reports.push(new), shard, lsn)
            == followers_with(reports, shard, lsn) + 1,
        new.shard != shard || new.lsn < lsn ==> followers_with(reports.push(new), shard, lsn)
            == followers_with(reports, shard, lsn),
{
    assert(reports.push(new).drop_last() =~= reports);
}

/// A write is confirmed exactly where more than half of the voters hold it, this node among them.
pub proof fn law_a_majority_confirms(ack: AckModel, shard: ShardId, lsn: Lsn)
    ensures
        ack.confirms(shard, lsn) <==> 2 * (followers_with(ack.reports, shard, lsn) + 1)
            > ack.voters,
        holders(ack.reports, shard, lsn) == followers_with(ack.reports, shard, lsn) + 1,
        2 * ack.quorum() > ack.voters,
        2 * (ack.quorum() - 1) <= ack.voters,
{
}

proof fn lemma_report(reports: Seq<Report>, shard: ShardId, node: u64, i: int)
    requires
        0 <= i,
    ensures
        report_at(reports, shard, node, i) matches Some(k) ==> i <= k < reports.len()
            && reports[k].shard == shard && reports[k].node == node && forall|j: int|
            i <= j < k ==> !((#[trigger] reports[j]).shard == shard && reports[j].node == node),
        report_at(reports, shard, node, i) is None ==> forall|j: int|
            i <= j < reports.len() ==> !((#[trigger] reports[j]).shard == shard && reports[j].node
                == node),
    decreases reports.len() - i,
{
    if i < reports.len() {
        lemma_report(reports, shard, node, i + 1);
    }
}

/// What a node is known to hold of a shard is the most that it reported; what is known of any other
/// node, or any other shard, stays.
pub proof fn law_reports_are_remembered(
    reports: Seq<Report>,
    shard: ShardId,
    node: u64,
    lsn: Lsn,
    other: Report,
)
    ensures
        exists|i: int|
            0 <= i < reported(reports, shard, node, lsn).len() && (#[trigger] reported(
                reports,
                shard,
                node,
                lsn,
            )[i]).shard == shard && reported(reports, shard, node, lsn)[i].node == node && reported(
                reports,
                shard,
                node,
                lsn,
            )[i].lsn >= lsn,
        reports.contains(other) && (other.shard != shard || other.node != node) ==> reported(
            reports,
            shard,
            node,
            lsn,
        ).contains(other),
        forall|i: int|
            0 <= i < reported(reports, shard, node, lsn).len() ==> (reports.contains(
                #[trigger] reported(reports, shard, node, lsn)[i],
            ) || reported(reports, shard, node, lsn)[i] == (Report { shard, node, lsn })),
{
    lemma_report(reports, shard, node, 0);
    let after = reported(reports, shard, node, lsn);
    match report_at(reports, shard, node, 0) {
        Some(k) => {
            assert(after[k].shard == shard && after[k].node == node && after[k].lsn >= lsn);
        },
        None => {
            let k = reports.len() as int;
            assert(after[k].shard == shard && after[k].node == node && after[k].lsn >= lsn);
        },
    }
    if reports.contains(other) && (other.shard != shard || other.node != node) {
        let j = choose|j: int| 0 <= j < reports.len() && reports[j] == other;
        assert(after[j] == other);
    }
    assert forall|i: int| 0 <= i < after.len() implies reports.contains(#[trigger] after[i])
        || after[i] == (Report { shard, node, lsn }) by {
        if i < reports.len() && after[i] == reports[i] {
            assert(reports.contains(reports[i]));
        }
    }
}

// ---- what a log keeps --------------------------------------------------------------------------

/// The size of a log is the bytes of all its pages.
pub proof fn law_sizes_add_up(
    txns: Seq<StreamTxnModel>,
    more: StreamTxnModel,
    frames: Seq<FrameModel>,
    page: FrameModel,
)
    ensures
        log_size(txns.push(more)) == log_size(txns) + frames_size(more.txn.frames),
        log_size(Seq::<StreamTxnModel>::empty()) == 0,
        frames_size(frames.push(page)) == frames_size(frames) + page.data.len(),
        frames_size(Seq::<FrameModel>::empty()) == 0,
        byte_count(txns.push(more)) == byte_count(txns) + frames_size(more.txn.frames),
        byte_count(Seq::<StreamTxnModel>::empty()) == 0,
        frame_count(txns.push(more)) == frame_count(txns) + more.txn.frames.len(),
        frame_count(Seq::<StreamTxnModel>::empty()) == 0,
{
    assert(txns.push(more).drop_last() =~= txns);
    assert(frames.push(page).drop_last() =~= frames);
}

/// Nothing is dropped that would have fitted: a log within its budget is kept whole, and otherwise
/// keeping one more transaction would have been too much.
pub proof fn law_no_more_is_dropped_than_needed(txns: Seq<StreamTxnModel>, budget: usize)
    ensures
        log_size(txns) <= budget ==> kept_within(txns, budget) == txns,
        kept_within(txns, budget).len() < txns.len() ==> log_size(
            txns.skip(txns.len() - kept_within(txns, budget).len() - 1),
        ) > budget,
    decreases txns.len(),
{
    if log_size(txns) > budget && txns.len() > 1 {
        let rest = txns.drop_first();
        law_no_more_is_dropped_than_needed(rest, budget);
        super::log::law_retention_keeps_the_newest(rest, budget);
        let kept = kept_within(txns, budget);
        if kept.len() < rest.len() {
            assert(rest.skip(rest.len() - kept.len() - 1) =~= txns.skip(
                txns.len() - kept.len() - 1,
            ));
        } else {
            assert(txns.skip(0) =~= txns);
        }
    }
}

/// A batch goes behind what is kept of its shard, and leaves the other shards alone; within the
/// budget nothing is lost.
pub proof fn law_batches_are_kept(
    log: LogModel,
    shard: ShardId,
    other: ShardId,
    batch: Seq<StreamTxnModel>,
)
    ensures
        log_size(log.txns_of(shard) + batch) <= log.budget ==> log.accepted(shard, batch).of(shard)
            == Some(log.txns_of(shard) + batch),
        batch.len() > 0 ==> log.accepted(shard, batch).txns_of(shard).len() > 0 && log.accepted(
            shard,
            batch,
        ).txns_of(shard).last() == batch.last(),
        other != shard ==> log.accepted(shard, batch).of(other) == log.of(other),
        log.accepted(shard, batch).budget == log.budget,
{
    let all = log.txns_of(shard) + batch;
    law_no_more_is_dropped_than_needed(all, log.budget);
    super::log::law_retention_keeps_the_newest(all, log.budget);
}

/// The budget is shared out evenly, with 64 KiB for each shard at least.
pub proof fn law_budgets_are_shared(cfg: FrameLogConfig)
    ensures
        cfg.share() >= 65536,
        cfg.shard_count > 0 && cfg.total_bytes as int / cfg.shard_count as int >= 65536
            ==> cfg.share() == cfg.total_bytes as int / cfg.shard_count as int,
        cfg.shard_count > 0 && (cfg.total_bytes as int / cfg.shard_count as int) < 65536
            ==> cfg.share() == 65536,
{
}

proof fn lemma_from_position(txns: Seq<StreamTxnModel>, from: Lsn, t: StreamTxnModel)
    ensures
        from_position(txns, from).contains(t) <==> txns.contains(t) && t.lsn >= from,
    decreases txns.len(),
{
    if txns.len() > 0 {
        let rest = txns.drop_last();
        lemma_from_position(rest, from, t);
        let (some, last) = (from_position(txns, from), txns.last());
        assert(txns[txns.len() - 1] == last);
        if rest.contains(t) {
            let i = choose|i: int| 0 <= i < rest.len() && rest[i] == t;
            assert(txns[i] == t);
        }
        if txns.contains(t) && t != last {
            let i = choose|i: int| 0 <= i < txns.len() && txns[i] == t;
            assert(rest[i] == t);
        }
        if last.lsn >= from {
            let before = from_position(rest, from);
            assert(some[some.len() - 1] == last);
            if before.contains(t) {
                let i = choose|i: int| 0 <= i < before.len() && before[i] == t;
                assert(some[i] == t);
            }
            if some.contains(t) && t != last {
                let i = choose|i: int| 0 <= i < some.len() && some[i] == t;
                assert(before[i] == t);
            }
        }
    }
}

/// What is served is of the log, at or past the position asked for, and no more than was asked for.
/// A shard that nothing was committed to has nothing to serve from its beginning, and nothing to
/// resume from further on.
pub proof fn law_what_is_served(
    txns: Seq<StreamTxnModel>,
    from: Lsn,
    max: usize,
    t: StreamTxnModel,
)
    ensures
        answer(Some(txns), from, max) matches ServedModel::Frames(f) ==> f.len() <= max && (
        f.contains(t) ==> txns.contains(t) && t.lsn >= from),
        from <= 1 ==> answer(None, from, max) == ServedModel::UpToDate,
        from > 1 ==> answer(None, from, max) is TooOld,
{
    if let ServedModel::Frames(f) = answer(Some(txns), from, max) {
        lemma_from_position(txns, from, t);
        if f.contains(t) {
            let all = from_position(txns, from);
            let i = choose|i: int| 0 <= i < f.len() && f[i] == t;
            assert(f == at_most(all, max));
            assert(all[i] == t);
        }
    }
}

// ---- positions ---------------------------------------------------------------------------------

/// The first run is the first epoch, and every stream in it begins at 1.
pub proof fn law_the_first_run(shard: ShardId)
    ensures
        PositionsModel::fresh().started().epoch == 1,
        PositionsModel::fresh().started().next_of(shard) == 1,
        !PositionsModel::fresh().started().clean,
{
}

/// A run goes on only after a clean shutdown; after anything else it starts the next epoch, and its
/// streams begin again.
pub proof fn law_how_a_run_starts(p: PositionsModel, shard: ShardId)
    requires
        p.epoch < u64::MAX,
    ensures
        p.clean ==> p.started().epoch == p.epoch && p.started().next_of(shard) == p.next_of(shard),
        !p.clean ==> p.started().epoch == p.epoch + 1 && p.started().next_of(shard) == 1,
        !p.started().clean,
{
}

// ---- what a follower applies -------------------------------------------------------------------

/// What a follower needs: a snapshot where it has nothing, or is of another epoch, and otherwise the
/// position after the last it applied.
pub proof fn law_what_a_follower_needs(pos: Position, epoch: u64)
    requires
        pos.applied_lsn < u64::MAX,
    ensures
        pos.epoch == 0 && pos.applied_lsn == 0 ==> needs(pos, epoch) is Bootstrap,
        pos.epoch != epoch ==> needs(pos, epoch) is Bootstrap,
        pos.epoch == epoch && !(pos.epoch == 0 && pos.applied_lsn == 0) ==> needs(pos, epoch)
            == NeedModel::Next((pos.applied_lsn + 1) as u64),
{
}

proof fn lemma_misplaced(txns: Seq<StreamTxnModel>, start: Lsn, i: int)
    requires
        0 <= i,
    ensures
        first_misplaced(txns, start, i) matches Some(k) ==> i <= k < txns.len() && txns[k].lsn
            != start + 1 + k && forall|j: int|
            i <= j < k ==> (#[trigger] txns[j]).lsn == start + 1 + j,
        first_misplaced(txns, start, i) is None ==> forall|j: int|
            i <= j < txns.len() ==> (#[trigger] txns[j]).lsn == start + 1 + j,
    decreases txns.len() - i,
{
    if i < txns.len() {
        lemma_misplaced(txns, start, i + 1);
    }
}

/// Transactions are applied exactly where they continue the copy: one by one from the position after
/// the last, in the copy's own epoch, or from the very first into an empty copy. A refusal names the
/// position that was expected and the one that came.
pub proof fn law_when_transactions_are_applied(
    pos: Position,
    shard: ShardId,
    epoch: u64,
    txns: Seq<StreamTxnModel>,
    i: int,
)
    requires
        pos.applied_lsn + txns.len() < u64::MAX,
        txns.len() > 0,
    ensures
        ({
            let fresh = pos.epoch == 0 && pos.applied_lsn == 0;
            let follows = forall|k: int|
                0 <= k < txns.len() ==> (#[trigger] txns[k]).lsn == pos.applied_lsn + 1 + k;
            &&& apply_refusal(pos, shard, epoch, txns) is None <==> follows && (fresh || pos.epoch
                == epoch)
            &&& (apply_refusal(pos, shard, epoch, txns) matches Some(e) ==> e is ReplicationGap)
            &&& 0 <= i < txns.len() && (fresh || pos.epoch == epoch) && txns[i].lsn
                != pos.applied_lsn + 1 + i && (forall|k: int|
                0 <= k < i ==> (#[trigger] txns[k]).lsn == pos.applied_lsn + 1 + k) ==> (
            apply_refusal(pos, shard, epoch, txns) matches Some(
                ErrorModel::ReplicationGap { expected, got, .. },
            ) && expected == pos.applied_lsn + 1 + i && got == txns[i].lsn)
        }),
{
    lemma_misplaced(txns, pos.applied_lsn, 0);
    if apply_refusal(pos, shard, epoch, txns) is None {
        assert(first_misplaced(txns, pos.applied_lsn, 0) is None);
    }
    assert(txns[0].lsn == txns[0].lsn);
}

/// An application that succeeds has written the transactions and then placed the position of the
/// last of them, in the primary's epoch; one that is refused touches nothing.
pub proof fn law_what_an_application_does(
    pos: Position,
    shard: ShardId,
    epoch: u64,
    txns: Seq<StreamTxnModel>,
    deeds: Deeds,
    r: Result<Option<Position>, Error>,
    reached: Position,
)
    requires
        applied_as(pos, shard, epoch, txns, deeds, r),
    ensures
        r == Ok::<Option<Position>, Error>(Some(reached)) ==> txns.len() > 0 && reached.epoch
            == epoch && reached.applied_lsn == txns.last().lsn && deeds.len() == 2 && deeds[0].0
            is Write && deeds[0].1 is Ok && deeds[1].0 == Durable::Place(shard, reached)
            && deeds[1].1 is Ok,
        r == Ok::<Option<Position>, Error>(None) ==> txns.len() == 0 && deeds.len() == 0,
        apply_refusal(pos, shard, epoch, txns) is Some ==> r is Err && deeds.len() == 0,
{
}

/// Where a follower stands in a shard is what was recorded for it, and the origin where nothing was.
pub proof fn law_where_a_follower_stands(m: Map<u32, Position>, shard: ShardId)
    ensures
        m.dom().contains(shard.0) ==> position_in(m, shard) == m[shard.0],
        !m.dom().contains(shard.0) ==> position_in(m, shard).epoch == 0 && position_in(
            m,
            shard,
        ).applied_lsn == 0,
{
}

// ---- copies ------------------------------------------------------------------------------------

/// The bytes that steps appended, one after the other.
pub open spec fn appended(steps: CopyTrail) -> Seq<u8>
    decreases steps.len(),
{
    if steps.len() == 0 {
        Seq::empty()
    } else {
        match steps[0].0 {
            CopyModel::Append { data, .. } => data + appended(steps.drop_first()),
            _ => appended(steps.drop_first()),
        }
    }
}

/// The bytes that steps read, one after the other.
pub open spec fn bytes_read(steps: CopyTrail) -> Seq<u8>
    decreases steps.len(),
{
    if steps.len() == 0 {
        Seq::empty()
    } else {
        match (steps[0].0, steps[0].1) {
            (CopyModel::Read { .. }, Ok(v)) => v@ + bytes_read(steps.drop_first()),
            _ => bytes_read(steps.drop_first()),
        }
    }
}

proof fn lemma_three_steps(steps: CopyTrail)
    requires
        steps.len() >= 3,
        steps[0].0 is Read,
        steps[0].1 is Ok,
        steps[1].0 is Append,
        steps[2].0 is Note,
    ensures
        appended(steps) == steps[1].0->data + appended(steps.skip(3)),
        bytes_read(steps) == steps[0].1->Ok_0@ + bytes_read(steps.skip(3)),
{
    let a = steps.drop_first();
    let b = a.drop_first();
    let c = b.drop_first();
    assert(c =~= steps.skip(3));
    assert(a[0] == steps[1]);
    assert(b[0] == steps[2]);
    assert(appended(steps) == appended(a));
    assert(appended(a) == steps[1].0->data + appended(b));
    assert(bytes_read(a) == bytes_read(b));
    assert(bytes_read(b) == bytes_read(c));
}

/// A copy that succeeds has appended every byte that it read, in order, each once, and has counted
/// them: the transfer stands where it began and those bytes further.
pub proof fn law_copies_are_whole(
    steps: CopyTrail,
    id: SnapshotId,
    chunk: usize,
    at: u64,
    source: u64,
    after: u64,
    r: Result<(), Error>,
)
    requires
        pumped(steps, id, chunk, at, source, after, r),
        r is Ok,
        at + bytes_read(steps).len() <= u64::MAX,
    ensures
        appended(steps) == bytes_read(steps),
        after == at + bytes_read(steps).len(),
        source == after,
    decreases steps.len(),
{
    let v = steps[0].1->Ok_0;
    if v@.len() == 0 {
        assert(steps.drop_first().len() == 0);
        assert(bytes_read(steps.drop_first()) =~= Seq::<u8>::empty());
        assert(appended(steps.drop_first()) =~= Seq::<u8>::empty());
        assert(bytes_read(steps) =~= Seq::<u8>::empty());
    } else {
        lemma_three_steps(steps);
        let next = (at + v@.len()) as u64;
        assert(bytes_read(steps).len() == v@.len() + bytes_read(steps.skip(3)).len());
        law_copies_are_whole(steps.skip(3), id, chunk, next, source, after, r);
    }
}

/// Without a progress file a transfer begins anew.
pub proof fn law_nothing_to_resume(id: SnapshotId, on_disk: u64)
    ensures
        resume_point(id, None, on_disk) is None,
{
}

/// The position of a shard is kept in a file with the shard's number in its name, and any other file
/// is left alone.
pub proof fn law_position_files(shard: u32, name: Seq<char>)
    ensures
        position_file_shard("shard_"@ + decimal(shard as nat) + ".position"@) == Some(shard),
        after_prefix(name, "shard_"@) is None ==> position_file_shard(name) is None,
        before_suffix(name, ".position"@) is None ==> position_file_shard(name) is None,
{
    let file = "shard_"@ + decimal(shard as nat) + ".position"@;
    let rest = decimal(shard as nat) + ".position"@;
    assert(file =~= "shard_"@ + rest);
    law_prefixes_and_suffixes("shard_"@, rest);
    law_prefixes_and_suffixes(decimal(shard as nat), ".position"@);
    lemma_decimal_reads_back(shard as nat);
    if let Some(more) = after_prefix(name, "shard_"@) {
        law_prefixes_and_suffixes(name, "shard_"@);
        if let Some(id) = before_suffix(more, ".position"@) {
            law_prefixes_and_suffixes(more, ".position"@);
            assert(name =~= "shard_"@ + id + ".position"@);
            law_prefixes_and_suffixes("shard_"@ + id, ".position"@);
        }
    }
}

proof fn lemma_earlier_files(
    files: Seq<(Seq<char>, Seq<char>)>,
    more: (Seq<char>, Seq<char>),
    n: nat,
)
    requires
        n <= files.len(),
    ensures
        positions_in(files.push(more), n) == positions_in(files, n),
    decreases n,
{
    if n > 0 {
        lemma_earlier_files(files, more, (n - 1) as nat);
        assert(files.push(more)[n - 1] == files[n - 1]);
    }
}

/// A follower starts where its files say: one more file settles the position of its shard, and no
/// other.
pub proof fn law_positions_are_taken_up(
    files: Seq<(Seq<char>, Seq<char>)>,
    name: Seq<char>,
    text: Seq<char>,
    shard: u32,
)
    ensures
        ({
            let before = positions_in(files, files.len());
            let after = positions_in(files.push((name, text)), files.len() + 1);
            &&& position_file_shard(name) == Some(shard) ==> after.contains_key(shard)
                && after[shard] == read_position(text)
            &&& position_file_shard(name) != Some(shard) ==> (after.contains_key(shard)
                <==> before.contains_key(shard)) && (before.contains_key(shard) ==> after[shard]
                == before[shard])
        }),
        positions_in(Seq::empty(), 0) == Map::<u32, Position>::empty(),
{
    lemma_earlier_files(files, (name, text), files.len());
}

/// A transfer of the same snapshot goes on where its progress file and what is on disk agree: at the
/// smaller of what was noted and what is there. Of another snapshot it begins anew.
pub proof fn law_where_a_transfer_resumes(
    id: SnapshotId,
    found: SnapshotId,
    meta: &str,
    written: u64,
    on_disk: u64,
)
    requires
        read_meta(meta@) == Some((found, written)),
    ensures
        found != id ==> resume_point(id, Some(meta), on_disk) is None,
        found == id && written <= on_disk ==> resume_point(id, Some(meta), on_disk) == Some(written),
        found == id && written > on_disk ==> resume_point(id, Some(meta), on_disk) == Some(on_disk),
{
}

} // verus!
