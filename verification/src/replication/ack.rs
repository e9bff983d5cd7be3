//! Quorum acknowledgement: making a client's "ok" mean that a majority holds the write.
//!
//! A leader that acknowledges before a majority holds a write can lose it. So the acknowledgement
//! waits for the replication. Followers pull, asking for the position after the last one they
//! hold: that request is itself the acknowledgement of everything below it. A wait that runs out of
//! time is reported as exactly what it is: committed here, not confirmed elsewhere.

use vstd::prelude::*;

use super::stream::Lsn;
use crate::error::{Error, ErrorModel};
use crate::shard::ShardId;

verus! {

#[derive(Clone, Copy, Debug, PartialEq, Eq, Structural)]
pub struct AckStats {
    /// Waits satisfied by a quorum.
    pub confirmed: u64,
    /// Waits that ran out of time: writes committed locally whose replication is unconfirmed.
    pub timed_out: u64,
    /// Total time spent waiting, in microseconds.
    pub waited_us: u64,
}

/// The highest position of a shard that a node is known to hold.
#[derive(Clone, Copy, Debug, PartialEq, Eq, Structural)]
pub struct Report {
    pub shard: ShardId,
    pub node: u64,
    pub lsn: Lsn,
}

/// What a wait for a quorum comes to.
#[derive(Clone, Copy, Debug, PartialEq, Eq, Structural)]
pub enum Wait {
    /// A majority holds the write.
    Confirmed,
    /// Not yet; wait for a report, this long at most, and ask again.
    Again { left_us: u64 },
}

/// Tracks how far each follower has durably applied, per shard.
#[derive(Debug)]
pub struct AckTracker {
    /// Voting members, this node included.
    voters: usize,
    reports: Vec<Report>,
    /// How long a single wait may take, in microseconds.
    how_long_us: u64,
    confirmed: u64,
    timed_out: u64,
    waited_us: u64,
}

/// What an [`AckTracker`] holds.
pub ghost struct AckModel {
    pub voters: usize,
    pub reports: Seq<Report>,
    pub how_long_us: u64,
    pub confirmed: u64,
    pub timed_out: u64,
    pub waited_us: u64,
}

impl View for AckTracker {
    type V = AckModel;

    closed spec fn view(&self) -> AckModel {
        AckModel {
            voters: self.voters,
            reports: self.reports@,
            how_long_us: self.how_long_us,
            confirmed: self.confirmed,
            timed_out: self.timed_out,
            waited_us: self.waited_us,
        }
    }
}

/// Whether no node reports twice for a shard.
pub open spec fn one_each(reports: Seq<Report>) -> bool {
    forall|i: int, j: int|
        0 <= i < reports.len() && 0 <= j < reports.len() && (#[trigger] reports[i]).shard == (
        #[trigger] reports[j]).shard && reports[i].node == reports[j].node ==> i == j
}

/// How many nodes report holding a position of a shard.
pub open spec fn followers_with(reports: Seq<Report>, shard: ShardId, lsn: Lsn) -> nat
    decreases reports.len(),
{
    if reports.len() == 0 {
        0
    } else {
        followers_with(reports.drop_last(), shard, lsn) + (if reports.last().shard == shard
            && reports.last().lsn >= lsn {
            1nat
        } else {
            0nat
        })
    }
}

/// Members that hold a position: the followers that report it, and this node, which does.
pub open spec fn holders(reports: Seq<Report>, shard: ShardId, lsn: Lsn) -> nat {
    followers_with(reports, shard, lsn) + 1
}

/// The place of a node's report for a shard, from `i` on.
pub open spec fn report_at(reports: Seq<Report>, shard: ShardId, node: u64, i: int) -> Option<int>
    decreases reports.len() - i,
{
    if i < 0 || i >= reports.len() {
        None
    } else if reports[i].shard == shard && reports[i].node == node {
        Some(i)
    } else {
        report_at(reports, shard, node, i + 1)
    }
}

/// The reports with one more. A node's position never goes back: one that restarts and asks from
/// earlier has not lost what it applied.
pub open spec fn reported(reports: Seq<Report>, shard: ShardId, node: u64, lsn: Lsn) -> Seq<Report> {
    match report_at(reports, shard, node, 0) {
        Some(i) => if lsn > reports[i].lsn {
            reports.update(i, Report { shard, node, lsn })
        } else {
            reports
        },
        None => reports.push(Report { shard, node, lsn }),
    }
}

impl AckModel {
    /// Members that must hold a write before it is acknowledged, this node included: a majority.
    pub open spec fn quorum(self) -> nat {
        (self.voters / 2 + 1) as nat
    }

    pub open spec fn confirms(self, shard: ShardId, lsn: Lsn) -> bool {
        holders(self.reports, shard, lsn) >= self.quorum()
    }
}

/// Whether `r` is the highest position that a majority is known to hold: this node and
/// `needed` followers. With no follower needed there is no limit; with too few reports it is 0.
pub open spec fn is_quorum_lsn(reports: Seq<Report>, shard: ShardId, needed: nat, r: Lsn) -> bool {
    if needed == 0 {
        r == u64::MAX
    } else if followers_with(reports, shard, 0) < needed {
        r == 0
    } else {
        followers_with(reports, shard, r) >= needed && (r == u64::MAX || followers_with(
            reports,
            shard,
            (r + 1) as u64,
        ) < needed)
    }
}

impl AckTracker {
    pub closed spec fn wf(&self) -> bool {
        self.voters >= 1 && one_each(self.reports@)
    }

    /// `voters` counts every member including this node; `how_long_us` bounds a single wait.
    pub fn new(voters: usize, how_long_us: u64) -> (r: AckTracker)
        ensures
            r.wf(),
            r@ == (AckModel {
                voters: if voters == 0 {
                    1
                } else {
                    voters
                },
                reports: Seq::empty(),
                how_long_us,
                confirmed: 0,
                timed_out: 0,
                waited_us: 0,
            }),
    {
        let r = AckTracker {
            voters: if voters == 0 {
                1
            } else {
                voters
            },
            reports: Vec::new(),
            how_long_us,
            confirmed: 0,
            timed_out: 0,
            waited_us: 0,
        };
        assert(r.reports@ =~= Seq::empty());
        r
    }

    pub fn stats(&self) -> (r: AckStats)
        ensures
            r == (AckStats {
                confirmed: self@.confirmed,
                timed_out: self@.timed_out,
                waited_us: self@.waited_us,
            }),
    {
        AckStats {
            confirmed: self.confirmed,
            timed_out: self.timed_out,
            waited_us: self.waited_us,
        }
    }

    fn quorum(&self) -> (r: usize)
        requires
            self.wf(),
        ensures
            r == self@.quorum(),
            r >= 1,
    {
        self.voters / 2 + 1
    }

    /// Record that `node` holds everything of `shard` up to and including `lsn`. Says whether that
    /// is news.
    pub fn record(&mut self, node: u64, shard: ShardId, lsn: Lsn) -> (r: bool)
        requires
            old(self).wf(),
        ensures
            final(self).wf(),
            final(self)@ == (AckModel {
                reports: reported(old(self)@.reports, shard, node, lsn),
                ..old(self)@
            }),
            r == (match report_at(old(self)@.reports, shard, node, 0) {
                Some(i) => lsn > old(self)@.reports[i].lsn,
                None => lsn > 0,
            }),
    {
        let ghost before = self.reports@;
        let mut i: usize = 0;
        while i < self.reports.len()
            invariant
                i <= self.reports@.len(),
                self.reports@ == before,
                *self == *old(self),
                report_at(before, shard, node, i as int) == report_at(before, shard, node, 0),
                forall|k: int| 0 <= k < i ==> !((#[trigger] before[k]).shard == shard
                    && before[k].node == node),
                self.wf(),
            decreases self.reports@.len() - i,
        {
            let here = self.reports[i];
            if here.shard == shard && here.node == node {
                if lsn > here.lsn {
                    self.reports.set(i, Report { shard, node, lsn });
                    assert(self.reports@ =~= before.update(i as int, Report { shard, node, lsn }));
                    return true;
                }
                return false;
            }
            i = i + 1;
        }
        self.reports.push(Report { shard, node, lsn });
        lsn > 0
    }

    fn count_followers(&self, shard: ShardId, lsn: Lsn) -> (r: usize)
        ensures
            r == followers_with(self@.reports, shard, lsn),
    {
        let ghost all = self.reports@;
        let mut count: usize = 0;
        let mut i: usize = 0;
        while i < self.reports.len()
            invariant
                i <= self.reports@.len(),
                all == self.reports@,
                count <= i,
                count == followers_with(all.take(i as int), shard, lsn),
            decreases self.reports@.len() - i,
        {
            assert(all.take(i as int + 1).drop_last() =~= all.take(i as int));
            if self.reports[i].shard == shard && self.reports[i].lsn >= lsn {
                count = count + 1;
            }
            i = i + 1;
        }
        assert(all.take(self.reports@.len() as int) =~= all);
        count
    }

    /// One look at whether a majority holds `lsn`, after waiting for `waited_us` microseconds. A
    /// wait that has run out fails with what is known: committed here, unconfirmed elsewhere.
    pub fn wait_for_quorum(&mut self, shard: ShardId, lsn: Lsn, waited_us: u64) -> (r: Result<
        Wait,
        Error,
    >)
        requires
            old(self).wf(),
        ensures
            final(self).wf(),
            if old(self)@.confirms(shard, lsn) {
                r == Ok::<Wait, Error>(Wait::Confirmed) && final(self)@ == (AckModel {
                    confirmed: old(self)@.confirmed.wrapping_add(1),
                    waited_us: old(self)@.waited_us.wrapping_add(waited_us),
                    ..old(self)@
                })
            } else if waited_us < old(self)@.how_long_us {
                r == Ok::<Wait, Error>(
                    Wait::Again { left_us: (old(self)@.how_long_us - waited_us) as u64 },
                ) && final(self)@ == old(self)@
            } else {
                (r matches Err(e) && e@ == (ErrorModel::NotReplicated {
                    shard: shard.shown(),
                    lsn,
                    holders: holders(old(self)@.reports, shard, lsn) as usize,
                    needed: old(self)@.quorum() as usize,
                })) && final(self)@ == (AckModel {
                    timed_out: old(self)@.timed_out.wrapping_add(1),
                    waited_us: old(self)@.waited_us.wrapping_add(waited_us),
                    ..old(self)@
                })
            },
    {
        let needed: usize = self.quorum();
        let followers: usize = self.count_followers(shard, lsn);
        if followers >= needed - 1 {
            self.confirmed = self.confirmed.wrapping_add(1);
            self.waited_us = self.waited_us.wrapping_add(waited_us);
            return Ok(Wait::Confirmed);
        }
        if waited_us < self.how_long_us {
            return Ok(Wait::Again { left_us: self.how_long_us - waited_us });
        }
        self.timed_out = self.timed_out.wrapping_add(1);
        self.waited_us = self.waited_us.wrapping_add(waited_us);
        Err(Error::NotReplicated { shard: shard.name(), lsn, holders: followers + 1, needed })
    }

    /// Highest LSN a majority is known to hold for `shard`.
    pub fn quorum_lsn(&self, shard: ShardId) -> (r: Lsn)
        requires
            self.wf(),
        ensures
            is_quorum_lsn(self@.reports, shard, (self@.quorum() - 1) as nat, r),
    {
        let needed: usize = self.quorum() - 1;
        if needed == 0 {
            return u64::MAX;
        }
        if self.count_followers(shard, 0) < needed {
            return 0;
        }
        let ghost all = self.reports@;
        let mut best: Lsn = 0;
        let mut i: usize = 0;
        while i < self.reports.len()
            invariant
                i <= self.reports@.len(),
                all == self.reports@,
                all == self@.reports,
                needed >= 1,
                followers_with(all, shard, best) >= needed,
                forall|k: int|
                    0 <= k < i && (#[trigger] all[k]).shard == shard && all[k].lsn > best
                        ==> followers_with(all, shard, all[k].lsn) < needed,
            decreases self.reports@.len() - i,
        {
            let here = self.reports[i];
            if here.shard == shard && here.lsn > best {
                if self.count_followers(shard, here.lsn) >= needed {
                    proof {
                        assert forall|k: int|
                            0 <= k < i + 1 && (#[trigger] all[k]).shard == shard && all[k].lsn
                                > here.lsn implies followers_with(all, shard, all[k].lsn)
                            < needed by {
                            assert(k < i);
                        }
                    }
                    best = here.lsn;
                }
            }
            i = i + 1;
        }
        proof {
            if best < u64::MAX && followers_with(all, shard, (best + 1) as u64) >= needed {
                let low = lemma_lowest_holder(all, shard, (best + 1) as u64);
                lemma_no_holder_between(all, shard, (best + 1) as u64, low);
            }
        }
        best
    }
}

/// A report among those at or above a position that is the lowest of them.
proof fn lemma_lowest_holder(reports: Seq<Report>, shard: ShardId, lsn: Lsn) -> (low: Lsn)
    requires
        followers_with(reports, shard, lsn) > 0,
    ensures
        exists|k: int|
            0 <= k < reports.len() && (#[trigger] reports[k]).shard == shard && reports[k].lsn
                == low,
        low >= lsn,
        forall|k: int|
            0 <= k < reports.len() && (#[trigger] reports[k]).shard == shard && reports[k].lsn
                >= lsn ==> reports[k].lsn >= low,
    decreases reports.len(),
{
    let rest = reports.drop_last();
    let last = reports.last();
    if followers_with(rest, shard, lsn) > 0 {
        let low = lemma_lowest_holder(rest, shard, lsn);
        let k = choose|k: int|
            0 <= k < rest.len() && (#[trigger] rest[k]).shard == shard && rest[k].lsn == low;
        assert(reports[k] == rest[k]);
        let r = if last.shard == shard && last.lsn >= lsn && last.lsn < low {
            last.lsn
        } else {
            low
        };
        assert(reports[reports.len() - 1] == last);
        assert forall|k: int|
            0 <= k < reports.len() && (#[trigger] reports[k]).shard == shard && reports[k].lsn
                >= lsn implies reports[k].lsn >= r by {
            if k < rest.len() {
                assert(rest[k] == reports[k]);
            }
        }
        r
    } else {
        lemma_none_above(rest, shard, lsn);
        assert(reports[reports.len() - 1] == last);
        assert forall|k: int|
            0 <= k < reports.len() && (#[trigger] reports[k]).shard == shard && reports[k].lsn
                >= lsn implies reports[k].lsn >= last.lsn by {
            if k < rest.len() {
                assert(rest[k] == reports[k]);
            }
        }
        last.lsn
    }
}

proof fn lemma_none_above(reports: Seq<Report>, shard: ShardId, lsn: Lsn)
    requires
        followers_with(reports, shard, lsn) == 0,
    ensures
        forall|k: int|
            0 <= k < reports.len() && (#[trigger] reports[k]).shard == shard ==> reports[k].lsn
                < lsn,
    decreases reports.len(),
{
    if reports.len() > 0 {
        let rest = reports.drop_last();
        lemma_none_above(rest, shard, lsn);
        assert forall|k: int|
            0 <= k < reports.len() && (#[trigger] reports[k]).shard == shard implies reports[k].lsn
            < lsn by {
            if k < rest.len() {
                assert(rest[k] == reports[k]);
            }
        }
    }
}

/// Where no report lies between two positions, as many followers hold the one as the other.
proof fn lemma_no_holder_between(reports: Seq<Report>, shard: ShardId, a: Lsn, b: Lsn)
    requires
        a <= b,
        forall|k: int|
            0 <= k < reports.len() && (#[trigger] reports[k]).shard == shard && reports[k].lsn >= a
                ==> reports[k].lsn >= b,
    ensures
        followers_with(reports, shard, a) == followers_with(reports, shard, b),
    decreases reports.len(),
{
    if reports.len() > 0 {
        let rest = reports.drop_last();
        assert forall|k: int|
            0 <= k < rest.len() && (#[trigger] rest[k]).shard == shard && rest[k].lsn
                >= a implies rest[k].lsn >= b by {
            assert(rest[k] == reports[k]);
        }
        lemma_no_holder_between(rest, shard, a, b);
        assert(reports[reports.len() - 1] == reports.last());
    }
}

// ---- laws --------------------------------------------------------------------------------------

/// As many or more followers hold an earlier position.
pub proof fn law_earlier_positions_are_held_too(
    reports: Seq<Report>,
    shard: ShardId,
    a: Lsn,
    b: Lsn,
)
    requires
        a <= b,
    ensures
        followers_with(reports, shard, a) >= followers_with(reports, shard, b),
    decreases reports.len(),
{
    if reports.len() > 0 {
        law_earlier_positions_are_held_too(reports.drop_last(), shard, a, b);
    }
}

/// A write is confirmed exactly when it is at or below the position that a majority holds.
pub proof fn law_quorum_lsn_decides(ack: AckModel, shard: ShardId, lsn: Lsn, r: Lsn)
    requires
        is_quorum_lsn(ack.reports, shard, (ack.quorum() - 1) as nat, r),
        lsn > 0,
    ensures
        ack.confirms(shard, lsn) <==> lsn <= r,
{
    let needed = (ack.quorum() - 1) as nat;
    if needed > 0 {
        law_earlier_positions_are_held_too(ack.reports, shard, 0, lsn);
        if lsn <= r {
            law_earlier_positions_are_held_too(ack.reports, shard, lsn, r);
        } else {
            law_earlier_positions_are_held_too(ack.reports, shard, (r + 1) as u64, lsn);
        }
    }
}

/// A single node is its own quorum: every write is confirmed at once.
pub proof fn law_single_node_confirms_alone(ack: AckModel, shard: ShardId, lsn: Lsn)
    requires
        ack.voters == 1,
    ensures
        ack.confirms(shard, lsn),
{
}

proof fn lemma_update_counts(reports: Seq<Report>, i: int, new: Report, shard: ShardId, lsn: Lsn)
    requires
        0 <= i < reports.len(),
        reports[i].shard == new.shard,
        new.lsn >= reports[i].lsn,
    ensures
        followers_with(reports.update(i, new), shard, lsn) >= followers_with(reports, shard, lsn),
    decreases reports.len(),
{
    let after = reports.update(i, new);
    if i == reports.len() - 1 {
        assert(after.drop_last() =~= reports.drop_last());
    } else {
        assert(after.drop_last() =~= reports.drop_last().update(i, new));
        lemma_update_counts(reports.drop_last(), i, new, shard, lsn);
    }
}

proof fn lemma_report_found(reports: Seq<Report>, shard: ShardId, node: u64, i: int)
    requires
        0 <= i,
        report_at(reports, shard, node, i) is Some,
    ensures
        ({
            let k = report_at(reports, shard, node, i)->0;
            i <= k < reports.len() && reports[k].shard == shard && reports[k].node == node
        }),
    decreases reports.len() - i,
{
    if i < reports.len() && !(reports[i].shard == shard && reports[i].node == node) {
        lemma_report_found(reports, shard, node, i + 1);
    }
}

/// A report never unconfirms a write: whatever a node reports, every write that was confirmed
/// before still is.
pub proof fn law_reports_never_unconfirm(
    ack: AckModel,
    node: u64,
    reported_shard: ShardId,
    reported_lsn: Lsn,
    shard: ShardId,
    lsn: Lsn,
)
    requires
        ack.confirms(shard, lsn),
    ensures
        (AckModel { reports: reported(ack.reports, reported_shard, node, reported_lsn), ..ack })
            .confirms(shard, lsn),
{
    match report_at(ack.reports, reported_shard, node, 0) {
        Some(i) => {
            lemma_report_found(ack.reports, reported_shard, node, 0);
            if reported_lsn > ack.reports[i].lsn {
                lemma_update_counts(
                    ack.reports,
                    i,
                    Report { shard: reported_shard, node, lsn: reported_lsn },
                    shard,
                    lsn,
                );
            }
        },
        None => {
            let new = Report { shard: reported_shard, node, lsn: reported_lsn };
            assert(ack.reports.push(new).drop_last() =~= ack.reports);
        },
    }
}

proof fn lemma_push_counts_none(reports: Seq<Report>, new: Report, shard: ShardId, lsn: Lsn)
    requires
        new.shard != shard,
    ensures
        followers_with(reports.push(new), shard, lsn) == followers_with(reports, shard, lsn),
{
    assert(reports.push(new).drop_last() =~= reports);
}

proof fn lemma_update_counts_none(
    reports: Seq<Report>,
    i: int,
    new: Report,
    shard: ShardId,
    lsn: Lsn,
)
    requires
        0 <= i < reports.len(),
        reports[i].shard == new.shard,
        new.shard != shard,
    ensures
        followers_with(reports.update(i, new), shard, lsn) == followers_with(reports, shard, lsn),
    decreases reports.len(),
{
    let after = reports.update(i, new);
    if i == reports.len() - 1 {
        assert(after.drop_last() =~= reports.drop_last());
    } else {
        assert(after.drop_last() =~= reports.drop_last().update(i, new));
        lemma_update_counts_none(reports.drop_last(), i, new, shard, lsn);
    }
}

/// Shards are counted independently: a report for one shard changes nothing for another.
pub proof fn law_shards_are_independent(
    reports: Seq<Report>,
    node: u64,
    one: ShardId,
    reported_lsn: Lsn,
    other: ShardId,
    lsn: Lsn,
)
    requires
        one != other,
    ensures
        followers_with(reported(reports, one, node, reported_lsn), other, lsn) == followers_with(
            reports,
            other,
            lsn,
        ),
{
    let new = Report { shard: one, node, lsn: reported_lsn };
    match report_at(reports, one, node, 0) {
        Some(i) => {
            lemma_report_found(reports, one, node, 0);
            lemma_update_counts_none(reports, i, new, other, lsn);
        },
        None => {
            lemma_push_counts_none(reports, new, other, lsn);
        },
    }
}

} // verus!
