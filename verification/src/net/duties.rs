//! What a node owes to a request, in plain terms: who does the work, how fresh a read is, and what
//! is answered.

use vstd::prelude::*;

use super::auth::{user_named, users_text, valid_name, with_user, without_user, Role, UserModel};
use super::forward::{forward_counts, hop_of, peer_from, ForwardStats, Membership, Router};
use super::protocol::{OutcomeModel, ReadConsistency, RequestModel, Response, ResponseModel};
use super::protocol::{MAX_FRAME_BYTES, PROTOCOL_VERSION};
use super::server::{
    acknowledged, batch_limit, execute_response, failed, handling, local_result, position_of,
    rejection_from, roll_outcomes, rolled, rows_changed, schema_outcome, served_response, shard_of,
    subscription, transaction_response, user_created, user_dropped, HandlingModel, LocalModel, NodeFacts, RollRecord,
    ServicesModel, Standing,
};
use crate::error::{Error, ErrorModel};
use crate::replication::ack::AckModel;
use crate::replication::follower::Follower;
use crate::replication::log::{LogModel, ServedModel};
use crate::replication::stream::StreamTxnModel;
use crate::shard::id::ShardId;
use crate::shard::mode::ShardMode;
use crate::storage::exec::{OutcomeView, StatementModel, WriteSummary};

verus! {

// ---- who does the work -------------------------------------------------------------------------

/// Whether a router says that a node owns a shard.
pub open spec fn owns(router: Router, shard: u32, node: u64) -> bool {
    router.membership().owners@.dom().contains(shard) && router.membership().owners@[shard] == node
}

/// A write, a transaction and a schema change name the shard that they are about, and go as they
/// are to the node that owns it; they run here where that is this node, where nobody was given the
/// shard, and where there is no cluster.
pub proof fn law_writes_go_to_the_owner(
    shard: u32,
    statements: Seq<StatementModel>,
    ddl: StatementModel,
    standing: Standing,
    follower: Option<Follower>,
    router: Router,
    owner: u64,
    req: RequestModel,
)
    requires
        req == (RequestModel::Execute { shard, statements }) || req == (RequestModel::Transaction {
            shard,
            statements,
        }) || req == (RequestModel::SchemaApply { shard, ddl }),
    ensures
        shard_of(req) == Some(ShardId(shard)),
        owns(router, shard, owner) && owner != router.membership().id ==> handling(
            req,
            standing,
            follower,
            Some(router),
        ) == HandlingModel::There(ShardId(shard), req),
        owns(router, shard, owner) && owner == router.membership().id ==> handling(
            req,
            standing,
            follower,
            Some(router),
        ) == HandlingModel::Here(req),
        !router.membership().owners@.dom().contains(shard) ==> handling(
            req,
            standing,
            follower,
            Some(router),
        ) == HandlingModel::Here(req),
        handling(req, standing, follower, None) == HandlingModel::Here(req),
{
}

/// A read goes to the node that owns its shard wherever no copy here is fresh enough, and is refused
/// as too stale where there is no cluster to ask. A copy here will do where this node leads the
/// shard, or where it has applied something and either any copy will do or it has reached the
/// position asked for.
pub proof fn law_reads_go_where_they_are_fresh(
    shard: u32,
    statement: StatementModel,
    consistency: ReadConsistency,
    standing: Standing,
    follower: Follower,
    router: Router,
    owner: u64,
    applied: u64,
)
    requires
        owns(router, shard, owner),
        owner != router.membership().id,
        applied == (if follower@.dom().contains(shard) {
            follower@[shard].applied_lsn
        } else {
            0
        }),
    ensures
        ({
            let req = RequestModel::Query { shard, statement, consistency };
            let near = handling(req, standing, Some(follower), Some(router));
            let alone = handling(req, standing, Some(follower), None);
            let fresh = standing.mode == ShardMode::Led || (applied > 0 && match consistency {
                ReadConsistency::Linearizable => false,
                ReadConsistency::Stale => true,
                ReadConsistency::AtLeastLsn(n) => applied >= n,
            });
            &&& shard_of(req) == Some(ShardId(shard))
            &&& fresh ==> near == HandlingModel::Here(req) && alone == HandlingModel::Here(req)
            &&& !fresh ==> near == HandlingModel::There(ShardId(shard), req)
            &&& !fresh ==> (alone matches HandlingModel::Refused(r) && r
                == (ResponseModel::TooStale {
                shard,
                have: applied,
                need: match consistency {
                    ReadConsistency::AtLeastLsn(n) => n,
                    _ => 0,
                },
            }))
        }),
{
}

/// How far a copy has got: what was written where the node leads, and what was applied where it
/// follows.
pub proof fn law_where_a_copy_stands(standing: Standing, follower: Follower, shard: u32)
    ensures
        standing.mode == ShardMode::Led ==> position_of(standing, Some(follower), ShardId(shard))
            == standing.last_lsn,
        standing.mode == ShardMode::Followed && follower@.dom().contains(shard) ==> position_of(
            standing,
            Some(follower),
            ShardId(shard),
        ) == follower@[shard].applied_lsn,
        standing.mode == ShardMode::Followed ==> position_of(standing, None, ShardId(shard)) == 0,
{
}

/// What is about no shard is handled where it arrives, and so is what was forwarded.
pub proof fn law_the_rest_stays_here(
    req: RequestModel,
    standing: Standing,
    follower: Option<Follower>,
    router: Option<Router>,
)
    ensures
        !(req is Query || req is Execute || req is Transaction || req is SchemaApply || req
            is Direct) ==> handling(req, standing, follower, router) == HandlingModel::Here(req),
        req matches RequestModel::Direct(inner) ==> handling(req, standing, follower, router)
            == HandlingModel::Here(*inner),
{
}

proof fn lemma_peer(peers: Seq<(u64, String)>, node: u64, i: int)
    requires
        0 <= i,
    ensures
        peer_from(peers, node, i) matches Some(a) ==> exists|k: int|
            i <= k < peers.len() && (#[trigger] peers[k]).0 == node && peers[k].1@ == a,
        peer_from(peers, node, i) is None ==> forall|k: int|
            i <= k < peers.len() ==> (#[trigger] peers[k]).0 != node,
    decreases peers.len() - i,
{
    if i < peers.len() {
        lemma_peer(peers, node, i + 1);
        if peer_from(peers, node, i) is Some && peers[i].0 != node {
            let k = choose|k: int|
                i + 1 <= k < peers.len() && (#[trigger] peers[k]).0 == node && peers[k].1@
                    == peer_from(peers, node, i)->0;
            assert(peers[k].0 == node);
        }
    }
}

/// A request is sent to the owner of its shard, at the address that this node has for it; where
/// there is no owner, or no address for it, it is sent nowhere.
pub proof fn law_requests_reach_the_owner(cluster: Membership, shard: ShardId)
    ensures
        hop_of(cluster, shard) matches Ok(hop) ==> cluster.owners@.dom().contains(shard.0)
            && cluster.owners@[shard.0] == hop.0 && exists|k: int|
            0 <= k < cluster.peers@.len() && (#[trigger] cluster.peers@[k]).0 == hop.0
                && cluster.peers@[k].1@ == hop.1,
        !cluster.owners@.dom().contains(shard.0) ==> hop_of(cluster, shard) is Err,
        cluster.owners@.dom().contains(shard.0) && (forall|k: int|
            0 <= k < cluster.peers@.len() ==> (#[trigger] cluster.peers@[k]).0
                != cluster.owners@[shard.0]) ==> hop_of(cluster, shard) is Err,
        cluster.owners@.dom().contains(shard.0) && (exists|k: int|
            0 <= k < cluster.peers@.len() && (#[trigger] cluster.peers@[k]).0
                == cluster.owners@[shard.0]) ==> hop_of(cluster, shard) is Ok,
{
    if cluster.owners@.dom().contains(shard.0) {
        lemma_peer(cluster.peers@, cluster.owners@[shard.0], 0);
    }
}

// ---- what is answered --------------------------------------------------------------------------

/// Backpressure may be tried again, and no other failure; the answer tells what failed.
pub proof fn law_only_backpressure_is_retried(e: ErrorModel)
    ensures
        failed(e) matches ResponseModel::Error { message, retryable } && message == e.message()
            && (retryable <==> e is WriterBusy || e is ReaderPoolBusy || e is TooManyConnections),
{
}

pub open spec fn changes(writes: Seq<WriteSummary>) -> Seq<OutcomeView> {
    writes.map_values(|w: WriteSummary| OutcomeView::Changed(w))
}

pub open spec fn rows_in_all(writes: Seq<WriteSummary>) -> int {
    writes.fold_left(0, |sum: int, w: WriteSummary| sum + w.rows_affected)
}

proof fn lemma_rows_in_all(writes: Seq<WriteSummary>)
    requires
        rows_in_all(writes) <= u64::MAX,
    ensures
        rows_changed(changes(writes)) == rows_in_all(writes),
        0 <= rows_in_all(writes),
        rejection_from(changes(writes), 0) is None,
    decreases writes.len(),
{
    lemma_no_rejection(writes, 0);
    lemma_not_negative(writes);
    if writes.len() > 0 {
        lemma_not_negative(writes.drop_last());
        lemma_rows_in_all(writes.drop_last());
        assert(changes(writes).drop_last() =~= changes(writes.drop_last()));
    }
}

proof fn lemma_not_negative(writes: Seq<WriteSummary>)
    ensures
        0 <= rows_in_all(writes),
    decreases writes.len(),
{
    if writes.len() > 0 {
        lemma_not_negative(writes.drop_last());
    }
}

proof fn lemma_no_rejection(writes: Seq<WriteSummary>, i: int)
    requires
        0 <= i,
    ensures
        rejection_from(changes(writes), i) is None,
    decreases writes.len() - i,
{
    if i < writes.len() {
        lemma_no_rejection(writes, i + 1);
    }
}

/// A transaction is answered with the rows that its writes changed in all and the row that the last
/// of them inserted; a batch of statements with what its last one came to.
pub proof fn law_writes_are_counted(writes: Seq<WriteSummary>)
    requires
        writes.len() > 0,
        rows_in_all(writes) <= u64::MAX,
    ensures
        transaction_response(changes(writes)) == (ResponseModel::Changed {
            rows_affected: rows_in_all(writes) as u64,
            last_insert_rowid: writes.last().last_insert_rowid,
        }),
        execute_response(changes(writes)) == (ResponseModel::Changed {
            rows_affected: writes.last().rows_affected,
            last_insert_rowid: writes.last().last_insert_rowid,
        }),
{
    lemma_rows_in_all(writes);
}

/// Of several rejections the first is told.
pub proof fn law_the_first_rejection_is_told(outcomes: Seq<OutcomeView>, i: int, message: Seq<char>)
    requires
        0 <= i < outcomes.len(),
        outcomes[i] == OutcomeView::Rejected(message),
        forall|k: int| 0 <= k < i ==> !((#[trigger] outcomes[k]) is Rejected),
    ensures
        transaction_response(outcomes) == (ResponseModel::Error { message, retryable: false }),
        execute_response(outcomes) == (ResponseModel::Rejected { message }),
{
    lemma_first_rejection(outcomes, 0, i);
}

proof fn lemma_first_rejection(outcomes: Seq<OutcomeView>, from: int, i: int)
    requires
        0 <= from <= i < outcomes.len(),
        outcomes[i] is Rejected,
        forall|k: int| 0 <= k < i ==> !((#[trigger] outcomes[k]) is Rejected),
    ensures
        rejection_from(outcomes, from) == Some(outcomes[i]->Rejected_0),
    decreases i - from,
{
    if from < i {
        assert(!(outcomes[from] is Rejected));
        lemma_first_rejection(outcomes, from + 1, i);
    }
}

/// A schema change counts as applied on a shard only where the shard answers with its new version.
pub proof fn law_schema_changes_are_confirmed(done: Result<Response, Error>)
    ensures
        schema_outcome(done) is Applied <==> (done matches Ok(r) && r@ is SchemaVersion),
        done matches Err(e) ==> schema_outcome(done) == OutcomeModel::Rejected(e@.message()),
        done matches Ok(r) ==> (r@ matches ResponseModel::Rejected { message } ==> schema_outcome(
            done,
        ) == OutcomeModel::Rejected(message)),
        done matches Ok(r) ==> (r@ matches ResponseModel::Error { message, .. } ==> schema_outcome(
            done,
        ) == OutcomeModel::Rejected(message)),
{
}

// ---- followers ---------------------------------------------------------------------------------

/// One answer to a follower holds at least one transaction and at most 512, and otherwise as many as
/// were asked for.
pub proof fn law_batches_are_bounded(max_txns: usize)
    ensures
        1 <= batch_limit(max_txns) <= 512,
        1 <= max_txns <= 512 ==> batch_limit(max_txns) == max_txns,
{
}

/// A follower is handed what the log serves, under this node's epoch; it is told where it is level,
/// and to take a snapshot where the log no longer reaches back far enough.
pub proof fn law_what_a_follower_is_told(
    shard: ShardId,
    epoch: u64,
    txns: Seq<StreamTxnModel>,
    lowest_retained: u64,
)
    ensures
        served_response(shard, epoch, ServedModel::Frames(txns)) == (ResponseModel::Frames {
            shard: shard.0,
            epoch,
            txns,
        }),
        served_response(shard, epoch, ServedModel::UpToDate) == (ResponseModel::UpToDate {
            shard: shard.0,
        }),
        served_response(shard, epoch, ServedModel::TooOld { lowest_retained }) is NeedsBootstrap,
{
}

/// A node that captures nothing has no stream to serve, and a follower of another generation is told
/// to take a snapshot. One of this generation, or of none yet, is served from the log at the position
/// it asks for.
pub proof fn law_who_is_served(
    ours: Option<u64>,
    log: LogModel,
    shard: ShardId,
    epoch: u64,
    from_lsn: u64,
    max_txns: usize,
)
    ensures
        ({
            let told = subscription(ours, Some(log), shard, epoch, from_lsn, max_txns).0;
            &&& ours is None ==> told is Error
            &&& ours is Some && epoch != 0 && epoch != ours->0 ==> told is NeedsBootstrap
            &&& ours is Some && (epoch == 0 || epoch == ours->0) ==> told == served_response(
                shard,
                ours->0,
                crate::replication::log::answer(log.of(shard), from_lsn, batch_limit(max_txns)),
            )
            &&& subscription(ours, None, shard, epoch, from_lsn, max_txns).0 is Error
                || subscription(ours, None, shard, epoch, from_lsn, max_txns).0 is NeedsBootstrap
        }),
{
}

/// A request for frames says nothing of what is held where it comes from nobody, or asks from the
/// very beginning.
pub proof fn law_who_acknowledges(acks: AckModel, node: u64, shard: ShardId, from_lsn: u64)
    ensures
        node == 0 || from_lsn == 0 ==> acknowledged(Some(acks), node, shard, from_lsn) == Some(acks),
        acknowledged(None, node, shard, from_lsn) is None,
{
}

// ---- requests handled here ---------------------------------------------------------------------

/// A peer that speaks another version is refused; one that speaks this one is welcomed, and told how
/// many shards there are.
pub proof fn law_versions_must_agree(
    version: u32,
    client: Seq<char>,
    facts: NodeFacts,
    s: ServicesModel,
)
    ensures
        ({
            let reply = local_result(RequestModel::Hello { version, client }, facts, s).0;
            &&& version == PROTOCOL_VERSION ==> reply == LocalModel::Reply(
                ResponseModel::Welcome {
                    version,
                    shard_count: facts.shard_count,
                    epoch: facts.epoch,
                },
            )
            &&& version != PROTOCOL_VERSION ==> (reply matches LocalModel::Reply(r) && r is Error)
        }),
{
}

/// A query over all shards carries no bound parameters: with any it is refused, without it is carried
/// out as it is.
pub proof fn law_fan_outs_carry_no_parameters(
    statement: StatementModel,
    facts: NodeFacts,
    s: ServicesModel,
)
    ensures
        ({
            let req = RequestModel::QueryAll { statement };
            let reply = local_result(req, facts, s).0;
            &&& statement.params.len() > 0 ==> (reply matches LocalModel::Reply(r) && r is Error)
            &&& statement.params.len() == 0 ==> reply == LocalModel::Carry(req)
        }),
{
}

/// A chunk of a snapshot fits in a message: no more is read than half a frame holds.
pub proof fn law_chunks_fit(shard: u32, offset: u64, len: u32, facts: NodeFacts, s: ServicesModel)
    ensures
        local_result(RequestModel::SnapshotRead { shard, offset, len }, facts, s).0 matches
            LocalModel::Carry(RequestModel::SnapshotRead { shard: a, offset: b, len: n }) && a
            == shard && b == offset && n <= len && 2 * n <= MAX_FRAME_BYTES && (2 * len
            <= MAX_FRAME_BYTES ==> n == len),
{
}

/// Statements, transactions, routes, snapshots and schema changes are carried out as they are, and
/// leave the node's services alone.
pub proof fn law_the_work_is_carried_out(req: RequestModel, facts: NodeFacts, s: ServicesModel)
    requires
        req is Query || req is Run || req is Execute || req is ExecuteAll || req is Transaction || req
            is Route || req is SnapshotBegin || req is SnapshotEnd || req is SchemaApply,
    ensures
        local_result(req, facts, s) == (LocalModel::Carry(req), s),
{
}

/// Elections are for members: a vote or a heartbeat is carried out by one, and refused by any other.
pub proof fn law_elections_are_for_members(data: Seq<u8>, facts: NodeFacts, s: ServicesModel)
    ensures
        s.member ==> local_result(RequestModel::Vote(data), facts, s).0 == LocalModel::Carry(
            RequestModel::Vote(data),
        ) && local_result(RequestModel::Beat(data), facts, s).0 == LocalModel::Carry(
            RequestModel::Beat(data),
        ),
        !s.member ==> (local_result(RequestModel::Vote(data), facts, s).0 matches LocalModel::Reply(
            r,
        ) && r is Error) && (local_result(
            RequestModel::Beat(data),
            facts,
            s,
        ).0 matches LocalModel::Reply(r) && r is Error),
{
}

/// Users are listed with their names and roles, in their order, and without their keys; where there
/// is no authentication there is nobody to list, to create or to drop.
pub proof fn law_users_are_listed(
    facts: NodeFacts,
    s: ServicesModel,
    i: int,
    name: Seq<char>,
    key: Seq<u8>,
    role: Role,
)
    ensures
        s.users matches Some(u) ==> (local_result(
            RequestModel::ListUsers,
            facts,
            s,
        ).0 matches LocalModel::Reply(ResponseModel::Users { users }) && users.len() == u.0.len() && (
        0 <= i < users.len() ==> users[i] == (u.0[i].name, u.0[i].role))),
        s.users is None ==> (local_result(
            RequestModel::ListUsers,
            facts,
            s,
        ).0 matches LocalModel::Reply(r) && r is Error),
        s.users is None ==> local_result(
            RequestModel::CreateUser { name, key, role },
            facts,
            s,
        ).1 == s && local_result(RequestModel::DropUser { name }, facts, s).1 == s,
{
}

/// A forward is counted where it has somewhere to go, and as failed where there is an owner and no
/// answer.
pub proof fn law_forwards_are_counted(
    before: ForwardStats,
    cluster: Membership,
    shard: ShardId,
    owner: u64,
    answered: bool,
)
    requires
        before.forwarded < u64::MAX,
        before.failed < u64::MAX,
    ensures
        !cluster.owners@.dom().contains(shard.0) ==> forward_counts(before, cluster, shard, answered)
            == before,
        cluster.owners@.dom().contains(shard.0) && cluster.owners@[shard.0] == owner ==> ({
            let after = forward_counts(before, cluster, shard, answered);
            &&& cluster.address_of(owner) is Some ==> after.forwarded == before.forwarded + 1
            &&& cluster.address_of(owner) is None ==> after.forwarded == before.forwarded
            &&& answered ==> after.failed == before.failed
            &&& !answered ==> after.failed == before.failed + 1
        }),
{
}

/// A schema change is sent to every shard in turn, as it is, and what each answers is told under its
/// own number.
pub proof fn law_schema_changes_go_everywhere(
    calls: RollRecord,
    router: Option<Router>,
    ddl: StatementModel,
    i: int,
)
    requires
        rolled(calls, router, ddl),
        0 <= i < calls.len(),
    ensures
        calls[i].0.request.model() == (RequestModel::SchemaApply { shard: i as u32, ddl }),
        router is None ==> calls[i].0.here,
        router matches Some(x) ==> calls[i].0.here == x.mine(ShardId(i as u32)),
        roll_outcomes(calls).len() == calls.len(),
        roll_outcomes(calls)[i] == (i as u32, schema_outcome(calls[i].1)),
{
}

/// A user is created as given, under their name and in place of one of that name, and dropped by
/// their name; either is saved, where users are kept, before it is answered.
pub proof fn law_users_come_and_go(
    s: ServicesModel,
    users: Seq<UserModel>,
    kept: bool,
    user: UserModel,
    name: Seq<char>,
)
    requires
        s.users == Some((users, kept)),
    ensures
        user.role != Role::Cluster && valid_name(user.name) ==> user_created(s, user).1.users == Some(
            (with_user(users, user), kept),
        ),
        user.role == Role::Cluster || !valid_name(user.name) ==> user_created(s, user).1 == s && (
        user_created(s, user).0 matches LocalModel::Reply(r) && (r is Error || r is Rejected)),
        user.role != Role::Cluster && valid_name(user.name) && kept ==> user_created(s, user).0 == (
        LocalModel::Save { text: users_text(with_user(users, user)), reply: ResponseModel::Done }),
        user.role != Role::Cluster && valid_name(user.name) && !kept ==> user_created(s, user).0
            == LocalModel::Reply(ResponseModel::Done),
        user_named(users, name) is Some ==> user_dropped(s, name).1.users == Some(
            (without_user(users, name), kept),
        ),
        user_named(users, name) is Some && kept ==> user_dropped(s, name).0 == (LocalModel::Save {
            text: users_text(without_user(users, name)),
            reply: ResponseModel::Done,
        }),
        user_named(users, name) is None ==> user_dropped(s, name).1 == s && (user_dropped(
            s,
            name,
        ).0 matches LocalModel::Reply(r) && (r is Error || r is Rejected)),
{
}

} // verus!
