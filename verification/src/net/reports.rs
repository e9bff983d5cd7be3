//! What the reports of a node say, in plain terms: every field tells what it is named after.

use vstd::prelude::*;

use super::auth::Role;
use super::console::{
    acks_view, agreement_view, catalog_member_view, checkpoint_view, churn_view, cluster_fields,
    consensus_holds, explain_view, health_status, health_view, http_view, info_view, is_primary,
    lag, meta_view, operation_view, owner_in, peer_status, peer_view, placement_holds,
    placement_view, primary_view, quorum, quorum_known, reachable, replica_view, replication_list,
    replication_shows, replication_view, self_view, settings_view, shard_view, shard_views, told,
    voters, writer_view, Agreement, CheckpointFacts, GatewayFacts, HttpStats, MemberFacts,
    OperationFacts, PlacementFacts,
};
use super::http_ops::{
    archival_view, archive_view, failures, snapshots_view, stored_count, summary_view, ShardSnapshot,
};
use super::json::{
    field_of, integer, json_shards, json_texts, maybe, outcome_json, reader_report, user_json, wal_report,
    whole, ClusterFacts, JsonModel, ReaderFacts, WalFacts, WriterFacts,
};
use super::protocol::OutcomeModel;
use crate::query::planner::sql_plan;
use crate::replication::ack::{is_quorum_lsn, AckTracker};
use crate::replication::follower::{position_in, Follower, Position};
use crate::s3::config::S3Summary;
use crate::s3::sink::{S3SinkStatus, ShardArchive};
use crate::shard::id::ShardId;
use crate::text::lower;

verus! {

/// A text in a report.
pub open spec fn says(j: JsonModel, name: Seq<char>, words: Seq<char>) -> bool {
    field_of(j, name) == Some(JsonModel::Text(words))
}

/// A part of a report.
pub open spec fn part(j: JsonModel, name: Seq<char>) -> JsonModel {
    field_of(j, name)->0
}

/// A node that stands alone is healthy and has all its shards.
pub proof fn law_health_of_a_node_alone(g: GatewayFacts, now_ms: u64)
    requires
        g.cluster is None,
    ensures
        ({
            let consensus = part(part(health_view(g, now_ms), "checks"@), "consensus"@);
            let placement = part(part(health_view(g, now_ms), "checks"@), "placement"@);
            let report = health_view(g, now_ms);
            &&& says(report, "status"@, "healthy"@)
            &&& field_of(report, "observed_at_ms"@) == Some(whole(now_ms))
            &&& field_of(report, "node"@) == Some(JsonModel::Null)
            &&& field_of(placement, "assigned"@) == Some(whole(g.node.shard_count as u64))
            &&& field_of(placement, "expected"@) == Some(whole(g.node.shard_count as u64))
            &&& says(consensus, "status"@, "not_applicable"@)
        }),
{
    reveal_strlit("status");
    reveal_strlit("observed_at_ms");
    reveal_strlit("node");
    reveal_strlit("checks");
    reveal_strlit("storage");
    reveal_strlit("consensus");
    reveal_strlit("placement");
    reveal_strlit("assigned");
    reveal_strlit("expected");
    reveal_strlit("reason");
    assert("status"@.len() == 6);
    assert("observed_at_ms"@.len() == 14);
    assert("node"@.len() == 4);
    assert("checks"@.len() == 6);
    assert("storage"@.len() == 7);
    assert("consensus"@.len() == 9);
    assert("placement"@.len() == 9);
    assert("assigned"@.len() == 8);
    assert("expected"@.len() == 8);
    assert("reason"@.len() == 6);
    assert("status"@[0] == 's' && "checks"@[0] == 'c');
    assert("status"@[0] == 's' && "reason"@[0] == 'r');
    assert("checks"@[0] == 'c' && "reason"@[0] == 'r');
    assert("consensus"@[0] == 'c' && "placement"@[0] == 'p');
    assert("assigned"@[0] == 'a' && "expected"@[0] == 'e');
}

/// A member reports its cluster's health, who it is and who leads; consensus and placement are ok
/// exactly where they hold.
pub proof fn law_health_of_a_member(g: GatewayFacts, c: ClusterFacts, now_ms: u64)
    requires
        g.cluster == Some(c),
    ensures
        ({
            let report = health_view(g, now_ms);
            &&& says(report, "status"@, health_status(c, g.node.shard_count))
            &&& field_of(report, "observed_at_ms"@) == Some(whole(now_ms))
            &&& field_of(report, "node"@) == Some(whole(c.id))
            &&& field_of(report, "term"@) == Some(whole(c.term))
            &&& field_of(report, "leader"@) == Some(maybe(c.leader))
        }),
{
    reveal_strlit("status");
    reveal_strlit("observed_at_ms");
    reveal_strlit("node");
    reveal_strlit("term");
    reveal_strlit("role");
    reveal_strlit("leader");
    reveal_strlit("checks");
    reveal_strlit("storage");
    reveal_strlit("consensus");
    reveal_strlit("placement");
    assert("status"@.len() == 6);
    assert("observed_at_ms"@.len() == 14);
    assert("node"@.len() == 4);
    assert("term"@.len() == 4);
    assert("role"@.len() == 4);
    assert("leader"@.len() == 6);
    assert("checks"@.len() == 6);
    assert("storage"@.len() == 7);
    assert("consensus"@.len() == 9);
    assert("placement"@.len() == 9);
    assert("status"@[0] == 's' && "leader"@[0] == 'l');
    assert("status"@[0] == 's' && "checks"@[0] == 'c');
    assert("node"@[0] == 'n' && "term"@[0] == 't');
    assert("node"@[0] == 'n' && "role"@[0] == 'r');
    assert("term"@[0] == 't' && "role"@[0] == 'r');
    assert("leader"@[0] == 'l' && "checks"@[0] == 'c');
    assert("consensus"@[0] == 'c' && "placement"@[0] == 'p');
}

/// The checks of a member: consensus and placement are ok exactly where they hold, and what they
/// were judged by is told.
pub proof fn law_checks_of_a_member(g: GatewayFacts, c: ClusterFacts, now_ms: u64)
    requires
        g.cluster == Some(c),
    ensures
        ({
            let consensus = part(part(health_view(g, now_ms), "checks"@), "consensus"@);
            let placement = part(part(health_view(g, now_ms), "checks"@), "placement"@);
            &&& consensus_holds(c) ==> says(consensus, "status"@, "ok"@)
            &&& !consensus_holds(c) ==> says(consensus, "status"@, "degraded"@)
            &&& field_of(consensus, "voters"@) == Some(whole(voters(c)))
            &&& field_of(consensus, "quorum"@) == Some(whole(quorum(c)))
            &&& field_of(consensus, "reachable"@) == Some(maybe(reachable(c)))
            &&& placement_holds(c, g.node.shard_count) ==> says(placement, "status"@, "ok"@)
            &&& !placement_holds(c, g.node.shard_count) ==> says(placement, "status"@, "degraded"@)
            &&& field_of(placement, "assigned"@) == Some(whole(c.assignments@.len() as u64))
            &&& field_of(placement, "expected"@) == Some(whole(g.node.shard_count as u64))
            &&& field_of(placement, "handover_failures"@) == Some(whole(c.stats.handover_failed))
        }),
{
    reveal_strlit("status");
    reveal_strlit("checks");
    reveal_strlit("storage");
    reveal_strlit("consensus");
    reveal_strlit("placement");
    reveal_strlit("voters");
    reveal_strlit("quorum");
    reveal_strlit("reachable");
    reveal_strlit("assigned");
    reveal_strlit("expected");
    reveal_strlit("handover_failures");
    assert("status"@.len() == 6);
    assert("checks"@.len() == 6);
    assert("storage"@.len() == 7);
    assert("consensus"@.len() == 9);
    assert("placement"@.len() == 9);
    assert("voters"@.len() == 6);
    assert("quorum"@.len() == 6);
    assert("reachable"@.len() == 9);
    assert("assigned"@.len() == 8);
    assert("expected"@.len() == 8);
    assert("handover_failures"@.len() == 17);
    assert("status"@[0] == 's' && "checks"@[0] == 'c');
    assert("status"@[0] == 's' && "voters"@[0] == 'v');
    assert("status"@[0] == 's' && "quorum"@[0] == 'q');
    assert("checks"@[0] == 'c' && "voters"@[0] == 'v');
    assert("checks"@[0] == 'c' && "quorum"@[0] == 'q');
    assert("consensus"@[0] == 'c' && "placement"@[0] == 'p');
    assert("consensus"@[0] == 'c' && "reachable"@[0] == 'r');
    assert("placement"@[0] == 'p' && "reachable"@[0] == 'r');
    assert("voters"@[0] == 'v' && "quorum"@[0] == 'q');
    assert("assigned"@[0] == 'a' && "expected"@[0] == 'e');
}

/// A shard is reported with its owner and with where it stands here: where this node writes it, at
/// what was written; where it follows, at what was applied.
pub proof fn law_shards_are_reported(
    g: GatewayFacts,
    follower: Option<Follower>,
    shard: u32,
    lsn: u64,
)
    ensures
        ({
            let report = shard_view(g, follower, shard, lsn);
            &&& field_of(report, "id"@) == Some(whole(shard as u64))
            &&& field_of(report, "owner"@) == Some(maybe(owner_in(g.cluster, shard)))
            &&& is_primary(g.cluster, shard) ==> says(report, "local_role"@, "primary"@)
                && field_of(report, "lsn"@) == Some(whole(lsn))
            &&& is_primary(g.cluster, shard) ==> (g.node.epoch matches Some(e)
                ==> field_of(report, "epoch"@) == Some(whole(e)))
            &&& !is_primary(g.cluster, shard) ==> (follower matches Some(x)
                ==> says(report, "local_role"@, "replica"@)
                && field_of(report, "lsn"@) == Some(whole(position_in(x@, ShardId(shard)).applied_lsn))
                && field_of(report, "epoch"@) == Some(whole(position_in(x@, ShardId(shard)).epoch)))
            &&& !is_primary(g.cluster, shard) && follower is None
                ==> says(report, "local_role"@, "unassigned"@)
        }),
{
    reveal_strlit("id");
    reveal_strlit("owner");
    reveal_strlit("local_role");
    reveal_strlit("epoch");
    reveal_strlit("lsn");
    assert("id"@.len() == 2);
    assert("owner"@.len() == 5);
    assert("local_role"@.len() == 10);
    assert("epoch"@.len() == 5);
    assert("lsn"@.len() == 3);
    assert("owner"@[0] == 'o' && "epoch"@[0] == 'e');
}

/// Every shard is reported, in order.
pub proof fn law_every_shard_is_reported(
    g: GatewayFacts,
    follower: Option<Follower>,
    lsns: Seq<u64>,
    i: int,
)
    requires
        0 <= i < lsns.len(),
    ensures
        shard_views(g, follower, lsns).len() == lsns.len(),
        shard_views(g, follower, lsns)[i] == shard_view(g, follower, i as u32, lsns[i]),
{
}

/// A shard that this node writes is reported with what was written, with what a quorum holds, where
/// that is known, and with how far that is behind.
pub proof fn law_lag_is_reported(shard: u32, lsn: u64, held: Option<u64>)
    ensures
        ({
            let report = primary_view(shard, lsn, held);
            &&& field_of(report, "id"@) == Some(whole(shard as u64))
            &&& says(report, "role"@, "primary"@)
            &&& field_of(report, "primary_lsn"@) == Some(whole(lsn))
            &&& field_of(report, "quorum_lsn"@) == Some(maybe(held))
            &&& held matches Some(q) ==> field_of(report, "lag"@) == Some(whole(lag(lsn, q)))
            &&& held is None ==> field_of(report, "lag"@) == Some(JsonModel::Null)
        }),
{
    reveal_strlit("id");
    reveal_strlit("role");
    reveal_strlit("primary_lsn");
    reveal_strlit("quorum_lsn");
    reveal_strlit("lag");
    assert("id"@.len() == 2);
    assert("role"@.len() == 4);
    assert("primary_lsn"@.len() == 11);
    assert("quorum_lsn"@.len() == 10);
    assert("lag"@.len() == 3);
}

/// A copy of a shard is reported with its run and with how far it was applied.
pub proof fn law_copies_are_reported(shard: u32, pos: Position)
    ensures
        ({
            let report = replica_view(shard, pos);
            &&& field_of(report, "id"@) == Some(whole(shard as u64))
            &&& says(report, "role"@, "replica"@)
            &&& field_of(report, "epoch"@) == Some(whole(pos.epoch))
            &&& field_of(report, "applied_lsn"@) == Some(whole(pos.applied_lsn))
        }),
{
    reveal_strlit("id");
    reveal_strlit("role");
    reveal_strlit("epoch");
    reveal_strlit("applied_lsn");
    assert("id"@.len() == 2);
    assert("role"@.len() == 4);
    assert("epoch"@.len() == 5);
    assert("applied_lsn"@.len() == 11);
}

/// What is told of replication on a shard: as its writer, with what a quorum holds of it; as its
/// follower, with where the copy stands.
pub proof fn law_replication_of_a_shard(
    g: GatewayFacts,
    acks: Option<AckTracker>,
    follower: Option<Follower>,
    shard: u32,
    lsn: u64,
    j: JsonModel,
)
    requires
        replication_shows(g, acks, follower, shard, lsn, j),
    ensures
        is_primary(g.cluster, shard) && acks is None ==> j == primary_view(shard, lsn, None),
        is_primary(g.cluster, shard) ==> (acks matches Some(a) ==> exists|q: u64|
            j == primary_view(shard, lsn, Some(q)) && #[trigger] is_quorum_lsn(
                a@.reports,
                ShardId(shard),
                (a@.quorum() - 1) as nat,
                q,
            )),
        !is_primary(g.cluster, shard) ==> (follower matches Some(x) ==> j == replica_view(
            shard,
            position_in(x@, ShardId(shard)),
        )),
{
    if is_primary(g.cluster, shard) {
        let q = choose|q: Option<u64>| #[trigger]
            quorum_known(acks, shard, q) && j == primary_view(shard, lsn, q);
        if let Some(a) = acks {
            assert(is_quorum_lsn(a@.reports, ShardId(shard), (a@.quorum() - 1) as nat, q->0));
        }
    }
}

/// The report on replication tells of every shard that this node writes or follows, in order.
pub proof fn law_replication_is_reported(
    g: GatewayFacts,
    acks: Option<AckTracker>,
    follower: Option<Follower>,
    lsns: Seq<u64>,
    shards: Seq<u32>,
    now_ms: u64,
    j: JsonModel,
    k: int,
)
    requires
        replication_view(g, acks, follower, lsns, now_ms, j),
        shards == told(g, follower, lsns.len()),
        0 <= k < shards.len(),
    ensures
        field_of(j, "shards"@) matches Some(JsonModel::List(items)) && items.len() == shards.len(),
        field_of(j, "shards"@) matches Some(JsonModel::List(items))
            && replication_shows(g, acks, follower, shards[k], lsns[shards[k] as int], items[k]),
        field_of(j, "replicated"@) == Some(JsonModel::Bool(acks is Some || follower is Some)),
        field_of(j, "acks"@) == Some(acks_view(acks)),
        field_of(j, "observed_at_ms"@) == Some(whole(now_ms)),
{
    reveal_strlit("api_version");
    reveal_strlit("observed_at_ms");
    reveal_strlit("node");
    reveal_strlit("replicated");
    reveal_strlit("acks");
    reveal_strlit("shards");
    assert("api_version"@.len() == 11);
    assert("observed_at_ms"@.len() == 14);
    assert("node"@.len() == 4);
    assert("replicated"@.len() == 10);
    assert("acks"@.len() == 4);
    assert("shards"@.len() == 6);
    assert("node"@[0] == 'n' && "acks"@[0] == 'a');
    let items = choose|items: Seq<JsonModel>|
        replication_list(g, acks, follower, lsns, lsns.len(), items) && field_of(j, "shards"@)
            == Some(JsonModel::List(items));
    assert(replication_shows(g, acks, follower, shards[k], lsns[shards[k] as int], items[k]));
}

/// The acknowledgements are reported as they were counted.
pub proof fn law_acknowledgements_are_reported(a: AckTracker)
    ensures
        ({
            let report = acks_view(Some(a));
            &&& field_of(report, "confirmed"@) == Some(whole(a@.confirmed))
            &&& field_of(report, "timed_out"@) == Some(whole(a@.timed_out))
            &&& field_of(report, "waited_us"@) == Some(whole(a@.waited_us))
            &&& acks_view(None) is Null
        }),
{
    reveal_strlit("confirmed");
    reveal_strlit("timed_out");
    reveal_strlit("waited_us");
    assert("confirmed"@.len() == 9);
    assert("timed_out"@.len() == 9);
    assert("waited_us"@.len() == 9);
    assert("confirmed"@[0] == 'c' && "timed_out"@[0] == 't');
    assert("confirmed"@[0] == 'c' && "waited_us"@[0] == 'w');
    assert("timed_out"@[0] == 't' && "waited_us"@[0] == 'w');
}

/// This node is up, and cordoned where it was; a peer is reported as it is seen.
pub proof fn law_members_are_reported(c: ClusterFacts, peer: (u64, String))
    ensures
        ({
            let own = self_view(c);
            let other = peer_view(c, peer);
            &&& field_of(own, "node"@) == Some(whole(c.id))
            &&& field_of(own, "this_node"@) == Some(JsonModel::Bool(true))
            &&& says(own, "status"@, "up"@)
            &&& field_of(own, "cordoned"@) == Some(JsonModel::Bool(c.is_cordoned))
            &&& field_of(other, "node"@) == Some(whole(peer.0))
            &&& says(other, "address"@, peer.1@)
            &&& field_of(other, "this_node"@) == Some(JsonModel::Bool(false))
            &&& says(other, "status"@, peer_status(c, peer.0))
            &&& field_of(other, "cordoned"@) == Some(JsonModel::Bool(c.cordoned@.contains(peer.0)))
        }),
{
    reveal_strlit("node");
    reveal_strlit("address");
    reveal_strlit("this_node");
    reveal_strlit("status");
    reveal_strlit("cordoned");
    assert("node"@.len() == 4);
    assert("address"@.len() == 7);
    assert("this_node"@.len() == 9);
    assert("status"@.len() == 6);
    assert("cordoned"@.len() == 8);
}

/// Members and placements are reported as the catalog has them.
pub proof fn law_the_catalog_is_reported(m: MemberFacts, p: PlacementFacts)
    ensures
        ({
            let member = catalog_member_view(m);
            let placed = placement_view(p);
            &&& field_of(member, "node"@) == Some(whole(m.node))
            &&& field_of(member, "incarnation"@) == Some(whole(m.incarnation))
            &&& says(member, "address"@, m.address@)
            &&& says(member, "role"@, lower(m.role@))
            &&& says(member, "state"@, lower(m.state@))
            &&& field_of(member, "placement_eligible"@) == Some(JsonModel::Bool(m.placement_eligible))
            &&& field_of(placed, "shard"@) == Some(whole(p.shard as u64))
            &&& field_of(placed, "generation"@) == Some(whole(p.generation))
            &&& field_of(placed, "primary"@) == Some(whole(p.primary))
        }),
{
    reveal_strlit("node");
    reveal_strlit("incarnation");
    reveal_strlit("address");
    reveal_strlit("role");
    reveal_strlit("state");
    reveal_strlit("placement_eligible");
    reveal_strlit("shard");
    reveal_strlit("generation");
    reveal_strlit("primary");
    reveal_strlit("replicas");
    assert("node"@.len() == 4);
    assert("incarnation"@.len() == 11);
    assert("address"@.len() == 7);
    assert("role"@.len() == 4);
    assert("state"@.len() == 5);
    assert("placement_eligible"@.len() == 18);
    assert("shard"@.len() == 5);
    assert("generation"@.len() == 10);
    assert("primary"@.len() == 7);
    assert("replicas"@.len() == 8);
    assert("node"@[0] == 'n' && "role"@[0] == 'r');
    assert("address"@[0] == 'a' && "primary"@[0] == 'p');
    assert("state"@[1] == 't' && "shard"@[1] == 'h');
}

/// An operation is reported with what it is, how far it is, and what it moves from where to where.
pub proof fn law_operations_are_reported(o: OperationFacts)
    ensures
        ({
            let report = operation_view(o);
            &&& field_of(report, "id"@) == Some(whole(o.id))
            &&& says(report, "kind"@, lower(o.kind@))
            &&& says(report, "phase"@, lower(o.phase@))
            &&& field_of(report, "source"@) == Some(maybe(o.source))
            &&& field_of(report, "destination"@) == Some(maybe(o.destination))
            &&& o.shard matches Some(n) ==> field_of(report, "shard"@) == Some(whole(n as u64))
            &&& o.last_error matches Some(e) ==> says(report, "last_error"@, e@)
            &&& field_of(report, "snapshot_lsn"@) == Some(maybe(o.snapshot_lsn))
            &&& field_of(report, "durable_lsn"@) == Some(maybe(o.durable_lsn))
            &&& field_of(report, "final_lsn"@) == Some(maybe(o.final_lsn))
            &&& field_of(report, "routing_before"@) == Some(maybe(o.routing_before))
            &&& field_of(report, "routing_after"@) == Some(maybe(o.routing_after))
        }),
{
    reveal_strlit("id");
    reveal_strlit("kind");
    reveal_strlit("phase");
    reveal_strlit("shard");
    reveal_strlit("source");
    reveal_strlit("destination");
    reveal_strlit("expected_generation");
    reveal_strlit("stream_epoch");
    reveal_strlit("snapshot_lsn");
    reveal_strlit("durable_lsn");
    reveal_strlit("final_lsn");
    reveal_strlit("routing_before");
    reveal_strlit("routing_after");
    reveal_strlit("created_version");
    reveal_strlit("last_error");
    assert("id"@.len() == 2);
    assert("kind"@.len() == 4);
    assert("phase"@.len() == 5);
    assert("shard"@.len() == 5);
    assert("source"@.len() == 6);
    assert("destination"@.len() == 11);
    assert("expected_generation"@.len() == 19);
    assert("stream_epoch"@.len() == 12);
    assert("snapshot_lsn"@.len() == 12);
    assert("durable_lsn"@.len() == 11);
    assert("final_lsn"@.len() == 9);
    assert("routing_before"@.len() == 14);
    assert("routing_after"@.len() == 13);
    assert("created_version"@.len() == 15);
    assert("last_error"@.len() == 10);
    assert("phase"@[0] == 'p' && "shard"@[0] == 's');
    assert("destination"@[1] == 'e' && "durable_lsn"@[1] == 'u');
    assert("stream_epoch"@[1] == 't' && "snapshot_lsn"@[1] == 'n');
}

/// A node tells how many shards there are, which run it is, and whether it is one of a cluster.
pub proof fn law_nodes_are_described(g: GatewayFacts)
    ensures
        ({
            let report = info_view(g);
            &&& field_of(report, "shard_count"@) == Some(whole(g.node.shard_count as u64))
            &&& field_of(report, "epoch"@) == Some(maybe(g.node.epoch))
            &&& field_of(report, "forwarding"@) == Some(JsonModel::Bool(g.forwarding))
        }),
{
    reveal_strlit("shard_count");
    reveal_strlit("epoch");
    reveal_strlit("version");
    reveal_strlit("forwarding");
    assert("shard_count"@.len() == 11);
    assert("epoch"@.len() == 5);
    assert("version"@.len() == 7);
    assert("forwarding"@.len() == 10);
}

/// What a node says of itself, and what it can do.
pub proof fn law_nodes_describe_themselves(g: GatewayFacts)
    ensures
        ({
            let report = meta_view(g);
            &&& field_of(report, "clustered"@) == Some(JsonModel::Bool(g.cluster is Some))
            &&& field_of(report, "shard_count"@) == Some(whole(g.node.shard_count as u64))
            &&& field_of(report, "epoch"@) == Some(maybe(g.node.epoch))
            &&& field_of(report, "forwarding"@) == Some(JsonModel::Bool(g.forwarding))
            &&& g.cluster matches Some(c) ==> field_of(report, "node"@) == Some(whole(c.id))
            &&& g.cluster is None ==> field_of(report, "node"@) == Some(JsonModel::Null)
            &&& field_of(part(report, "capabilities"@), "dynamic_scaling"@) == Some(JsonModel::Bool(g.catalog))
        }),
{
    reveal_strlit("api_version");
    reveal_strlit("version");
    reveal_strlit("node");
    reveal_strlit("clustered");
    reveal_strlit("shard_count");
    reveal_strlit("epoch");
    reveal_strlit("forwarding");
    reveal_strlit("capabilities");
    reveal_strlit("health");
    reveal_strlit("topology");
    reveal_strlit("shards");
    reveal_strlit("metrics");
    reveal_strlit("dynamic_scaling");
    assert("api_version"@.len() == 11);
    assert("version"@.len() == 7);
    assert("node"@.len() == 4);
    assert("clustered"@.len() == 9);
    assert("shard_count"@.len() == 11);
    assert("epoch"@.len() == 5);
    assert("forwarding"@.len() == 10);
    assert("capabilities"@.len() == 12);
    assert("health"@.len() == 6);
    assert("topology"@.len() == 8);
    assert("shards"@.len() == 6);
    assert("metrics"@.len() == 7);
    assert("dynamic_scaling"@.len() == 15);
    assert("api_version"@[0] == 'a' && "shard_count"@[0] == 's');
    assert("version"@[0] == 'v' && "metrics"@[0] == 'm');
    assert("health"@[0] == 'h' && "shards"@[0] == 's');
}

/// A query is explained as supported exactly where it can be planned, with the plan's name, and as
/// heavy exactly where it runs on the coordinator.
pub proof fn law_queries_are_explained(sql: Seq<char>, keys: Map<Seq<char>, Seq<char>>)
    ensures
        ({
            let report = explain_view(sql, keys);
            &&& field_of(report, "supported"@) == Some(JsonModel::Bool(sql_plan(sql, keys) is Ok))
            &&& sql_plan(sql, keys) matches Ok(p) ==> says(report, "strategy"@, p.strategy())
                && says(report, "note"@, p.note())
                && field_of(report, "heavy"@) == Some(JsonModel::Bool(p is Central))
            &&& sql_plan(sql, keys) is Err ==> says(report, "strategy"@, "unsupported"@)
                && field_of(report, "heavy"@) == Some(JsonModel::Bool(false))
        }),
{
    reveal_strlit("supported");
    reveal_strlit("strategy");
    reveal_strlit("note");
    reveal_strlit("heavy");
    assert("supported"@.len() == 9);
    assert("strategy"@.len() == 8);
    assert("note"@.len() == 4);
    assert("heavy"@.len() == 5);
}

/// Archival is configured where there is a bucket, and as healthy as its sink; the last error is told.
pub proof fn law_archival_is_reported(
    capturing: bool,
    summary: Option<S3Summary>,
    status: Option<S3SinkStatus>,
)
    ensures
        ({
            let report = archival_view(capturing, summary, status);
            &&& field_of(report, "capture_ready"@) == Some(JsonModel::Bool(capturing))
            &&& field_of(report, "configured"@) == Some(JsonModel::Bool(summary is Some))
            &&& status matches Some(x)
                ==> field_of(report, "health"@) == Some(JsonModel::Bool(x.healthy))
            &&& status is None ==> field_of(report, "health"@) == Some(JsonModel::Null)
            &&& status matches Some(x) ==> (x.last_error matches Some(e)
                ==> says(report, "last_error"@, e@))
            &&& status matches Some(x) ==> (x.last_error is None
                ==> field_of(report, "last_error"@) == Some(JsonModel::Null))
        }),
{
    reveal_strlit("supported");
    reveal_strlit("capture_ready");
    reveal_strlit("configured");
    reveal_strlit("summary");
    reveal_strlit("health");
    reveal_strlit("last_error");
    reveal_strlit("shards");
    assert("supported"@.len() == 9);
    assert("capture_ready"@.len() == 13);
    assert("configured"@.len() == 10);
    assert("summary"@.len() == 7);
    assert("health"@.len() == 6);
    assert("last_error"@.len() == 10);
    assert("shards"@.len() == 6);
    assert("configured"@[0] == 'c' && "last_error"@[0] == 'l');
    assert("health"@[0] == 'h' && "shards"@[0] == 's');
}

/// How far a shard is archived is reported as it is.
pub proof fn law_archived_shards_are_reported(a: ShardArchive, x: S3Summary)
    ensures
        ({
            let archived = archive_view(a);
            let bucket = summary_view(Some(x));
            &&& field_of(archived, "shard"@) == Some(whole(a.shard as u64))
            &&& field_of(archived, "last_snapshot_epoch"@) == Some(whole(a.last_snapshot_epoch))
            &&& field_of(archived, "last_snapshot_lsn"@) == Some(whole(a.last_snapshot_lsn))
            &&& field_of(archived, "last_snapshot_ms"@) == Some(whole(a.last_snapshot_ms))
            &&& field_of(archived, "last_archived_lsn"@) == Some(whole(a.last_archived_lsn))
            &&& says(bucket, "bucket"@, x.bucket@)
            &&& says(bucket, "endpoint"@, x.endpoint@)
            &&& says(bucket, "region"@, x.region@)
            &&& says(bucket, "prefix"@, x.prefix@)
        }),
{
    reveal_strlit("shard");
    reveal_strlit("last_snapshot_epoch");
    reveal_strlit("last_snapshot_lsn");
    reveal_strlit("last_snapshot_ms");
    reveal_strlit("last_archived_lsn");
    reveal_strlit("bucket");
    reveal_strlit("endpoint");
    reveal_strlit("region");
    reveal_strlit("prefix");
    assert("shard"@.len() == 5);
    assert("last_snapshot_epoch"@.len() == 19);
    assert("last_snapshot_lsn"@.len() == 17);
    assert("last_snapshot_ms"@.len() == 16);
    assert("last_archived_lsn"@.len() == 17);
    assert("bucket"@.len() == 6);
    assert("endpoint"@.len() == 8);
    assert("region"@.len() == 6);
    assert("prefix"@.len() == 6);
    assert("last_snapshot_lsn"@[5] == 's' && "last_archived_lsn"@[5] == 'a');
    assert("bucket"@[0] == 'b' && "region"@[0] == 'r');
    assert("bucket"@[0] == 'b' && "prefix"@[0] == 'p');
    assert("region"@[0] == 'r' && "prefix"@[0] == 'p');
}

/// Shards that agree on a schema are reported with its version, others with the versions they are at.
pub proof fn law_schemas_are_compared(v: i64, lowest: i64, highest: i64, behind: u32, ahead: u32)
    ensures
        ({
            let agreed = agreement_view(Agreement::Agreed(v));
            let disagreed = agreement_view(Agreement::Disagreed { lowest, highest, behind, ahead });
            &&& says(agreed, "status"@, "agreed"@)
            &&& field_of(agreed, "version"@) == Some(integer(v))
            &&& says(disagreed, "status"@, "disagreed"@)
            &&& field_of(disagreed, "lowest"@) == Some(integer(lowest))
            &&& field_of(disagreed, "highest"@) == Some(integer(highest))
            &&& field_of(disagreed, "behind"@) == Some(whole(behind as u64))
            &&& field_of(disagreed, "ahead"@) == Some(whole(ahead as u64))
        }),
{
    reveal_strlit("status");
    reveal_strlit("version");
    reveal_strlit("lowest");
    reveal_strlit("highest");
    reveal_strlit("behind");
    reveal_strlit("ahead");
    assert("status"@.len() == 6);
    assert("version"@.len() == 7);
    assert("lowest"@.len() == 6);
    assert("highest"@.len() == 7);
    assert("behind"@.len() == 6);
    assert("ahead"@.len() == 5);
    assert("status"@[0] == 's' && "lowest"@[0] == 'l');
    assert("status"@[0] == 's' && "behind"@[0] == 'b');
    assert("version"@[0] == 'v' && "highest"@[0] == 'h');
    assert("lowest"@[0] == 'l' && "behind"@[0] == 'b');
}

/// What was counted is reported under its own name.
pub proof fn law_counts_are_reported(h: HttpStats, c: CheckpointFacts)
    ensures
        ({
            let http = http_view(h);
            let checkpoints = checkpoint_view(c);
            &&& field_of(http, "requests"@) == Some(whole(h.requests))
            &&& field_of(http, "errors"@) == Some(whole(h.errors))
            &&& field_of(http, "auth_failures"@) == Some(whole(h.auth_failures))
            &&& field_of(http, "authz_refused"@) == Some(whole(h.authz_refused))
            &&& field_of(checkpoints, "passive"@) == Some(whole(c.passive))
            &&& field_of(checkpoints, "truncated"@) == Some(whole(c.truncated))
            &&& field_of(checkpoints, "stalls"@) == Some(whole(c.stalls))
            &&& field_of(checkpoints, "failures"@) == Some(whole(c.failures))
            &&& field_of(checkpoints, "wal_bytes"@) == Some(whole(c.wal_bytes))
        }),
{
    reveal_strlit("requests");
    reveal_strlit("errors");
    reveal_strlit("auth_failures");
    reveal_strlit("authz_refused");
    reveal_strlit("passive");
    reveal_strlit("truncated");
    reveal_strlit("stalls");
    reveal_strlit("failures");
    reveal_strlit("wal_bytes");
    assert("requests"@.len() == 8);
    assert("errors"@.len() == 6);
    assert("auth_failures"@.len() == 13);
    assert("authz_refused"@.len() == 13);
    assert("passive"@.len() == 7);
    assert("truncated"@.len() == 9);
    assert("stalls"@.len() == 6);
    assert("failures"@.len() == 8);
    assert("wal_bytes"@.len() == 9);
    assert("requests"@[0] == 'r' && "failures"@[0] == 'f');
    assert("errors"@[0] == 'e' && "stalls"@[0] == 's');
    assert("auth_failures"@[4] == '_' && "authz_refused"@[4] == 'z');
    assert("truncated"@[0] == 't' && "wal_bytes"@[0] == 'w');
}

/// What the writers and the readers did is reported under its own name.
pub proof fn law_workers_are_reported(x: WriterFacts, mean: JsonModel, r: ReaderFacts)
    ensures
        ({
            let writer = writer_view(x, mean);
            let reader = reader_report(r);
            &&& field_of(writer, "batches"@) == Some(whole(x.batches))
            &&& field_of(writer, "requests"@) == Some(whole(x.requests))
            &&& field_of(writer, "max_batch"@) == Some(whole(x.max_batch))
            &&& field_of(writer, "mean_batch"@) == Some(mean)
            &&& field_of(writer, "open_now"@) == Some(whole(x.open_now))
            &&& field_of(writer, "shard_opens"@) == Some(whole(x.shard_opens))
            &&& field_of(writer, "shard_evictions"@) == Some(whole(x.shard_evictions))
            &&& field_of(writer, "threads"@) == Some(whole(x.threads))
            &&& field_of(reader, "queries"@) == Some(whole(r.queries))
            &&& field_of(reader, "rejected_busy"@) == Some(whole(r.rejected_busy))
            &&& field_of(reader, "timed_out"@) == Some(whole(r.timed_out))
            &&& field_of(reader, "threads"@) == Some(whole(r.threads))
        }),
{
    reveal_strlit("batches");
    reveal_strlit("requests");
    reveal_strlit("max_batch");
    reveal_strlit("mean_batch");
    reveal_strlit("open_now");
    reveal_strlit("shard_opens");
    reveal_strlit("shard_evictions");
    reveal_strlit("threads");
    reveal_strlit("queries");
    reveal_strlit("rejected_busy");
    reveal_strlit("timed_out");
    assert("batches"@.len() == 7);
    assert("requests"@.len() == 8);
    assert("max_batch"@.len() == 9);
    assert("mean_batch"@.len() == 10);
    assert("open_now"@.len() == 8);
    assert("shard_opens"@.len() == 11);
    assert("shard_evictions"@.len() == 15);
    assert("threads"@.len() == 7);
    assert("queries"@.len() == 7);
    assert("rejected_busy"@.len() == 13);
    assert("timed_out"@.len() == 9);
    assert("batches"@[0] == 'b' && "threads"@[0] == 't');
    assert("batches"@[0] == 'b' && "queries"@[0] == 'q');
    assert("requests"@[0] == 'r' && "open_now"@[0] == 'o');
    assert("max_batch"@[0] == 'm' && "timed_out"@[0] == 't');
    assert("threads"@[0] == 't' && "queries"@[0] == 'q');
}

/// How often a cluster changed is reported under its own name.
pub proof fn law_churn_is_reported(c: ClusterFacts)
    ensures
        ({
            let report = churn_view(Some(c));
            &&& field_of(report, "elections_started"@) == Some(whole(c.stats.elections_started))
            &&& field_of(report, "stepped_down"@) == Some(whole(c.stats.stepped_down))
            &&& field_of(report, "placement_changes"@) == Some(whole(c.stats.placement_changes))
            &&& field_of(report, "handover_failed"@) == Some(whole(c.stats.handover_failed))
            &&& field_of(report, "last_change_ms"@) == Some(whole(c.stats.last_change_ms))
            &&& churn_view(None) is Null
        }),
{
    reveal_strlit("elections_started");
    reveal_strlit("stepped_down");
    reveal_strlit("placement_changes");
    reveal_strlit("handover_failed");
    reveal_strlit("last_change_ms");
    assert("elections_started"@.len() == 17);
    assert("stepped_down"@.len() == 12);
    assert("placement_changes"@.len() == 17);
    assert("handover_failed"@.len() == 15);
    assert("last_change_ms"@.len() == 14);
    assert("elections_started"@[0] == 'e' && "placement_changes"@[0] == 'p');
}

/// A log with a header is reported with what is in it, one without as none.
pub proof fn law_logs_are_reported(x: WalFacts)
    ensures
        ({
            let report = wal_report(x);
            &&& field_of(report, "wal"@) == Some(JsonModel::Bool(x.header is Some))
            &&& field_of(report, "file_bytes"@) == Some(whole(x.file_bytes))
            &&& x.header matches Some(h) ==> field_of(report, "frames"@) == Some(whole(h.frames))
                && field_of(report, "transactions"@) == Some(whole(h.transactions))
                && field_of(report, "uncommitted_frames"@) == Some(whole(h.uncommitted_frames))
                && field_of(report, "leftover_frames"@) == Some(whole(h.leftover_frames))
                && field_of(report, "page_size"@) == Some(whole(h.page_size as u64))
        }),
{
    reveal_strlit("wal");
    reveal_strlit("file_bytes");
    reveal_strlit("page_size");
    reveal_strlit("salt");
    reveal_strlit("frames");
    reveal_strlit("transactions");
    reveal_strlit("uncommitted_frames");
    reveal_strlit("leftover_frames");
    assert("wal"@.len() == 3);
    assert("file_bytes"@.len() == 10);
    assert("page_size"@.len() == 9);
    assert("salt"@.len() == 4);
    assert("frames"@.len() == 6);
    assert("transactions"@.len() == 12);
    assert("uncommitted_frames"@.len() == 18);
    assert("leftover_frames"@.len() == 15);
}

/// What became of a schema change on a shard is told under its number, and users with their roles.
pub proof fn law_outcomes_and_users_are_shown(shard: u32, message: Seq<char>, name: Seq<char>, role: Role)
    ensures
        ({
            let applied = outcome_json((shard, OutcomeModel::Applied));
            let rejected = outcome_json((shard, OutcomeModel::Rejected(message)));
            let user = user_json((name, role));
            &&& field_of(applied, "shard"@) == Some(whole(shard as u64))
            &&& field_of(applied, "ok"@) == Some(JsonModel::Bool(true))
            &&& field_of(rejected, "shard"@) == Some(whole(shard as u64))
            &&& field_of(rejected, "ok"@) == Some(JsonModel::Bool(false))
            &&& says(rejected, "error"@, message)
            &&& says(user, "name"@, name)
            &&& says(user, "role"@, role.shown())
        }),
{
    reveal_strlit("shard");
    reveal_strlit("ok");
    reveal_strlit("error");
    reveal_strlit("name");
    reveal_strlit("role");
    assert("shard"@.len() == 5 && "ok"@.len() == 2 && "error"@.len() == 5);
    assert("name"@.len() == 4 && "role"@.len() == 4);
    assert("shard"@[0] == 's' && "error"@[0] == 'e' && "name"@[0] == 'n' && "role"@[0] == 'r');
}

/// A member tells its cluster's term, its own role in it, who leads, and how many vote.
pub proof fn law_clusters_are_reported(g: GatewayFacts, c: ClusterFacts)
    requires
        g.cluster == Some(c),
    ensures
        ({
            let fields = cluster_fields(g);
            &&& fields["clustered"@] == JsonModel::Bool(true)
            &&& fields["node"@] == whole(c.id)
            &&& fields["term"@] == whole(c.term)
            &&& fields["role"@] == JsonModel::Text(lower(c.role@))
            &&& fields["leader"@] == maybe(c.leader)
            &&& fields["voters"@] == whole(voters(c))
            &&& fields["led_shards"@] == json_shards(c.led_shards@)
        }),
{
    reveal_strlit("clustered");
    reveal_strlit("node");
    reveal_strlit("term");
    reveal_strlit("role");
    reveal_strlit("leader");
    reveal_strlit("voters");
    reveal_strlit("members");
    reveal_strlit("led_shards");
    reveal_strlit("placement");
    reveal_strlit("stats");
    assert("clustered"@.len() == 9);
    assert("node"@.len() == 4);
    assert("term"@.len() == 4);
    assert("role"@.len() == 4);
    assert("leader"@.len() == 6);
    assert("voters"@.len() == 6);
    assert("members"@.len() == 7);
    assert("led_shards"@.len() == 10);
    assert("placement"@.len() == 9);
    assert("stats"@.len() == 5);
    assert("clustered"@[0] == 'c' && "placement"@[0] == 'p');
    assert("node"@[0] == 'n' && "term"@[0] == 't');
    assert("node"@[0] == 'n' && "role"@[0] == 'r');
    assert("term"@[0] == 't' && "role"@[0] == 'r');
    assert("leader"@[0] == 'l' && "voters"@[0] == 'v');
}

/// The snapshots of all shards went well where none failed; those that were stored are counted.
pub proof fn law_snapshots_are_reported(outcomes: Seq<ShardSnapshot>)
    ensures
        ({
            let report = snapshots_view(outcomes);
            &&& field_of(report, "ok"@) == Some(JsonModel::Bool(failures(outcomes).len() == 0))
            &&& field_of(report, "snapshotted"@) == Some(whole(stored_count(outcomes) as u64))
            &&& field_of(report, "errors"@) == Some(json_texts(failures(outcomes)))
        }),
{
    reveal_strlit("ok");
    reveal_strlit("snapshotted");
    reveal_strlit("errors");
    assert("ok"@.len() == 2 && "snapshotted"@.len() == 11 && "errors"@.len() == 6);
}

/// Of the settings only archival and the users can be changed while a node runs.
pub proof fn law_settings(g: GatewayFacts, i: int)
    requires
        0 <= i < settings_view(g).len(),
    ensures
        settings_view(g).len() == 8,
        field_of(settings_view(g)[i], "mutable"@) == Some(JsonModel::Bool(i == 4 || i == 5)),
        field_of(settings_view(g)[0], "value"@) == Some(whole(g.node.shard_count as u64)),
        field_of(settings_view(g)[1], "value"@) == Some(JsonModel::Bool(g.cluster is Some)),
        field_of(settings_view(g)[3], "value"@) == Some(JsonModel::Bool(g.capture)),
        field_of(settings_view(g)[4], "value"@) == Some(JsonModel::Bool(g.archiving)),
        field_of(settings_view(g)[5], "value"@) == Some(JsonModel::Bool(g.secured)),
        field_of(settings_view(g)[6], "value"@) == Some(whole(g.workers)),
        field_of(settings_view(g)[7], "value"@) == Some(JsonModel::Bool(g.insecure)),
        says(settings_view(g)[4], "key"@, "s3_archival"@),
        says(settings_view(g)[5], "key"@, "auth"@),
{
    reveal_strlit("key");
    reveal_strlit("value");
    reveal_strlit("mutable");
    reveal_strlit("note");
    assert("key"@.len() == 3 && "value"@.len() == 5 && "mutable"@.len() == 7 && "note"@.len() == 4);
}

} // verus!
