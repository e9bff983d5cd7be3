//! What a node tells an operator's console over HTTP.
//!
//! Each function here makes one view of the node, as JSON, from plain facts about it.

use vstd::prelude::*;

use super::json::{
    ClusterFacts, ElectionFacts, Fields, from_items, from_nothing, integer, json_list, json_numbers,
    json_of, json_shards, json_texts, JsonModel, maybe, no_fields, numbers_to_json, placement_json,
    placement_report, reader_json, reader_report, ReaderFacts, shards_to_json, texts_to_json, whole,
    WriterFacts,
};
use super::server::NodeFacts;
use crate::query::plan::{plan_with, Plan, ShardKeys, Unsupported};
use crate::query::planner::sql_plan;
use crate::replication::ack::{AckTracker, is_quorum_lsn};
use crate::replication::follower::{Follower, Position, position_in};
use crate::shard::id::ShardId;
use crate::text::{decimal, lower, push_decimal, to_lower, views};

verus! {

/// The version that a node reports.
pub open spec fn version() -> Seq<char> {
    "0.1.0"@
}

/// What a gateway knows of its node.
#[derive(Debug)]
pub struct GatewayFacts {
    pub node: NodeFacts,
    pub cluster: Option<ClusterFacts>,
    /// Whether shard work is sent to the node that owns it.
    pub forwarding: bool,
    /// Whether the cluster keeps a catalog of its members.
    pub catalog: bool,
    /// Whether committed frames are captured.
    pub capture: bool,
    /// Whether frames are archived.
    pub archiving: bool,
    /// Whether users are configured.
    pub secured: bool,
    pub workers: u64,
    pub insecure: bool,
}

pub open spec fn node_id(cluster: Option<ClusterFacts>) -> Option<u64> {
    match cluster {
        Some(c) => Some(c.id),
        None => None,
    }
}

fn id_of(cluster: &Option<ClusterFacts>) -> (r: Option<u64>)
    ensures
        r == node_id(*cluster),
{
    match cluster {
        Some(c) => Some(c.id),
        None => None,
    }
}

pub open spec fn flag(b: bool) -> JsonModel {
    JsonModel::Bool(b)
}

pub open spec fn text(s: Seq<char>) -> JsonModel {
    JsonModel::Text(s)
}

// ---- identity ----------------------------------------------------------------------------------

pub open spec fn info_view(g: GatewayFacts) -> JsonModel {
    JsonModel::Object(
        no_fields().insert("shard_count"@, whole(g.node.shard_count as u64)).insert(
            "epoch"@,
            maybe(g.node.epoch),
        ).insert("version"@, text(version())).insert("forwarding"@, flag(g.forwarding)),
    )
}

/// `GET /v1/info`.
pub fn info_json(g: &GatewayFacts) -> (r: serde_json::Value)
    ensures
        json_of(r) == info_view(*g),
{
    Fields::new().with_whole("shard_count", g.node.shard_count as u64).with_maybe(
        "epoch",
        g.node.epoch,
    ).with_text("version", "0.1.0").with_flag("forwarding", g.forwarding).done()
}

pub open spec fn meta_view(g: GatewayFacts) -> JsonModel {
    JsonModel::Object(
        no_fields().insert("api_version"@, whole(1)).insert("version"@, text(version())).insert(
            "node"@,
            maybe(node_id(g.cluster)),
        ).insert("clustered"@, flag(g.cluster is Some)).insert(
            "shard_count"@,
            whole(g.node.shard_count as u64),
        ).insert("epoch"@, maybe(g.node.epoch)).insert("forwarding"@, flag(g.forwarding)).insert(
            "capabilities"@,
            JsonModel::Object(
                no_fields().insert("health"@, flag(true)).insert("topology"@, flag(true)).insert(
                    "shards"@,
                    flag(true),
                ).insert("metrics"@, flag(true)).insert("dynamic_scaling"@, flag(g.catalog)),
            ),
        ),
    )
}

/// `GET /v1/meta`: what this node is and can do, behind a version of its own.
pub fn meta_json(g: &GatewayFacts) -> (r: serde_json::Value)
    ensures
        json_of(r) == meta_view(*g),
{
    let capabilities = Fields::new().with_flag("health", true).with_flag(
        "topology",
        true,
    ).with_flag("shards", true).with_flag("metrics", true).with_flag(
        "dynamic_scaling",
        g.catalog,
    ).done();
    Fields::new().with_whole("api_version", 1).with_text("version", "0.1.0").with_maybe(
        "node",
        id_of(&g.cluster),
    ).with_flag("clustered", g.cluster.is_some()).with_whole(
        "shard_count",
        g.node.shard_count as u64,
    ).with_maybe("epoch", g.node.epoch).with_flag("forwarding", g.forwarding).with(
        "capabilities",
        capabilities,
    ).done()
}

// ---- health ------------------------------------------------------------------------------------

/// The voters of a cluster: a node's peers and itself.
pub open spec fn voters(c: ClusterFacts) -> u64 {
    (c.peers@.len() as u64).wrapping_add(1)
}

/// How many of them decide.
pub open spec fn quorum(c: ClusterFacts) -> u64 {
    (voters(c) / 2 + 1) as u64
}

/// How many members a leader can reach, itself among them. A follower cannot tell, since only the
/// leader sends heartbeats.
pub open spec fn reachable(c: ClusterFacts) -> Option<u64> {
    if c.is_leader {
        Some((c.live@.len() as u64).wrapping_add(1))
    } else {
        None
    }
}

/// Whether there is a leader and, as far as this node can tell, a quorum.
pub open spec fn consensus_holds(c: ClusterFacts) -> bool {
    c.leader is Some && (reachable(c) matches Some(n) ==> n >= quorum(c))
}

/// Whether every shard has an owner, and no handover failed.
pub open spec fn placement_holds(c: ClusterFacts, shard_count: u32) -> bool {
    c.assignments@.len() == shard_count && c.stats.handover_failed == 0
}

pub open spec fn health_status(c: ClusterFacts, shard_count: u32) -> Seq<char> {
    if consensus_holds(c) && placement_holds(c, shard_count) {
        "healthy"@
    } else if c.leader is None {
        "unavailable"@
    } else {
        "degraded"@
    }
}

pub open spec fn ok_or_degraded(ok: bool) -> JsonModel {
    if ok {
        text("ok"@)
    } else {
        text("degraded"@)
    }
}

pub open spec fn storage_view() -> JsonModel {
    JsonModel::Object(no_fields().insert("status"@, text("ok"@)))
}

fn storage_json() -> (r: serde_json::Value)
    ensures
        json_of(r) == storage_view(),
{
    Fields::new().with_text("status", "ok").done()
}

pub open spec fn standalone_health(shard_count: u32, now_ms: u64) -> JsonModel {
    JsonModel::Object(
        no_fields().insert("status"@, text("healthy"@)).insert(
            "observed_at_ms"@,
            whole(now_ms),
        ).insert("node"@, JsonModel::Null).insert(
            "checks"@,
            JsonModel::Object(
                no_fields().insert("storage"@, storage_view()).insert(
                    "consensus"@,
                    JsonModel::Object(
                        no_fields().insert("status"@, text("not_applicable"@)).insert(
                            "reason"@,
                            text("standalone"@),
                        ),
                    ),
                ).insert(
                    "placement"@,
                    JsonModel::Object(
                        no_fields().insert("status"@, text("ok"@)).insert(
                            "assigned"@,
                            whole(shard_count as u64),
                        ).insert("expected"@, whole(shard_count as u64)),
                    ),
                ),
            ),
        ),
    )
}

pub open spec fn member_health(c: ClusterFacts, shard_count: u32, now_ms: u64) -> JsonModel {
    JsonModel::Object(
        no_fields().insert("status"@, text(health_status(c, shard_count))).insert(
            "observed_at_ms"@,
            whole(now_ms),
        ).insert("node"@, whole(c.id)).insert("term"@, whole(c.term)).insert(
            "role"@,
            text(lower(c.role@)),
        ).insert("leader"@, maybe(c.leader)).insert(
            "checks"@,
            JsonModel::Object(
                no_fields().insert("storage"@, storage_view()).insert(
                    "consensus"@,
                    JsonModel::Object(
                        no_fields().insert("status"@, ok_or_degraded(consensus_holds(c))).insert(
                            "voters"@,
                            whole(voters(c)),
                        ).insert("quorum"@, whole(quorum(c))).insert(
                            "reachable"@,
                            maybe(reachable(c)),
                        ),
                    ),
                ).insert(
                    "placement"@,
                    JsonModel::Object(
                        no_fields().insert(
                            "status"@,
                            ok_or_degraded(placement_holds(c, shard_count)),
                        ).insert("assigned"@, whole(c.assignments@.len() as u64)).insert(
                            "expected"@,
                            whole(shard_count as u64),
                        ).insert("handover_failures"@, whole(c.stats.handover_failed)),
                    ),
                ),
            ),
        ),
    )
}

pub open spec fn health_view(g: GatewayFacts, now_ms: u64) -> JsonModel {
    match g.cluster {
        None => standalone_health(g.node.shard_count, now_ms),
        Some(c) => member_health(c, g.node.shard_count, now_ms),
    }
}

/// `GET /v1/health`: the health of this node, as far as it can be observed from here.
pub fn health_json(g: &GatewayFacts, now_ms: u64) -> (r: serde_json::Value)
    ensures
        json_of(r) == health_view(*g, now_ms),
{
    let expected: u32 = g.node.shard_count;
    let c = match &g.cluster {
        Some(c) => c,
        None => {
            let consensus = Fields::new().with_text("status", "not_applicable").with_text(
                "reason",
                "standalone",
            ).done();
            let placement = Fields::new().with_text("status", "ok").with_whole(
                "assigned",
                expected as u64,
            ).with_whole("expected", expected as u64).done();
            let checks = Fields::new().with("storage", storage_json()).with(
                "consensus",
                consensus,
            ).with("placement", placement).done();
            return Fields::new().with_text("status", "healthy").with_whole(
                "observed_at_ms",
                now_ms,
            ).with("node", from_nothing()).with("checks", checks).done();
        },
    };
    let voting: u64 = (c.peers.len() as u64).wrapping_add(1);
    let needed: u64 = voting / 2 + 1;
    let reached: Option<u64> = if c.is_leader {
        Some((c.live.len() as u64).wrapping_add(1))
    } else {
        None
    };
    let enough = match reached {
        Some(n) => n >= needed,
        None => true,
    };
    let consensus_ok = c.leader.is_some() && enough;
    let assigned: usize = c.assignments.len();
    let placement_ok = assigned == expected as usize && c.stats.handover_failed == 0;
    let status = if consensus_ok && placement_ok {
        "healthy"
    } else if c.leader.is_none() {
        "unavailable"
    } else {
        "degraded"
    };
    let consensus = Fields::new().with_text(
        "status",
        if consensus_ok {
            "ok"
        } else {
            "degraded"
        },
    ).with_whole("voters", voting).with_whole("quorum", needed).with_maybe(
        "reachable",
        reached,
    ).done();
    let placement = Fields::new().with_text(
        "status",
        if placement_ok {
            "ok"
        } else {
            "degraded"
        },
    ).with_whole("assigned", assigned as u64).with_whole("expected", expected as u64).with_whole(
        "handover_failures",
        c.stats.handover_failed,
    ).done();
    let checks = Fields::new().with("storage", storage_json()).with("consensus", consensus).with(
        "placement",
        placement,
    ).done();
    let role = to_lower(c.role.as_str());
    Fields::new().with_text("status", status).with_whole("observed_at_ms", now_ms).with_whole(
        "node",
        c.id,
    ).with_whole("term", c.term).with_text("role", role.as_str()).with_maybe(
        "leader",
        c.leader,
    ).with("checks", checks).done()
}

// ---- topology ----------------------------------------------------------------------------------

pub open spec fn listed(v: Seq<u64>, n: u64) -> bool {
    v.contains(n)
}

fn lists(v: &Vec<u64>, n: u64) -> (r: bool)
    ensures
        r == listed(v@, n),
{
    let mut i: usize = 0;
    while i < v.len()
        invariant
            i <= v@.len(),
            forall|k: int| 0 <= k < i ==> v@[k] != n,
        decreases v@.len() - i,
    {
        if v[i] == n {
            return true;
        }
        i = i + 1;
    }
    false
}

/// How a peer is seen: only the leader observes its peers.
pub open spec fn peer_status(c: ClusterFacts, node: u64) -> Seq<char> {
    if !c.is_leader {
        "unknown"@
    } else if listed(c.live@, node) {
        "up"@
    } else {
        "suspected"@
    }
}

pub open spec fn peer_view(c: ClusterFacts, peer: (u64, String)) -> JsonModel {
    JsonModel::Object(
        no_fields().insert("node"@, whole(peer.0)).insert("address"@, text(peer.1@)).insert(
            "this_node"@,
            flag(false),
        ).insert("status"@, text(peer_status(c, peer.0))).insert(
            "cordoned"@,
            flag(listed(c.cordoned@, peer.0)),
        ),
    )
}

pub open spec fn self_view(c: ClusterFacts) -> JsonModel {
    JsonModel::Object(
        no_fields().insert("node"@, whole(c.id)).insert("address"@, JsonModel::Null).insert(
            "this_node"@,
            flag(true),
        ).insert("status"@, text("up"@)).insert("cordoned"@, flag(c.is_cordoned)),
    )
}

/// The members of a cluster: this node first, then its peers.
pub open spec fn members_view(c: ClusterFacts) -> Seq<JsonModel> {
    seq![self_view(c)] + c.peers@.map_values(|p: (u64, String)| peer_view(c, p))
}

fn members_json(c: &ClusterFacts) -> (r: serde_json::Value)
    ensures
        json_of(r) == JsonModel::List(members_view(*c)),
{
    let ghost model = members_view(*c);
    let mut items: Vec<serde_json::Value> = Vec::new();
    items.push(
        Fields::new().with_whole("node", c.id).with("address", from_nothing()).with_flag(
            "this_node",
            true,
        ).with_text("status", "up").with_flag("cordoned", c.is_cordoned).done(),
    );
    let mut i: usize = 0;
    assert(json_list(items@) =~= model.take(1));
    while i < c.peers.len()
        invariant
            i <= c.peers@.len(),
            model == members_view(*c),
            json_list(items@) =~= model.take(i + 1),
        decreases c.peers@.len() - i,
    {
        let ghost before = items@;
        let node: u64 = c.peers[i].0;
        let status = if !c.is_leader {
            "unknown"
        } else if lists(&c.live, node) {
            "up"
        } else {
            "suspected"
        };
        items.push(
            Fields::new().with_whole("node", node).with_text(
                "address",
                c.peers[i].1.as_str(),
            ).with_flag("this_node", false).with_text("status", status).with_flag(
                "cordoned",
                lists(&c.cordoned, node),
            ).done(),
        );
        proof {
            assert(model[i + 1] == peer_view(*c, c.peers@[i as int]));
            assert(json_list(items@) =~= json_list(before).push(model[i + 1]));
        }
        i = i + 1;
    }
    assert(model.take(c.peers@.len() as int + 1) =~= model);
    from_items(items)
}

pub open spec fn elections_view(s: ElectionFacts) -> JsonModel {
    JsonModel::Object(
        no_fields().insert("elections_started"@, whole(s.elections_started)).insert(
            "became_leader"@,
            whole(s.became_leader),
        ).insert("stepped_down"@, whole(s.stepped_down)).insert(
            "heartbeats_sent"@,
            whole(s.heartbeats_sent),
        ).insert("peer_unreachable"@, whole(s.peer_unreachable)).insert(
            "votes_granted"@,
            whole(s.votes_granted),
        ).insert("votes_refused"@, whole(s.votes_refused)).insert(
            "handover_failed"@,
            whole(s.handover_failed),
        ).insert("placement_changes"@, whole(s.placement_changes)).insert(
            "last_change_ms"@,
            whole(s.last_change_ms),
        ),
    )
}

fn elections_json(s: &ElectionFacts) -> (r: serde_json::Value)
    ensures
        json_of(r) == elections_view(*s),
{
    Fields::new().with_whole("elections_started", s.elections_started).with_whole(
        "became_leader",
        s.became_leader,
    ).with_whole("stepped_down", s.stepped_down).with_whole(
        "heartbeats_sent",
        s.heartbeats_sent,
    ).with_whole("peer_unreachable", s.peer_unreachable).with_whole(
        "votes_granted",
        s.votes_granted,
    ).with_whole("votes_refused", s.votes_refused).with_whole(
        "handover_failed",
        s.handover_failed,
    ).with_whole("placement_changes", s.placement_changes).with_whole(
        "last_change_ms",
        s.last_change_ms,
    ).done()
}

/// The fields of the cluster view.
pub open spec fn cluster_fields(g: GatewayFacts) -> Map<Seq<char>, JsonModel> {
    match g.cluster {
        None => no_fields().insert("clustered"@, flag(false)).insert(
            "shard_count"@,
            whole(g.node.shard_count as u64),
        ),
        Some(c) => no_fields().insert("clustered"@, flag(true)).insert("node"@, whole(c.id)).insert(
            "term"@,
            whole(c.term),
        ).insert("role"@, text(lower(c.role@))).insert("leader"@, maybe(c.leader)).insert(
            "voters"@,
            whole(voters(c)),
        ).insert("members"@, JsonModel::List(members_view(c))).insert(
            "led_shards"@,
            json_shards(c.led_shards@),
        ).insert("placement"@, placement_report(c)).insert("stats"@, elections_view(c.stats)),
    }
}

fn cluster_object(g: &GatewayFacts) -> (r: Fields)
    ensures
        r@ == cluster_fields(*g),
{
    match &g.cluster {
        None => Fields::new().with_flag("clustered", false).with_whole(
            "shard_count",
            g.node.shard_count as u64,
        ),
        Some(c) => {
            let role = to_lower(c.role.as_str());
            Fields::new().with_flag("clustered", true).with_whole("node", c.id).with_whole(
                "term",
                c.term,
            ).with_text("role", role.as_str()).with_maybe("leader", c.leader).with_whole(
                "voters",
                (c.peers.len() as u64).wrapping_add(1),
            ).with("members", members_json(c)).with("led_shards", shards_to_json(&c.led_shards)).with(
                "placement",
                placement_json(c),
            ).with("stats", elections_json(&c.stats))
        },
    }
}

/// `GET /v1/cluster`.
pub fn cluster_json(g: &GatewayFacts) -> (r: serde_json::Value)
    ensures
        json_of(r) == JsonModel::Object(cluster_fields(*g)),
{
    cluster_object(g).done()
}

/// `GET /v1/topology`: the cluster view, with who observed it and when.
pub fn topology_json(g: &GatewayFacts, now_ms: u64) -> (r: serde_json::Value)
    ensures
        json_of(r) == JsonModel::Object(
            cluster_fields(*g).insert("api_version"@, whole(1)).insert(
                "observed_at_ms"@,
                whole(now_ms),
            ).insert("observer"@, maybe(node_id(g.cluster))),
        ),
{
    cluster_object(g).with_whole("api_version", 1).with_whole("observed_at_ms", now_ms).with_maybe(
        "observer",
        id_of(&g.cluster),
    ).done()
}

// ---- shards ------------------------------------------------------------------------------------

/// Who owns a shard, from a place in the list on.
pub open spec fn owner_from(assignments: Seq<(u32, u64)>, shard: u32, i: int) -> Option<u64>
    decreases assignments.len() - i,
{
    if i < 0 || i >= assignments.len() {
        None
    } else if assignments[i].0 == shard {
        Some(assignments[i].1)
    } else {
        owner_from(assignments, shard, i + 1)
    }
}

pub open spec fn owner_in(cluster: Option<ClusterFacts>, shard: u32) -> Option<u64> {
    match cluster {
        Some(c) => owner_from(c.assignments@, shard, 0),
        None => None,
    }
}

fn find_owner(cluster: &Option<ClusterFacts>, shard: u32) -> (r: Option<u64>)
    ensures
        r == owner_in(*cluster, shard),
{
    let c = match cluster {
        Some(c) => c,
        None => {
            return None;
        },
    };
    let mut i: usize = 0;
    while i < c.assignments.len()
        invariant
            i <= c.assignments@.len(),
            owner_in(*cluster, shard) == owner_from(c.assignments@, shard, 0),
            owner_from(c.assignments@, shard, 0) == owner_from(c.assignments@, shard, i as int),
        decreases c.assignments@.len() - i,
    {
        if c.assignments[i].0 == shard {
            return Some(c.assignments[i].1);
        }
        i = i + 1;
    }
    None
}

/// Whether this node writes a shard: it stands alone, or owns it.
pub open spec fn is_primary(cluster: Option<ClusterFacts>, shard: u32) -> bool {
    match cluster {
        None => true,
        Some(c) => owner_in(cluster, shard) == Some(c.id),
    }
}

fn primary(cluster: &Option<ClusterFacts>, owner: Option<u64>, shard: u32) -> (r: bool)
    requires
        owner == owner_in(*cluster, shard),
    ensures
        r == is_primary(*cluster, shard),
{
    match cluster {
        None => true,
        Some(c) => match owner {
            Some(n) => n == c.id,
            None => false,
        },
    }
}

/// Where this node's copy of a shard stands.
pub open spec fn copy_position(follower: Option<Follower>, shard: u32) -> Position {
    match follower {
        Some(f) => position_in(f@, ShardId(shard)),
        None => Position { epoch: 0, applied_lsn: 0 },
    }
}

/// What this node tells of one shard, `lsn` being how far it has written it itself.
pub open spec fn shard_view(
    g: GatewayFacts,
    follower: Option<Follower>,
    shard: u32,
    lsn: u64,
) -> JsonModel {
    let mine = is_primary(g.cluster, shard);
    let copy = copy_position(follower, shard);
    JsonModel::Object(
        no_fields().insert("id"@, whole(shard as u64)).insert(
            "owner"@,
            maybe(owner_in(g.cluster, shard)),
        ).insert(
            "local_role"@,
            if mine {
                text("primary"@)
            } else if follower is Some {
                text("replica"@)
            } else {
                text("unassigned"@)
            },
        ).insert(
            "epoch"@,
            if mine {
                whole(
                    match g.node.epoch {
                        Some(e) => e,
                        None => 0,
                    },
                )
            } else {
                whole(copy.epoch)
            },
        ).insert(
            "lsn"@,
            if mine {
                whole(lsn)
            } else {
                whole(copy.applied_lsn)
            },
        ),
    )
}

pub open spec fn shard_views(
    g: GatewayFacts,
    follower: Option<Follower>,
    lsns: Seq<u64>,
) -> Seq<JsonModel> {
    Seq::new(lsns.len(), |i: int| shard_view(g, follower, i as u32, lsns[i]))
}

/// `GET /v1/shards`: every shard as this node sees it. `lsns` says how far it has written each.
pub fn shards_json(
    g: &GatewayFacts,
    follower: &Option<Follower>,
    lsns: &Vec<u64>,
    now_ms: u64,
) -> (r: serde_json::Value)
    requires
        lsns@.len() == g.node.shard_count,
        *follower matches Some(f) ==> f.wf(),
    ensures
        json_of(r) == JsonModel::Object(
            no_fields().insert("api_version"@, whole(1)).insert(
                "observed_at_ms"@,
                whole(now_ms),
            ).insert("node"@, maybe(node_id(g.cluster))).insert(
                "shards"@,
                JsonModel::List(shard_views(*g, *follower, lsns@)),
            ),
        ),
{
    let ghost model = shard_views(*g, *follower, lsns@);
    let mut items: Vec<serde_json::Value> = Vec::new();
    let mut i: u32 = 0;
    assert(json_list(items@) =~= model.take(0));
    while i < g.node.shard_count
        invariant
            i <= g.node.shard_count,
            lsns@.len() == g.node.shard_count,
            *follower matches Some(f) ==> f.wf(),
            model == shard_views(*g, *follower, lsns@),
            json_list(items@) =~= model.take(i as int),
        decreases g.node.shard_count - i,
    {
        let ghost before = items@;
        let owner = find_owner(&g.cluster, i);
        let mine = primary(&g.cluster, owner, i);
        let copy = match follower {
            Some(f) => f.position(ShardId(i)),
            None => Position { epoch: 0, applied_lsn: 0 },
        };
        let role = if mine {
            "primary"
        } else if follower.is_some() {
            "replica"
        } else {
            "unassigned"
        };
        let epoch: u64 = if mine {
            match g.node.epoch {
                Some(e) => e,
                None => 0,
            }
        } else {
            copy.epoch
        };
        let lsn: u64 = if mine {
            lsns[i as usize]
        } else {
            copy.applied_lsn
        };
        items.push(
            Fields::new().with_whole("id", i as u64).with_maybe("owner", owner).with_text(
                "local_role",
                role,
            ).with_whole("epoch", epoch).with_whole("lsn", lsn).done(),
        );
        proof {
            assert(model[i as int] == shard_view(*g, *follower, i, lsns@[i as int]));
            assert(json_list(items@) =~= json_list(before).push(model[i as int]));
        }
        i = i + 1;
    }
    assert(model.take(lsns@.len() as int) =~= model);
    Fields::new().with_whole("api_version", 1).with_whole("observed_at_ms", now_ms).with_maybe(
        "node",
        id_of(&g.cluster),
    ).with("shards", from_items(items)).done()
}

// ---- replication -------------------------------------------------------------------------------

/// How far a primary is ahead of what a quorum holds.
pub open spec fn lag(lsn: u64, quorum: u64) -> u64 {
    if lsn >= quorum {
        (lsn - quorum) as u64
    } else {
        0
    }
}

pub open spec fn primary_view(shard: u32, lsn: u64, quorum: Option<u64>) -> JsonModel {
    JsonModel::Object(
        no_fields().insert("id"@, whole(shard as u64)).insert("role"@, text("primary"@)).insert(
            "primary_lsn"@,
            whole(lsn),
        ).insert("quorum_lsn"@, maybe(quorum)).insert(
            "lag"@,
            match quorum {
                Some(q) => whole(lag(lsn, q)),
                None => JsonModel::Null,
            },
        ),
    )
}

pub open spec fn replica_view(shard: u32, pos: Position) -> JsonModel {
    JsonModel::Object(
        no_fields().insert("id"@, whole(shard as u64)).insert("role"@, text("replica"@)).insert(
            "epoch"@,
            whole(pos.epoch),
        ).insert("applied_lsn"@, whole(pos.applied_lsn)),
    )
}

/// Whether this is how far a quorum holds a shard; nothing is known of that without a tracker.
pub open spec fn quorum_known(acks: Option<AckTracker>, shard: u32, q: Option<u64>) -> bool {
    match acks {
        None => q is None,
        Some(a) => q is Some && is_quorum_lsn(
            a@.reports,
            ShardId(shard),
            (a@.quorum() - 1) as nat,
            q->0,
        ),
    }
}

/// Whether a shard is told of in the view of replication.
pub open spec fn replicates(g: GatewayFacts, follower: Option<Follower>, shard: u32) -> bool {
    is_primary(g.cluster, shard) || follower is Some
}

/// The shards below `n` that are told of, in order.
pub open spec fn told(g: GatewayFacts, follower: Option<Follower>, n: nat) -> Seq<u32>
    decreases n,
{
    if n == 0 {
        Seq::empty()
    } else {
        let before = told(g, follower, (n - 1) as nat);
        if replicates(g, follower, (n - 1) as u32) {
            before.push((n - 1) as u32)
        } else {
            before
        }
    }
}

/// Whether this is what is told of a shard.
pub open spec fn replication_shows(
    g: GatewayFacts,
    acks: Option<AckTracker>,
    follower: Option<Follower>,
    shard: u32,
    lsn: u64,
    j: JsonModel,
) -> bool {
    if is_primary(g.cluster, shard) {
        exists|q: Option<u64>| #[trigger]
            quorum_known(acks, shard, q) && j == primary_view(shard, lsn, q)
    } else {
        j == replica_view(shard, copy_position(follower, shard))
    }
}

pub open spec fn acks_view(acks: Option<AckTracker>) -> JsonModel {
    match acks {
        None => JsonModel::Null,
        Some(a) => JsonModel::Object(
            no_fields().insert("confirmed"@, whole(a@.confirmed)).insert(
                "timed_out"@,
                whole(a@.timed_out),
            ).insert("waited_us"@, whole(a@.waited_us)),
        ),
    }
}

/// Whether these are the shards of the view of replication.
pub open spec fn replication_list(
    g: GatewayFacts,
    acks: Option<AckTracker>,
    follower: Option<Follower>,
    lsns: Seq<u64>,
    n: nat,
    items: Seq<JsonModel>,
) -> bool {
    let shards = told(g, follower, n);
    items.len() == shards.len() && forall|k: int|
        0 <= k < items.len() ==> replication_shows(
            g,
            acks,
            follower,
            shards[k],
            lsns[shards[k] as int],
            #[trigger] items[k],
        )
}

/// Whether this is the view of replication.
pub open spec fn replication_view(
    g: GatewayFacts,
    acks: Option<AckTracker>,
    follower: Option<Follower>,
    lsns: Seq<u64>,
    now_ms: u64,
    j: JsonModel,
) -> bool {
    exists|items: Seq<JsonModel>| #[trigger]
        replication_list(g, acks, follower, lsns, lsns.len(), items) && j == JsonModel::Object(
            no_fields().insert("api_version"@, whole(1)).insert(
                "observed_at_ms"@,
                whole(now_ms),
            ).insert("node"@, maybe(node_id(g.cluster))).insert(
                "replicated"@,
                flag(acks is Some || follower is Some),
            ).insert("acks"@, acks_view(acks)).insert("shards"@, JsonModel::List(items)),
        )
}

fn acks_json(acks: &Option<AckTracker>) -> (r: serde_json::Value)
    ensures
        json_of(r) == acks_view(*acks),
{
    match acks {
        None => from_nothing(),
        Some(a) => {
            let s = a.stats();
            Fields::new().with_whole("confirmed", s.confirmed).with_whole(
                "timed_out",
                s.timed_out,
            ).with_whole("waited_us", s.waited_us).done()
        },
    }
}

fn primary_json(shard: u32, lsn: u64, acks: &Option<AckTracker>) -> (r: serde_json::Value)
    requires
        *acks matches Some(a) ==> a.wf(),
    ensures
        exists|q: Option<u64>| #[trigger]
            quorum_known(*acks, shard, q) && json_of(r) == primary_view(shard, lsn, q),
{
    let q: Option<u64> = match acks {
        Some(a) => Some(a.quorum_lsn(ShardId(shard))),
        None => None,
    };
    assert(quorum_known(*acks, shard, q));
    let behind: Option<u64> = match q {
        Some(n) => Some(
            if lsn >= n {
                lsn - n
            } else {
                0
            },
        ),
        None => None,
    };
    Fields::new().with_whole("id", shard as u64).with_text("role", "primary").with_whole(
        "primary_lsn",
        lsn,
    ).with_maybe("quorum_lsn", q).with_maybe("lag", behind).done()
}

/// `GET /v1/replication`: how far each shard is written here, how much of that a quorum holds, and
/// how far the copies are.
#[verifier::loop_isolation(false)]
pub fn replication_json(
    g: &GatewayFacts,
    acks: &Option<AckTracker>,
    follower: &Option<Follower>,
    lsns: &Vec<u64>,
    now_ms: u64,
) -> (r: serde_json::Value)
    requires
        lsns@.len() == g.node.shard_count,
        *acks matches Some(a) ==> a.wf(),
        *follower matches Some(f) ==> f.wf(),
    ensures
        replication_view(*g, *acks, *follower, lsns@, now_ms, json_of(r)),
{
    let mut items: Vec<serde_json::Value> = Vec::new();
    let mut i: u32 = 0;
    while i < g.node.shard_count
        invariant
            i <= g.node.shard_count,
            replication_list(*g, *acks, *follower, lsns@, i as nat, json_list(items@)),
        decreases g.node.shard_count - i,
    {
        let ghost before = json_list(items@);
        let owner = find_owner(&g.cluster, i);
        if primary(&g.cluster, owner, i) {
            let lsn: u64 = lsns[i as usize];
            let item = primary_json(i, lsn, acks);
            assert(replication_shows(*g, *acks, *follower, i, lsn, json_of(item)));
            let ghost shown = json_of(item);
            items.push(item);
            assert(json_list(items@) =~= before.push(shown));
        } else if let Some(f) = follower {
            let pos = f.position(ShardId(i));
            let item = Fields::new().with_whole("id", i as u64).with_text(
                "role",
                "replica",
            ).with_whole("epoch", pos.epoch).with_whole("applied_lsn", pos.applied_lsn).done();
            assert(replication_shows(
                *g,
                *acks,
                *follower,
                i,
                lsns@[i as int],
                json_of(item),
            ));
            let ghost shown = json_of(item);
            items.push(item);
            assert(json_list(items@) =~= before.push(shown));
        }
        i = i + 1;
    }
    let ghost list = json_list(items@);
    assert(replication_list(*g, *acks, *follower, lsns@, lsns@.len(), list));
    Fields::new().with_whole("api_version", 1).with_whole("observed_at_ms", now_ms).with_maybe(
        "node",
        id_of(&g.cluster),
    ).with_flag("replicated", acks.is_some() || follower.is_some()).with(
        "acks",
        acks_json(acks),
    ).with("shards", from_items(items)).done()
}

// ---- configuration -----------------------------------------------------------------------------

pub open spec fn setting_view(
    key: Seq<char>,
    value: JsonModel,
    mutable: bool,
    note: Seq<char>,
) -> JsonModel {
    JsonModel::Object(
        no_fields().insert("key"@, text(key)).insert("value"@, value).insert(
            "mutable"@,
            flag(mutable),
        ).insert("note"@, text(note)),
    )
}

fn setting(key: &str, value: serde_json::Value, mutable: bool, note: &str) -> (r: serde_json::Value)
    ensures
        json_of(r) == setting_view(key@, json_of(value), mutable, note@),
{
    Fields::new().with_text("key", key).with("value", value).with_flag("mutable", mutable).with_text(
        "note",
        note,
    ).done()
}

/// The peers of a node, as they are configured.
pub open spec fn peer_names(cluster: Option<ClusterFacts>) -> Seq<Seq<char>> {
    match cluster {
        Some(c) => c.peers@.map_values(
            |p: (u64, String)| decimal(p.0 as nat) + seq!['='] + p.1@,
        ),
        None => Seq::empty(),
    }
}

fn name_peers(cluster: &Option<ClusterFacts>) -> (r: Vec<String>)
    ensures
        views(r@) == peer_names(*cluster),
{
    let mut out: Vec<String> = Vec::new();
    let ghost model = peer_names(*cluster);
    assert(views(out@) =~= model.take(0));
    match cluster {
        Some(c) => {
            let mut i: usize = 0;
            while i < c.peers.len()
                invariant
                    i <= c.peers@.len(),
                    model == peer_names(Some(*c)),
                    views(out@) =~= model.take(i as int),
                decreases c.peers@.len() - i,
            {
                let ghost before = out@;
                let mut name = String::new();
                push_decimal(&mut name, c.peers[i].0);
                name.push('=');
                name.append(c.peers[i].1.as_str());
                proof {
                    assert(name@ =~= model[i as int]);
                }
                out.push(name);
                assert(views(out@) =~= views(before).push(model[i as int]));
                i = i + 1;
            }
            assert(model.take(c.peers@.len() as int) =~= model);
        },
        None => {
            assert(model.take(0) =~= model);
        },
    }
    out
}

pub open spec fn settings_view(g: GatewayFacts) -> Seq<JsonModel> {
    seq![
        setting_view(
            "shard_count"@,
            whole(g.node.shard_count as u64),
            false,
            "fixed at creation; changing it would re-route every key"@,
        ),
        setting_view(
            "clustered"@,
            flag(g.cluster is Some),
            false,
            "set at startup via --node-id"@,
        ),
        setting_view(
            "peers"@,
            json_texts(peer_names(g.cluster)),
            false,
            "set at startup via --peers"@,
        ),
        setting_view(
            "capture"@,
            flag(g.capture),
            false,
            "set at startup via --s3-ready or --s3-bucket"@,
        ),
        setting_view(
            "s3_archival"@,
            flag(g.archiving),
            true,
            "change with POST /v1/s3/config"@,
        ),
        setting_view("auth"@, flag(g.secured), true, "manage with GET/POST/DELETE /v1/users"@),
        setting_view(
            "http_workers"@,
            whole(g.workers),
            false,
            "set at startup via the gateway config"@,
        ),
        setting_view(
            "http_insecure"@,
            flag(g.insecure),
            false,
            "set at startup via --http-insecure"@,
        ),
    ]
}

/// `GET /v1/config`: every setting, with whether and how it can change at run time.
pub fn config_json(g: &GatewayFacts) -> (r: serde_json::Value)
    ensures
        json_of(r) == JsonModel::Object(
            no_fields().insert("api_version"@, whole(1)).insert(
                "node"@,
                maybe(node_id(g.cluster)),
            ).insert("settings"@, JsonModel::List(settings_view(*g))),
        ),
{
    let peers = name_peers(&g.cluster);
    let mut items: Vec<serde_json::Value> = Vec::new();
    items.push(
        setting(
            "shard_count",
            super::json::from_whole(g.node.shard_count as u64),
            false,
            "fixed at creation; changing it would re-route every key",
        ),
    );
    items.push(
        setting(
            "clustered",
            super::json::from_flag(g.cluster.is_some()),
            false,
            "set at startup via --node-id",
        ),
    );
    items.push(
        setting("peers", texts_to_json(&peers), false, "set at startup via --peers"),
    );
    items.push(
        setting(
            "capture",
            super::json::from_flag(g.capture),
            false,
            "set at startup via --s3-ready or --s3-bucket",
        ),
    );
    items.push(
        setting(
            "s3_archival",
            super::json::from_flag(g.archiving),
            true,
            "change with POST /v1/s3/config",
        ),
    );
    items.push(
        setting(
            "auth",
            super::json::from_flag(g.secured),
            true,
            "manage with GET/POST/DELETE /v1/users",
        ),
    );
    items.push(
        setting(
            "http_workers",
            super::json::from_whole(g.workers),
            false,
            "set at startup via the gateway config",
        ),
    );
    items.push(
        setting(
            "http_insecure",
            super::json::from_flag(g.insecure),
            false,
            "set at startup via --http-insecure",
        ),
    );
    assert(json_list(items@) =~= settings_view(*g));
    Fields::new().with_whole("api_version", 1).with_maybe("node", id_of(&g.cluster)).with(
        "settings",
        from_items(items),
    ).done()
}

// ---- counters ----------------------------------------------------------------------------------

#[derive(Clone, Copy, Debug)]
pub struct HttpStats {
    pub requests: u64,
    pub errors: u64,
    pub auth_failures: u64,
    pub authz_refused: u64,
}

#[derive(Clone, Copy, Debug)]
pub struct CheckpointFacts {
    pub passive: u64,
    pub truncated: u64,
    pub stalls: u64,
    pub failures: u64,
    pub wal_bytes: u64,
}

#[derive(Clone, Copy, Debug)]
pub struct ConversionFacts {
    pub retries: u64,
    pub contended_opens: u64,
    pub failed_opens: u64,
    pub max_wait_ms: u64,
}

pub open spec fn writer_view(w: WriterFacts, mean: JsonModel) -> JsonModel {
    JsonModel::Object(
        no_fields().insert("batches"@, whole(w.batches)).insert(
            "requests"@,
            whole(w.requests),
        ).insert("max_batch"@, whole(w.max_batch)).insert("mean_batch"@, mean).insert(
            "open_now"@,
            whole(w.open_now),
        ).insert("shard_opens"@, whole(w.shard_opens)).insert(
            "shard_evictions"@,
            whole(w.shard_evictions),
        ).insert("threads"@, whole(w.threads)),
    )
}

pub open spec fn http_view(h: HttpStats) -> JsonModel {
    JsonModel::Object(
        no_fields().insert("requests"@, whole(h.requests)).insert(
            "errors"@,
            whole(h.errors),
        ).insert("auth_failures"@, whole(h.auth_failures)).insert(
            "authz_refused"@,
            whole(h.authz_refused),
        ),
    )
}

pub open spec fn checkpoint_view(c: CheckpointFacts) -> JsonModel {
    JsonModel::Object(
        no_fields().insert("passive"@, whole(c.passive)).insert(
            "truncated"@,
            whole(c.truncated),
        ).insert("stalls"@, whole(c.stalls)).insert("failures"@, whole(c.failures)).insert(
            "wal_bytes"@,
            whole(c.wal_bytes),
        ),
    )
}

pub open spec fn conversion_view(c: ConversionFacts) -> JsonModel {
    JsonModel::Object(
        no_fields().insert("retries"@, whole(c.retries)).insert(
            "contended_opens"@,
            whole(c.contended_opens),
        ).insert("failed_opens"@, whole(c.failed_opens)).insert(
            "max_wait_ms"@,
            whole(c.max_wait_ms),
        ),
    )
}

/// The counters that tell how often a cluster is reshuffled.
pub open spec fn churn_view(cluster: Option<ClusterFacts>) -> JsonModel {
    match cluster {
        None => JsonModel::Null,
        Some(c) => JsonModel::Object(
            no_fields().insert("elections_started"@, whole(c.stats.elections_started)).insert(
                "stepped_down"@,
                whole(c.stats.stepped_down),
            ).insert("placement_changes"@, whole(c.stats.placement_changes)).insert(
                "handover_failed"@,
                whole(c.stats.handover_failed),
            ).insert("last_change_ms"@, whole(c.stats.last_change_ms)),
        ),
    }
}

/// `GET /v1/stats`: every counter of the node. `mean` is the mean size of a batch, as JSON.
pub fn stats_json(
    w: &WriterFacts,
    mean: serde_json::Value,
    r: &ReaderFacts,
    h: &HttpStats,
    checkpoint: &CheckpointFacts,
    conversion: &ConversionFacts,
    cluster: &Option<ClusterFacts>,
) -> (j: serde_json::Value)
    ensures
        json_of(j) == JsonModel::Object(
            no_fields().insert("writer"@, writer_view(*w, json_of(mean))).insert(
                "reader"@,
                reader_report(*r),
            ).insert("http"@, http_view(*h)).insert(
                "checkpoint"@,
                checkpoint_view(*checkpoint),
            ).insert("wal_conversion"@, conversion_view(*conversion)).insert(
                "cluster"@,
                churn_view(*cluster),
            ),
        ),
{
    let writer = Fields::new().with_whole("batches", w.batches).with_whole(
        "requests",
        w.requests,
    ).with_whole("max_batch", w.max_batch).with("mean_batch", mean).with_whole(
        "open_now",
        w.open_now,
    ).with_whole("shard_opens", w.shard_opens).with_whole(
        "shard_evictions",
        w.shard_evictions,
    ).with_whole("threads", w.threads).done();
    let http = Fields::new().with_whole("requests", h.requests).with_whole(
        "errors",
        h.errors,
    ).with_whole("auth_failures", h.auth_failures).with_whole(
        "authz_refused",
        h.authz_refused,
    ).done();
    let check = Fields::new().with_whole("passive", checkpoint.passive).with_whole(
        "truncated",
        checkpoint.truncated,
    ).with_whole("stalls", checkpoint.stalls).with_whole(
        "failures",
        checkpoint.failures,
    ).with_whole("wal_bytes", checkpoint.wal_bytes).done();
    let convert = Fields::new().with_whole("retries", conversion.retries).with_whole(
        "contended_opens",
        conversion.contended_opens,
    ).with_whole("failed_opens", conversion.failed_opens).with_whole(
        "max_wait_ms",
        conversion.max_wait_ms,
    ).done();
    let churn = match cluster {
        None => from_nothing(),
        Some(c) => Fields::new().with_whole(
            "elections_started",
            c.stats.elections_started,
        ).with_whole("stepped_down", c.stats.stepped_down).with_whole(
            "placement_changes",
            c.stats.placement_changes,
        ).with_whole("handover_failed", c.stats.handover_failed).with_whole(
            "last_change_ms",
            c.stats.last_change_ms,
        ).done(),
    };
    Fields::new().with("writer", writer).with("reader", reader_json(r)).with("http", http).with(
        "checkpoint",
        check,
    ).with("wal_conversion", convert).with("cluster", churn).done()
}

// ---- the catalog -------------------------------------------------------------------------------

#[derive(Debug)]
pub struct MemberFacts {
    pub node: u64,
    pub incarnation: u64,
    pub address: String,
    pub role: String,
    pub state: String,
    pub placement_eligible: bool,
}

#[derive(Debug)]
pub struct PlacementFacts {
    pub shard: u32,
    pub generation: u64,
    pub primary: u64,
    pub replicas: Vec<u64>,
}

#[derive(Debug)]
pub struct OperationFacts {
    pub id: u64,
    pub kind: String,
    pub phase: String,
    pub shard: Option<u32>,
    pub source: Option<u64>,
    pub destination: Option<u64>,
    pub expected_generation: u64,
    pub stream_epoch: Option<u64>,
    pub snapshot_lsn: Option<u64>,
    pub durable_lsn: Option<u64>,
    pub final_lsn: Option<u64>,
    pub routing_before: Option<u64>,
    pub routing_after: Option<u64>,
    pub created_version: u64,
    pub last_error: Option<String>,
}

#[derive(Clone, Copy, Debug)]
pub struct ProposalFacts {
    pub term: u64,
    pub expected_version: u64,
    pub version: u64,
}

/// The durable state that a cluster scales by.
#[derive(Debug)]
pub struct CatalogFacts {
    pub cluster_id: String,
    pub version: u64,
    pub routing_epoch: u64,
    pub active_shards: u64,
    pub members: Vec<MemberFacts>,
    pub placements: Vec<PlacementFacts>,
    pub operations: Vec<OperationFacts>,
    pub prepared: Option<ProposalFacts>,
}

pub open spec fn catalog_member_view(m: MemberFacts) -> JsonModel {
    JsonModel::Object(
        no_fields().insert("node"@, whole(m.node)).insert(
            "incarnation"@,
            whole(m.incarnation),
        ).insert("address"@, text(m.address@)).insert("role"@, text(lower(m.role@))).insert(
            "state"@,
            text(lower(m.state@)),
        ).insert("placement_eligible"@, flag(m.placement_eligible)),
    )
}

pub open spec fn placement_view(p: PlacementFacts) -> JsonModel {
    JsonModel::Object(
        no_fields().insert("shard"@, whole(p.shard as u64)).insert(
            "generation"@,
            whole(p.generation),
        ).insert("primary"@, whole(p.primary)).insert("replicas"@, json_numbers(p.replicas@)),
    )
}

pub open spec fn operation_view(o: OperationFacts) -> JsonModel {
    JsonModel::Object(
        no_fields().insert("id"@, whole(o.id)).insert("kind"@, text(lower(o.kind@))).insert(
            "phase"@,
            text(lower(o.phase@)),
        ).insert(
            "shard"@,
            match o.shard {
                Some(n) => whole(n as u64),
                None => JsonModel::Null,
            },
        ).insert("source"@, maybe(o.source)).insert("destination"@, maybe(o.destination)).insert(
            "expected_generation"@,
            whole(o.expected_generation),
        ).insert("stream_epoch"@, maybe(o.stream_epoch)).insert(
            "snapshot_lsn"@,
            maybe(o.snapshot_lsn),
        ).insert("durable_lsn"@, maybe(o.durable_lsn)).insert(
            "final_lsn"@,
            maybe(o.final_lsn),
        ).insert("routing_before"@, maybe(o.routing_before)).insert(
            "routing_after"@,
            maybe(o.routing_after),
        ).insert("created_version"@, whole(o.created_version)).insert(
            "last_error"@,
            match o.last_error {
                Some(s) => text(s@),
                None => JsonModel::Null,
            },
        ),
    )
}

fn catalog_members_json(v: &Vec<MemberFacts>) -> (r: serde_json::Value)
    ensures
        json_of(r) == JsonModel::List(v@.map_values(|m: MemberFacts| catalog_member_view(m))),
{
    let ghost model = v@.map_values(|m: MemberFacts| catalog_member_view(m));
    let mut items: Vec<serde_json::Value> = Vec::with_capacity(v.len());
    let mut i: usize = 0;
    while i < v.len()
        invariant
            i <= v@.len(),
            model == v@.map_values(|m: MemberFacts| catalog_member_view(m)),
            json_list(items@) =~= model.take(i as int),
        decreases v@.len() - i,
    {
        let ghost before = items@;
        let m = &v[i];
        let role = to_lower(m.role.as_str());
        let state = to_lower(m.state.as_str());
        items.push(
            Fields::new().with_whole("node", m.node).with_whole(
                "incarnation",
                m.incarnation,
            ).with_text("address", m.address.as_str()).with_text("role", role.as_str()).with_text(
                "state",
                state.as_str(),
            ).with_flag("placement_eligible", m.placement_eligible).done(),
        );
        assert(json_list(items@) =~= json_list(before).push(model[i as int]));
        i = i + 1;
    }
    assert(model.take(v@.len() as int) =~= model);
    from_items(items)
}

fn placements_json(v: &Vec<PlacementFacts>) -> (r: serde_json::Value)
    ensures
        json_of(r) == JsonModel::List(v@.map_values(|p: PlacementFacts| placement_view(p))),
{
    let ghost model = v@.map_values(|p: PlacementFacts| placement_view(p));
    let mut items: Vec<serde_json::Value> = Vec::with_capacity(v.len());
    let mut i: usize = 0;
    while i < v.len()
        invariant
            i <= v@.len(),
            model == v@.map_values(|p: PlacementFacts| placement_view(p)),
            json_list(items@) =~= model.take(i as int),
        decreases v@.len() - i,
    {
        let ghost before = items@;
        let p = &v[i];
        items.push(
            Fields::new().with_whole("shard", p.shard as u64).with_whole(
                "generation",
                p.generation,
            ).with_whole("primary", p.primary).with("replicas", numbers_to_json(&p.replicas)).done(),
        );
        assert(json_list(items@) =~= json_list(before).push(model[i as int]));
        i = i + 1;
    }
    assert(model.take(v@.len() as int) =~= model);
    from_items(items)
}

fn operation_json(o: &OperationFacts) -> (r: serde_json::Value)
    ensures
        json_of(r) == operation_view(*o),
{
    let kind = to_lower(o.kind.as_str());
    let phase = to_lower(o.phase.as_str());
    let shard: Option<u64> = match o.shard {
        Some(n) => Some(n as u64),
        None => None,
    };
    let f = Fields::new().with_whole("id", o.id).with_text("kind", kind.as_str()).with_text(
        "phase",
        phase.as_str(),
    ).with_maybe("shard", shard).with_maybe("source", o.source).with_maybe(
        "destination",
        o.destination,
    ).with_whole("expected_generation", o.expected_generation).with_maybe(
        "stream_epoch",
        o.stream_epoch,
    ).with_maybe("snapshot_lsn", o.snapshot_lsn).with_maybe(
        "durable_lsn",
        o.durable_lsn,
    ).with_maybe("final_lsn", o.final_lsn).with_maybe(
        "routing_before",
        o.routing_before,
    ).with_maybe("routing_after", o.routing_after).with_whole(
        "created_version",
        o.created_version,
    );
    match &o.last_error {
        Some(s) => f.with_text("last_error", s.as_str()).done(),
        None => f.with("last_error", from_nothing()).done(),
    }
}

fn operations_json(v: &Vec<OperationFacts>) -> (r: serde_json::Value)
    ensures
        json_of(r) == JsonModel::List(v@.map_values(|o: OperationFacts| operation_view(o))),
{
    let ghost model = v@.map_values(|o: OperationFacts| operation_view(o));
    let mut items: Vec<serde_json::Value> = Vec::with_capacity(v.len());
    let mut i: usize = 0;
    while i < v.len()
        invariant
            i <= v@.len(),
            model == v@.map_values(|o: OperationFacts| operation_view(o)),
            json_list(items@) =~= model.take(i as int),
        decreases v@.len() - i,
    {
        let ghost before = items@;
        items.push(operation_json(&v[i]));
        assert(json_list(items@) =~= json_list(before).push(model[i as int]));
        i = i + 1;
    }
    assert(model.take(v@.len() as int) =~= model);
    from_items(items)
}

pub open spec fn proposal_view(p: Option<ProposalFacts>) -> JsonModel {
    match p {
        None => JsonModel::Null,
        Some(p) => JsonModel::Object(
            no_fields().insert("term"@, whole(p.term)).insert(
                "expected_version"@,
                whole(p.expected_version),
            ).insert("version"@, whole(p.version)),
        ),
    }
}

/// The view of a catalog; `routing` and `transition` are parts of it, as JSON.
pub open spec fn catalog_view(
    catalog: Option<CatalogFacts>,
    routing: JsonModel,
    transition: JsonModel,
    shard_count: u32,
) -> JsonModel {
    match catalog {
        None => JsonModel::Object(
            no_fields().insert("enabled"@, flag(false)).insert(
                "reason"@,
                text("this node is using legacy static cluster configuration"@),
            ),
        ),
        Some(c) => JsonModel::Object(
            no_fields().insert("enabled"@, flag(true)).insert(
                "cluster_id"@,
                text(c.cluster_id@),
            ).insert("version"@, whole(c.version)).insert(
                "routing_epoch"@,
                whole(c.routing_epoch),
            ).insert("routing"@, routing).insert("active_shards"@, whole(c.active_shards)).insert(
                "local_shard_capacity"@,
                whole(shard_count as u64),
            ).insert("voter_transition"@, transition).insert(
                "members"@,
                JsonModel::List(c.members@.map_values(|m: MemberFacts| catalog_member_view(m))),
            ).insert(
                "placements"@,
                JsonModel::List(c.placements@.map_values(|p: PlacementFacts| placement_view(p))),
            ).insert(
                "operations"@,
                JsonModel::List(c.operations@.map_values(|o: OperationFacts| operation_view(o))),
            ).insert("prepared"@, proposal_view(c.prepared)),
        ),
    }
}

/// `GET /v1/cluster/catalog`: the state that the cluster scales by.
pub fn catalog_json(
    catalog: &Option<CatalogFacts>,
    routing: serde_json::Value,
    transition: serde_json::Value,
    shard_count: u32,
) -> (r: serde_json::Value)
    ensures
        json_of(r) == catalog_view(*catalog, json_of(routing), json_of(transition), shard_count),
{
    let c = match catalog {
        Some(c) => c,
        None => {
            return Fields::new().with_flag("enabled", false).with_text(
                "reason",
                "this node is using legacy static cluster configuration",
            ).done();
        },
    };
    let prepared = match &c.prepared {
        None => from_nothing(),
        Some(p) => Fields::new().with_whole("term", p.term).with_whole(
            "expected_version",
            p.expected_version,
        ).with_whole("version", p.version).done(),
    };
    Fields::new().with_flag("enabled", true).with_text("cluster_id", c.cluster_id.as_str()).with_whole(
        "version",
        c.version,
    ).with_whole("routing_epoch", c.routing_epoch).with("routing", routing).with_whole(
        "active_shards",
        c.active_shards,
    ).with_whole("local_shard_capacity", shard_count as u64).with(
        "voter_transition",
        transition,
    ).with("members", catalog_members_json(&c.members)).with(
        "placements",
        placements_json(&c.placements),
    ).with("operations", operations_json(&c.operations)).with("prepared", prepared).done()
}

// ---- queries and schemas -----------------------------------------------------------------------

pub open spec fn explanation(supported: bool, strategy: Seq<char>, note: Seq<char>, heavy: bool) -> JsonModel {
    JsonModel::Object(
        no_fields().insert("supported"@, flag(supported)).insert(
            "strategy"@,
            text(strategy),
        ).insert("note"@, text(note)).insert("heavy"@, flag(heavy)),
    )
}

/// How a query would run across shards, or why it would not.
pub open spec fn explain_view(sql: Seq<char>, keys: Map<Seq<char>, Seq<char>>) -> JsonModel {
    match sql_plan(sql, keys) {
        Ok(p) => explanation(true, p.strategy(), p.note(), p is Central),
        Err(why) => refused_view(why.what(), why.why()),
    }
}

pub open spec fn refused_view(what: Seq<char>, why: Seq<char>) -> JsonModel {
    explanation(
        false,
        "unsupported"@,
        what + " cannot be answered across shards: "@ + why
            + ". Target a single shard instead, or restructure the query."@,
        false,
    )
}

/// A plan, or why there is none, in words.
pub fn planned_json(planned: &Result<Plan, Unsupported>) -> (r: serde_json::Value)
    ensures
        json_of(r) == (match planned {
            Ok(p) => explanation(true, p@.strategy(), p@.note(), p@ is Central),
            Err(u) => refused_view(u.what@, u.why@),
        }),
{
    match planned {
        Ok(plan) => {
            let d = plan.describe();
            Fields::new().with_flag("supported", true).with_text("strategy", d.strategy).with_text(
                "note",
                d.note,
            ).with_flag("heavy", d.heavy).done()
        },
        Err(why) => {
            let note = why.to_text();
            Fields::new().with_flag("supported", false).with_text(
                "strategy",
                "unsupported",
            ).with_text("note", note.as_str()).with_flag("heavy", false).done()
        },
    }
}

/// `POST /v1/explain`: how a query would run across shards, without running it.
pub fn explain_json(sql: &str, keys: &ShardKeys) -> (r: serde_json::Value)
    ensures
        json_of(r) == explain_view(sql@, keys@),
{
    let planned = plan_with(sql, keys);
    planned_json(&planned)
}

/// Whether the shards agree on a schema.
#[derive(Clone, Copy, Debug)]
pub enum Agreement {
    Agreed(i64),
    Disagreed { lowest: i64, highest: i64, behind: u32, ahead: u32 },
}

pub open spec fn agreement_view(a: Agreement) -> JsonModel {
    match a {
        Agreement::Agreed(v) => JsonModel::Object(
            no_fields().insert("status"@, text("agreed"@)).insert("version"@, integer(v)),
        ),
        Agreement::Disagreed { lowest, highest, behind, ahead } => JsonModel::Object(
            no_fields().insert("status"@, text("disagreed"@)).insert(
                "lowest"@,
                integer(lowest),
            ).insert("highest"@, integer(highest)).insert("behind"@, whole(behind as u64)).insert(
                "ahead"@,
                whole(ahead as u64),
            ),
        ),
    }
}

/// `GET /v1/schema/agreement`.
pub fn agreement_json(a: Agreement) -> (r: serde_json::Value)
    ensures
        json_of(r) == agreement_view(a),
{
    match a {
        Agreement::Agreed(v) => Fields::new().with_text("status", "agreed").with_integer(
            "version",
            v,
        ).done(),
        Agreement::Disagreed { lowest, highest, behind, ahead } => Fields::new().with_text(
            "status",
            "disagreed",
        ).with_integer("lowest", lowest).with_integer("highest", highest).with_whole(
            "behind",
            behind as u64,
        ).with_whole("ahead", ahead as u64).done(),
    }
}

// ---- laws --------------------------------------------------------------------------------------

/// A node is only healthy where there is a leader.
pub proof fn law_health_needs_a_leader(c: ClusterFacts, shard_count: u32)
    ensures
        c.leader is None ==> health_status(c, shard_count) == "unavailable"@,
        c.leader is Some ==> health_status(c, shard_count) == (if consensus_holds(c)
            && placement_holds(c, shard_count) {
            "healthy"@
        } else {
            "degraded"@
        }),
{
}

} // verus!
