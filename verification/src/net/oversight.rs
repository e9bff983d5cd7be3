//! What the console tells, and what administrators may ask for, in plain terms.

use vstd::prelude::*;

use super::console::{
    consensus_holds, health_status, is_primary, lag, listed, owner_from, owner_in, peer_status,
    placement_holds, quorum, reachable, replicates, told, voters, GatewayFacts,
};
use super::http_admin::{
    catalog_refusal, count_statement, first_column_sum, ident_char, member_only, member_operation,
    own_id, self_plan_is, shard_operation, simple_ident, two_parts, CatalogCommand, MemberPlan,
    SelfPlan, ShardOp, Standing,
};
use super::http_gateway::{HttpError, HttpErrorModel};
use super::http_ops::{archive_plan_is, ArchiveBody, ArchivePlan};
use super::json::ClusterFacts;
use crate::lines::split_at_first;
use crate::replication::follower::Follower;
use crate::storage::exec::Datum;
use crate::text::{decimal, lemma_decimal_reads_back};

verus! {

// ---- the cluster -------------------------------------------------------------------------------

/// A cluster is healthy where there is a leader, a majority can be reached as far as this node can
/// tell, every shard has an owner and no handover failed. Without a leader it is unavailable.
pub proof fn law_what_health_means(c: ClusterFacts, shard_count: u32)
    requires
        c.peers@.len() < u64::MAX,
        c.live@.len() < u64::MAX,
    ensures
        voters(c) == c.peers@.len() + 1,
        2 * quorum(c) > voters(c),
        2 * (quorum(c) - 1) <= voters(c),
        c.is_leader ==> reachable(c) == Some((c.live@.len() + 1) as u64),
        !c.is_leader ==> reachable(c) is None,
        consensus_holds(c) <==> c.leader is Some && (c.is_leader ==> 2 * (c.live@.len() + 1)
            > c.peers@.len() + 1),
        placement_holds(c, shard_count) <==> c.assignments@.len() == shard_count
            && c.stats.handover_failed == 0,
        c.leader is None ==> health_status(c, shard_count) == "unavailable"@,
        c.leader is Some && consensus_holds(c) && placement_holds(c, shard_count) ==> health_status(
            c,
            shard_count,
        ) == "healthy"@,
        c.leader is Some && !(consensus_holds(c) && placement_holds(c, shard_count))
            ==> health_status(c, shard_count) == "degraded"@,
{
}

/// How a peer is seen: the leader hears from it or does not, and nobody else can tell.
pub proof fn law_how_peers_are_seen(c: ClusterFacts, node: u64)
    ensures
        !c.is_leader ==> peer_status(c, node) == "unknown"@,
        c.is_leader && listed(c.live@, node) ==> peer_status(c, node) == "up"@,
        c.is_leader && !listed(c.live@, node) ==> peer_status(c, node) == "suspected"@,
        listed(c.live@, node) <==> c.live@.contains(node),
{
}

proof fn lemma_owner(assignments: Seq<(u32, u64)>, shard: u32, i: int)
    requires
        0 <= i,
    ensures
        owner_from(assignments, shard, i) matches Some(n) ==> exists|k: int|
            i <= k < assignments.len() && #[trigger] assignments[k] == (shard, n),
        owner_from(assignments, shard, i) is None ==> forall|k: int|
            i <= k < assignments.len() ==> (#[trigger] assignments[k]).0 != shard,
    decreases assignments.len() - i,
{
    if i < assignments.len() {
        lemma_owner(assignments, shard, i + 1);
        if assignments[i].0 == shard {
            assert(assignments[i] == (shard, assignments[i].1));
        } else if let Some(n) = owner_from(assignments, shard, i) {
            let k = choose|k: int|
                i + 1 <= k < assignments.len() && #[trigger] assignments[k] == (shard, n);
            assert(assignments[k] == (shard, n));
        }
    }
}

/// A shard is owned by whom it was assigned to, and this node writes it where it owns it or stands
/// alone.
pub proof fn law_who_owns_a_shard(c: ClusterFacts, shard: u32)
    ensures
        owner_in(Some(c), shard) matches Some(n) ==> c.assignments@.contains((shard, n)),
        owner_in(Some(c), shard) is None ==> forall|k: int|
            0 <= k < c.assignments@.len() ==> (#[trigger] c.assignments@[k]).0 != shard,
        is_primary(Some(c), shard) <==> owner_in(Some(c), shard) == Some(c.id),
        is_primary(None, shard),
{
    lemma_owner(c.assignments@, shard, 0);
    if let Some(n) = owner_in(Some(c), shard) {
        let k = choose|k: int|
            0 <= k < c.assignments@.len() && #[trigger] c.assignments@[k] == (shard, n);
        assert(c.assignments@[k] == (shard, n));
    }
}

/// The lag of a shard is how far its writes are ahead of what a quorum holds.
pub proof fn law_lag(lsn: u64, held: u64)
    ensures
        lsn >= held ==> lag(lsn, held) == lsn - held,
        lsn < held ==> lag(lsn, held) == 0,
{
}

/// Every shard that this node writes or follows is told of, in order, and no other.
pub proof fn law_which_shards_are_told_of(
    g: GatewayFacts,
    follower: Option<Follower>,
    n: nat,
    shard: u32,
)
    requires
        n <= u32::MAX,
    ensures
        told(g, follower, n).contains(shard) <==> shard < n && (is_primary(g.cluster, shard)
            || follower is Some),
    decreases n,
{
    if n > 0 {
        law_which_shards_are_told_of(g, follower, (n - 1) as nat, shard);
        let before = told(g, follower, (n - 1) as nat);
        let all = told(g, follower, n);
        if replicates(g, follower, (n - 1) as u32) {
            assert(all[all.len() - 1] == (n - 1) as u32);
            if before.contains(shard) {
                let k = choose|k: int| 0 <= k < before.len() && before[k] == shard;
                assert(all[k] == shard);
            }
            if all.contains(shard) && shard != (n - 1) as u32 {
                let k = choose|k: int| 0 <= k < all.len() && all[k] == shard;
                assert(before[k] == shard);
            }
        }
    } else {
        assert(!told(g, follower, 0).contains(shard));
    }
}

// ---- administration ----------------------------------------------------------------------------

/// A change of the catalog is taken by the leader of a cluster that keeps one, and by nobody else.
pub proof fn law_who_changes_the_catalog(node: Option<Standing>, enabled: bool)
    ensures
        catalog_refusal(node, enabled) is None <==> enabled && (node matches Some(n) && n.is_leader),
        catalog_refusal(node, enabled) matches Some(e) ==> e.status == 409,
{
}

proof fn lemma_operation_words()
    ensures
        "cordon"@ != "drain"@,
        "vacuum"@ != "checkpoint"@,
        "vacuum"@ != "recover-from-s3"@,
        "checkpoint"@ != "recover-from-s3"@,
        "cordon"@.len() > 0,
        "drain"@.len() > 0,
{
    reveal_strlit("cordon");
    reveal_strlit("drain");
    reveal_strlit("vacuum");
    reveal_strlit("checkpoint");
    reveal_strlit("recover-from-s3");
    assert("cordon"@[0] == 'c' && "drain"@[0] == 'd' && "vacuum"@[0] == 'v');
    assert("checkpoint"@[0] == 'c' && "recover-from-s3"@[0] == 'r');
}

/// What an operation on a member asks for: the member whose number stands first in the path.
pub proof fn law_operations_on_members(suffix: Seq<char>, node: u64, operation: Seq<char>)
    requires
        two_parts(suffix) == (decimal(node as nat), operation),
    ensures
        operation.len() == 0 ==> member_operation(suffix, true) == Ok::<MemberPlan, HttpErrorModel>(
            MemberPlan::Remove(node),
        ),
        operation == "cordon"@ ==> member_operation(suffix, false) == Ok::<
            MemberPlan,
            HttpErrorModel,
        >(MemberPlan::Cordon(node)),
        operation == "drain"@ ==> member_operation(suffix, false) == Ok::<
            MemberPlan,
            HttpErrorModel,
        >(MemberPlan::Drain(node)),
        operation == "drain"@ ==> member_operation(suffix, true) is Err,
        operation != "cordon"@ && operation != "drain"@ ==> member_operation(suffix, false) is Err,
{
    lemma_decimal_reads_back(node as nat);
    lemma_operation_words();
}

/// What an operation on a shard asks for: the shard whose number stands first in the path.
pub proof fn law_operations_on_shards(suffix: Seq<char>, shard: u32, operation: Seq<char>)
    requires
        split_at_first(suffix, '/') == Some((decimal(shard as nat), operation)),
    ensures
        operation == "vacuum"@ ==> shard_operation(suffix) == Ok::<(u32, ShardOp), HttpErrorModel>(
            (shard, ShardOp::Vacuum),
        ),
        operation == "checkpoint"@ ==> shard_operation(suffix) == Ok::<
            (u32, ShardOp),
            HttpErrorModel,
        >((shard, ShardOp::Checkpoint)),
        operation == "recover-from-s3"@ ==> shard_operation(suffix) == Ok::<
            (u32, ShardOp),
            HttpErrorModel,
        >((shard, ShardOp::Recover)),
        operation != "vacuum"@ && operation != "checkpoint"@ && operation != "recover-from-s3"@
            ==> shard_operation(suffix) is Err,
{
    lemma_decimal_reads_back(shard as nat);
    lemma_operation_words();
}

/// A name that goes into a statement as it is holds no quote, no space and no semicolon, and does not
/// begin with a digit.
pub proof fn law_simple_names(s: Seq<char>, i: int)
    requires
        simple_ident(s),
        0 <= i < s.len(),
    ensures
        s[i] != '"' && s[i] != '\'' && s[i] != ' ' && s[i] != ';' && s[i] != '.',
        !('0' <= s[0] <= '9'),
        count_statement(s) == "SELECT count(*) FROM \""@ + s + "\""@,
{
    assert(ident_char(s[i]));
}

/// The rows of a table are counted over all shards.
pub proof fn law_rows_are_counted(rows: Seq<Seq<Datum>>, n: i64)
    requires
        i64::MIN <= first_column_sum(rows) + n <= i64::MAX,
    ensures
        first_column_sum(rows.push(seq![Datum::Integer(n)])) == first_column_sum(rows) + n,
        first_column_sum(Seq::<Seq<Datum>>::empty()) == 0,
{
    assert(rows.push(seq![Datum::Integer(n)]).drop_last() =~= rows);
}

/// Archival is detached where it is switched off, and attached only where frames are captured and a
/// bucket and both keys are named, to that bucket with those keys.
pub proof fn law_archival_is_configured(
    b: ArchiveBody,
    capturing: bool,
    r: Result<ArchivePlan, HttpError>,
)
    requires
        archive_plan_is(b, capturing, r),
    ensures
        b.enabled == Some(false) ==> (r matches Ok(p) && p is Detach),
        b.enabled != Some(false) && (!capturing || b.bucket is None || b.access_key is None
            || b.secret_key is None) ==> r is Err,
        r matches Ok(ArchivePlan::Attach { config, .. }) ==> capturing && config.bucket@
            == b.bucket->0@ && config.access_key@ == b.access_key->0@ && config.secret_key@
            == b.secret_key->0@ && (b.endpoint matches Some(e) ==> config.endpoint@ == e@) && (
        b.region matches Some(region) ==> config.region@ == region@),
{
}

/// Cordoning or draining this node goes through the catalog where the cluster keeps one, and is done
/// directly otherwise; a node that stands alone refuses.
pub proof fn law_operations_on_this_member(
    node: Option<Standing>,
    catalog: bool,
    command: CatalogCommand,
    alone: Seq<char>,
    r: Result<SelfPlan, HttpError>,
)
    requires
        self_plan_is(node, catalog, command, alone, r),
    ensures
        r is Ok <==> node is Some,
        node matches Some(n) ==> r == Ok::<SelfPlan, HttpError>(
            if catalog {
                SelfPlan::Catalog(command)
            } else {
                SelfPlan::Direct(n.id)
            },
        ),
        r matches Err(e) ==> e@.status == 409,
        node matches Some(n) ==> own_id(node) == n.id && member_only(node, alone) == Ok::<
            u64,
            HttpErrorModel,
        >(n.id),
        node is None ==> (member_only(node, alone) matches Err(e) && e.status == 409),
{
}

/// The names that go into a statement as they are: letters, digits and underscores, and no digit
/// first.
pub proof fn law_which_names_are_simple(s: Seq<char>)
    ensures
        simple_ident(s) <==> s.len() > 0 && !('0' <= s[0] <= '9') && forall|i: int|
            0 <= i < s.len() ==> 'a' <= (#[trigger] s[i]) <= 'z' || 'A' <= s[i] <= 'Z' || '0' <= s[i]
                <= '9' || s[i] == '_',
{
    if simple_ident(s) {
        assert forall|i: int| 0 <= i < s.len() implies 'a' <= (#[trigger] s[i]) <= 'z' || 'A' <= s[i]
            <= 'Z' || '0' <= s[i] <= '9' || s[i] == '_' by {
            assert(ident_char(s[i]));
        }
    }
}

} // verus!
