//! The operator's endpoints of the HTTP gateway: members and leadership of the cluster, maintenance
//! of shards, shard keys.

use vstd::prelude::*;

use super::console::{flag, text};
use super::http_gateway::{http_error, HttpError, HttpErrorModel};
use super::json::{
    Fields, integer, json_of, json_shards, JsonModel, no_fields, shards_to_json, whole,
};
use crate::lines::{split_at_first, split_once};
use crate::storage::exec::{Datum, DbValue, QueryResult, row_view, rows_view};
use crate::text::{chars_of, decimal, parse_u32, parse_u64, push_decimal, same, unsigned_text};

verus! {

// ---- the catalog -------------------------------------------------------------------------------

/// A change of the catalog that a cluster scales by.
#[derive(Debug)]
pub enum CatalogCommand {
    Rebalance,
    Cordon { node: u64, cordoned: bool },
    Drain { node: u64 },
    Remove { node: u64 },
    FinalizeVoterChange,
    BeginVoterChange { voters: Vec<u64> },
}

/// What a node is in its cluster, as far as a change of the catalog depends on it.
#[derive(Clone, Copy, Debug)]
pub struct Standing {
    pub id: u64,
    pub is_leader: bool,
    pub leader: Option<u64>,
}

/// A node that may be unknown, as it is shown in a message.
pub open spec fn shown_leader(leader: Option<u64>) -> Seq<char> {
    match leader {
        Some(n) => "Some("@ + decimal(n as nat) + ")"@,
        None => "None"@,
    }
}

/// Why a change of the catalog is refused here: it has to be sent to the leader of a cluster that
/// keeps a catalog.
pub open spec fn catalog_refusal(node: Option<Standing>, enabled: bool) -> Option<HttpErrorModel> {
    match node {
        None => Some(http_error(409, "this is not a cluster member"@)),
        Some(n) => if !n.is_leader {
            Some(
                http_error(
                    409,
                    "catalog mutations must be sent to the leader; this node sees leader "@
                        + shown_leader(n.leader),
                ),
            )
        } else if !enabled {
            Some(http_error(409, "dynamic catalog mode is not enabled"@))
        } else {
            None
        },
    }
}

pub open spec fn refused(r: Result<(), HttpError>) -> Option<HttpErrorModel> {
    match r {
        Ok(_) => None,
        Err(e) => Some(e@),
    }
}

/// Whether a change of the catalog may be made here.
pub fn check_catalog(node: Option<Standing>, enabled: bool) -> (r: Result<(), HttpError>)
    ensures
        refused(r) == catalog_refusal(node, enabled),
{
    let n = match node {
        Some(n) => n,
        None => {
            return Err(HttpError::new(409, "this is not a cluster member"));
        },
    };
    if !n.is_leader {
        let mut m =
            "catalog mutations must be sent to the leader; this node sees leader ".to_owned();
        match n.leader {
            Some(id) => {
                m.append("Some(");
                push_decimal(&mut m, id);
                m.append(")");
            },
            None => {
                m.append("None");
            },
        }
        proof {
            assert(m@ =~= "catalog mutations must be sent to the leader; this node sees leader "@
                + shown_leader(n.leader));
        }
        return Err(HttpError { status: 409, message: m });
    }
    if !enabled {
        return Err(HttpError::new(409, "dynamic catalog mode is not enabled"));
    }
    Ok(())
}

/// The parts of a path up to its first and its second slash.
pub open spec fn two_parts(s: Seq<char>) -> (Seq<char>, Seq<char>) {
    match split_at_first(s, '/') {
        None => (s, Seq::empty()),
        Some((first, rest)) => match split_at_first(rest, '/') {
            None => (first, rest),
            Some((second, _)) => (first, second),
        },
    }
}

fn first_two(s: &str) -> (r: (String, String))
    ensures
        (r.0@, r.1@) == two_parts(s@),
{
    match split_once(s, '/') {
        None => (s.to_owned(), String::new()),
        Some((first, rest)) => match split_once(rest.as_str(), '/') {
            None => (first, rest),
            Some((second, _)) => (first, second),
        },
    }
}

/// What an operation on a member comes to.
#[derive(Clone, Copy, Debug, PartialEq, Eq, Structural)]
pub enum MemberPlan {
    Remove(u64),
    /// The body says whether to cordon it; without one it is.
    Cordon(u64),
    Drain(u64),
}

pub open spec fn number(s: Seq<char>) -> Option<u64> {
    match unsigned_text(s) {
        Some(n) => if n <= u64::MAX {
            Some(n as u64)
        } else {
            None
        },
        None => None,
    }
}

/// What `/v1/cluster/members/{suffix}` asks for.
pub open spec fn member_operation(suffix: Seq<char>, remove: bool) -> Result<
    MemberPlan,
    HttpErrorModel,
> {
    let (id, operation) = two_parts(suffix);
    match number(id) {
        None => Err(http_error(400, "member id must be a number"@)),
        Some(node) => if remove && operation.len() == 0 {
            Ok(MemberPlan::Remove(node))
        } else if operation == "cordon"@ {
            Ok(MemberPlan::Cordon(node))
        } else if operation == "drain"@ && !remove {
            Ok(MemberPlan::Drain(node))
        } else {
            Err(http_error(404, "no such member operation"@))
        },
    }
}

/// `POST` or `DELETE /v1/cluster/members/{suffix}`.
pub fn plan_member(suffix: &str, remove: bool) -> (r: Result<MemberPlan, HttpError>)
    ensures
        match member_operation(suffix@, remove) {
            Ok(p) => r == Ok::<MemberPlan, HttpError>(p),
            Err(x) => r matches Err(e) && e@ == x,
        },
{
    let (id, operation) = first_two(suffix);
    let node: u64 = match parse_u64(id.as_str()) {
        Some(n) => n,
        None => {
            return Err(HttpError::new(400, "member id must be a number"));
        },
    };
    if remove && operation.as_str().is_empty() {
        return Ok(MemberPlan::Remove(node));
    }
    if same(operation.as_str(), "cordon") {
        return Ok(MemberPlan::Cordon(node));
    }
    if same(operation.as_str(), "drain") && !remove {
        return Ok(MemberPlan::Drain(node));
    }
    Err(HttpError::new(404, "no such member operation"))
}

/// The change that an operation on a member makes, given whether the body says to cordon it.
pub fn member_command(plan: MemberPlan, cordoned: Option<bool>) -> (r: CatalogCommand)
    ensures
        match plan {
            MemberPlan::Remove(node) => r == (CatalogCommand::Remove { node }),
            MemberPlan::Drain(node) => r == (CatalogCommand::Drain { node }),
            MemberPlan::Cordon(node) => r == (CatalogCommand::Cordon {
                node,
                cordoned: match cordoned {
                    Some(b) => b,
                    None => true,
                },
            }),
        },
{
    match plan {
        MemberPlan::Remove(node) => CatalogCommand::Remove { node },
        MemberPlan::Drain(node) => CatalogCommand::Drain { node },
        MemberPlan::Cordon(node) => CatalogCommand::Cordon {
            node,
            cordoned: match cordoned {
                Some(b) => b,
                None => true,
            },
        },
    }
}

/// The status of an operation on a member that was accepted.
pub fn member_status(remove: bool) -> (r: u16)
    ensures
        remove ==> r == 200,
        !remove ==> r == 202,
{
    if remove {
        200
    } else {
        202
    }
}

/// `POST /v1/cluster/voters`: the change of voters that its body asks for.
pub fn voters_command(voters: Vec<u64>, finalize: bool) -> (r: CatalogCommand)
    ensures
        if finalize {
            r is FinalizeVoterChange
        } else {
            r matches CatalogCommand::BeginVoterChange { voters: v } && v@ == voters@
        },
{
    if finalize {
        CatalogCommand::FinalizeVoterChange
    } else {
        CatalogCommand::BeginVoterChange { voters }
    }
}

// ---- leadership --------------------------------------------------------------------------------

/// What an operation on this node itself comes to.
#[derive(Debug)]
pub enum SelfPlan {
    /// Change the catalog thus.
    Catalog(CatalogCommand),
    /// Do it directly, on the node with this number.
    Direct(u64),
}

/// What cordoning or draining this node comes to, in a cluster with a catalog and in one without.
pub open spec fn self_plan_is(
    node: Option<Standing>,
    catalog: bool,
    command: CatalogCommand,
    alone: Seq<char>,
    r: Result<SelfPlan, HttpError>,
) -> bool {
    match node {
        None => if catalog {
            r matches Err(e) && e@ == http_error(409, "catalog has no cluster runtime"@)
        } else {
            r matches Err(e) && e@ == http_error(409, alone)
        },
        Some(n) => if catalog {
            r == Ok::<SelfPlan, HttpError>(SelfPlan::Catalog(command))
        } else {
            r == Ok::<SelfPlan, HttpError>(SelfPlan::Direct(n.id))
        },
    }
}

pub open spec fn own_id(node: Option<Standing>) -> u64 {
    match node {
        Some(n) => n.id,
        None => 0,
    }
}

/// `POST /v1/cluster/cordon`: moves the shards of this node away, or lets them come back.
pub fn plan_cordon(node: Option<Standing>, catalog: bool, cordoned: bool) -> (r: Result<
    SelfPlan,
    HttpError,
>)
    ensures
        self_plan_is(
            node,
            catalog,
            CatalogCommand::Cordon { node: own_id(node), cordoned },
            "this is a standalone node, not a cluster member; nothing to cordon"@,
            r,
        ),
{
    match node {
        None => if catalog {
            Err(HttpError::new(409, "catalog has no cluster runtime"))
        } else {
            Err(
                HttpError::new(
                    409,
                    "this is a standalone node, not a cluster member; nothing to cordon",
                ),
            )
        },
        Some(n) => if catalog {
            Ok(SelfPlan::Catalog(CatalogCommand::Cordon { node: n.id, cordoned }))
        } else {
            Ok(SelfPlan::Direct(n.id))
        },
    }
}

/// `POST /v1/cluster/drain`: this node leaves its cluster gracefully.
pub fn plan_drain(node: Option<Standing>, catalog: bool) -> (r: Result<SelfPlan, HttpError>)
    ensures
        self_plan_is(
            node,
            catalog,
            CatalogCommand::Drain { node: own_id(node) },
            "this is a standalone node, not a cluster member; nothing to drain"@,
            r,
        ),
{
    match node {
        None => if catalog {
            Err(HttpError::new(409, "catalog has no cluster runtime"))
        } else {
            Err(
                HttpError::new(
                    409,
                    "this is a standalone node, not a cluster member; nothing to drain",
                ),
            )
        },
        Some(n) => if catalog {
            Ok(SelfPlan::Catalog(CatalogCommand::Drain { node: n.id }))
        } else {
            Ok(SelfPlan::Direct(n.id))
        },
    }
}

/// Whether an operation that only a member knows can be done: on which node.
pub open spec fn member_only(node: Option<Standing>, alone: Seq<char>) -> Result<u64, HttpErrorModel> {
    match node {
        Some(n) => Ok(n.id),
        None => Err(http_error(409, alone)),
    }
}

pub open spec fn id_view(r: Result<u64, HttpError>) -> Result<u64, HttpErrorModel> {
    match r {
        Ok(n) => Ok(n),
        Err(e) => Err(e@),
    }
}

/// `POST /v1/cluster/step-down`: this node gives up leadership, where it has it.
pub fn plan_step_down(node: Option<Standing>) -> (r: Result<u64, HttpError>)
    ensures
        id_view(r) == member_only(
            node,
            "this is a standalone node, not a cluster member; there is no leadership to give up"@,
        ),
{
    match node {
        Some(n) => Ok(n.id),
        None => Err(
            HttpError::new(
                409,
                "this is a standalone node, not a cluster member; there is no leadership to give up",
            ),
        ),
    }
}

/// `POST /v1/cluster/prefer`: this node would like to host some shards, or no longer.
pub fn plan_prefer(node: Option<Standing>) -> (r: Result<u64, HttpError>)
    ensures
        id_view(r) == member_only(
            node,
            "this is a standalone node, not a cluster member; it already holds every shard"@,
        ),
{
    match node {
        Some(n) => Ok(n.id),
        None => Err(
            HttpError::new(
                409,
                "this is a standalone node, not a cluster member; it already holds every shard",
            ),
        ),
    }
}

/// The answer once this node is cordoned, or no longer.
pub fn cordoned_json(node: u64, cordoned: bool) -> (r: serde_json::Value)
    ensures
        json_of(r) == JsonModel::Object(
            no_fields().insert("ok"@, flag(true)).insert("node"@, whole(node)).insert(
                "cordoned"@,
                flag(cordoned),
            ),
        ),
{
    Fields::new().with_flag("ok", true).with_whole("node", node).with_flag(
        "cordoned",
        cordoned,
    ).done()
}

/// The answer once this node is draining.
pub fn draining_json(node: u64, was_leader: bool) -> (r: serde_json::Value)
    ensures
        json_of(r) == JsonModel::Object(
            no_fields().insert("ok"@, flag(true)).insert("draining"@, flag(true)).insert(
                "node"@,
                whole(node),
            ).insert("was_leader"@, flag(was_leader)),
        ),
{
    Fields::new().with_flag("ok", true).with_flag("draining", true).with_whole(
        "node",
        node,
    ).with_flag("was_leader", was_leader).done()
}

/// The answer once this node gave up leadership, or had none to give up.
pub fn stepped_down_json(node: u64, stepped_down: bool) -> (r: serde_json::Value)
    ensures
        json_of(r) == JsonModel::Object(
            no_fields().insert("ok"@, flag(true)).insert("node"@, whole(node)).insert(
                "stepped_down"@,
                flag(stepped_down),
            ),
        ),
{
    Fields::new().with_flag("ok", true).with_whole("node", node).with_flag(
        "stepped_down",
        stepped_down,
    ).done()
}

/// The answer once a preference is noted.
pub fn preferred_json(node: u64, shards: &Vec<u32>, prefer: bool) -> (r: serde_json::Value)
    ensures
        json_of(r) == JsonModel::Object(
            no_fields().insert("ok"@, flag(true)).insert("node"@, whole(node)).insert(
                "shards"@,
                json_shards(shards@),
            ).insert("prefer"@, flag(prefer)),
        ),
{
    Fields::new().with_flag("ok", true).with_whole("node", node).with(
        "shards",
        shards_to_json(shards),
    ).with_flag("prefer", prefer).done()
}

// ---- shards ------------------------------------------------------------------------------------

/// Maintenance on one shard.
#[derive(Clone, Copy, Debug, PartialEq, Eq, Structural)]
pub enum ShardOp {
    Vacuum,
    Checkpoint,
    Recover,
}

pub open spec fn number32(s: Seq<char>) -> Option<u32> {
    match unsigned_text(s) {
        Some(n) => if n <= u32::MAX {
            Some(n as u32)
        } else {
            None
        },
        None => None,
    }
}

/// What `/v1/shards/{suffix}` asks for.
pub open spec fn shard_operation(suffix: Seq<char>) -> Result<(u32, ShardOp), HttpErrorModel> {
    let (id, op) = match split_at_first(suffix, '/') {
        Some((id, op)) => (id, op),
        None => (suffix, Seq::empty()),
    };
    match number32(id) {
        None => Err(http_error(400, "shard must be a number"@)),
        Some(n) => if op == "vacuum"@ {
            Ok((n, ShardOp::Vacuum))
        } else if op == "checkpoint"@ {
            Ok((n, ShardOp::Checkpoint))
        } else if op == "recover-from-s3"@ {
            Ok((n, ShardOp::Recover))
        } else {
            Err(http_error(404, "no such shard operation"@))
        },
    }
}

/// `POST /v1/shards/{suffix}`.
pub fn plan_shard_op(suffix: &str) -> (r: Result<(u32, ShardOp), HttpError>)
    ensures
        match shard_operation(suffix@) {
            Ok(p) => r == Ok::<(u32, ShardOp), HttpError>(p),
            Err(x) => r matches Err(e) && e@ == x,
        },
{
    let (id, op) = match split_once(suffix, '/') {
        Some((id, op)) => (id, op),
        None => (suffix.to_owned(), String::new()),
    };
    let n: u32 = match parse_u32(id.as_str()) {
        Some(n) => n,
        None => {
            return Err(HttpError::new(400, "shard must be a number"));
        },
    };
    if same(op.as_str(), "vacuum") {
        Ok((n, ShardOp::Vacuum))
    } else if same(op.as_str(), "checkpoint") {
        Ok((n, ShardOp::Checkpoint))
    } else if same(op.as_str(), "recover-from-s3") {
        Ok((n, ShardOp::Recover))
    } else {
        Err(HttpError::new(404, "no such shard operation"))
    }
}

/// `GET /v1/schema/{shard}` and `GET /v1/frames/{shard}`: the shard.
pub fn shard_named(s: &str) -> (r: Result<u32, HttpError>)
    ensures
        match number32(s@) {
            Some(n) => r == Ok::<u32, HttpError>(n),
            None => r matches Err(e) && e@ == http_error(400, "shard must be a number"@),
        },
{
    match parse_u32(s) {
        Some(n) => Ok(n),
        None => Err(HttpError::new(400, "shard must be a number")),
    }
}

/// The answer once a shard is vacuumed.
pub fn vacuumed_json(shard: u32) -> (r: serde_json::Value)
    ensures
        json_of(r) == JsonModel::Object(
            no_fields().insert("ok"@, flag(true)).insert("shard"@, whole(shard as u64)).insert(
                "op"@,
                text("vacuum"@),
            ),
        ),
{
    Fields::new().with_flag("ok", true).with_whole("shard", shard as u64).with_text(
        "op",
        "vacuum",
    ).done()
}

/// The answer to a checkpoint; it is only whole where nothing was busy.
pub fn checkpointed_json(shard: u32, busy: i64, log_pages: i64, checkpointed: i64) -> (r:
    serde_json::Value)
    ensures
        json_of(r) == JsonModel::Object(
            no_fields().insert("ok"@, flag(busy == 0)).insert("shard"@, whole(shard as u64)).insert(
                "op"@,
                text("checkpoint"@),
            ).insert("busy"@, integer(busy)).insert("log_pages"@, integer(log_pages)).insert(
                "checkpointed"@,
                integer(checkpointed),
            ),
        ),
{
    Fields::new().with_flag("ok", busy == 0).with_whole("shard", shard as u64).with_text(
        "op",
        "checkpoint",
    ).with_integer("busy", busy).with_integer("log_pages", log_pages).with_integer(
        "checkpointed",
        checkpointed,
    ).done()
}

/// The answer once a shard is rebuilt from its archive.
pub fn recovered_json(shard: u32, epoch: u64, snapshot_lsn: u64, pages: u64) -> (r:
    serde_json::Value)
    ensures
        json_of(r) == JsonModel::Object(
            no_fields().insert("ok"@, flag(true)).insert("shard"@, whole(shard as u64)).insert(
                "op"@,
                text("recover-from-s3"@),
            ).insert(
                "recovered_from"@,
                JsonModel::Object(
                    no_fields().insert("epoch"@, whole(epoch)).insert(
                        "snapshot_lsn"@,
                        whole(snapshot_lsn),
                    ),
                ),
            ).insert("change_log_pages"@, whole(pages)),
        ),
{
    let from = Fields::new().with_whole("epoch", epoch).with_whole(
        "snapshot_lsn",
        snapshot_lsn,
    ).done();
    Fields::new().with_flag("ok", true).with_whole("shard", shard as u64).with_text(
        "op",
        "recover-from-s3",
    ).with("recovered_from", from).with_whole("change_log_pages", pages).done()
}

/// The refusal where nothing is archived.
pub fn no_archive() -> (r: HttpError)
    ensures
        r@ == http_error(409, "no S3 sink is configured on this node"@),
{
    HttpError::new(409, "no S3 sink is configured on this node")
}

// ---- shard keys --------------------------------------------------------------------------------

/// A letter, a digit or an underscore.
pub open spec fn ident_char(c: char) -> bool {
    ('a' <= c && c <= 'z') || ('A' <= c && c <= 'Z') || ('0' <= c && c <= '9') || c == '_'
}

/// A name of letters, digits and underscores that does not start with a digit.
pub open spec fn simple_ident(s: Seq<char>) -> bool {
    &&& s.len() > 0
    &&& !('0' <= s[0] && s[0] <= '9')
    &&& forall|i: int| 0 <= i < s.len() ==> ident_char(#[trigger] s[i])
}

/// Whether a name can be put into a statement as it is.
pub fn is_simple_ident(s: &str) -> (r: bool)
    ensures
        r == simple_ident(s@),
{
    let chars = chars_of(s);
    if chars.len() == 0 || (chars[0] >= '0' && chars[0] <= '9') {
        return false;
    }
    let mut i: usize = 0;
    while i < chars.len()
        invariant
            i <= chars@.len(),
            chars@ == s@,
            forall|k: int| 0 <= k < i ==> ident_char(#[trigger] chars@[k]),
        decreases chars@.len() - i,
    {
        let c: char = chars[i];
        let fits = (c >= 'a' && c <= 'z') || (c >= 'A' && c <= 'Z') || (c >= '0' && c <= '9') || c
            == '_';
        if !fits {
            assert(!ident_char(s@[i as int]));
            return false;
        }
        i = i + 1;
    }
    true
}

/// The statement that counts the rows of a table.
pub open spec fn count_statement(table: Seq<char>) -> Seq<char> {
    "SELECT count(*) FROM \""@ + table + "\""@
}

/// `POST /v1/shardkey`: the statement that counts the rows of the table, where both names are plain.
pub fn plan_shardkey(table: &str, column: &str) -> (r: Result<String, HttpError>)
    ensures
        if simple_ident(table@) && simple_ident(column@) {
            r matches Ok(sql) && sql@ == count_statement(table@)
        } else {
            r matches Err(e) && e@ == http_error(
                400,
                "table and column must be simple identifiers (letters, digits, underscore)"@,
            )
        },
{
    if !is_simple_ident(table) || !is_simple_ident(column) {
        return Err(
            HttpError::new(
                400,
                "table and column must be simple identifiers (letters, digits, underscore)",
            ),
        );
    }
    let mut sql = "SELECT count(*) FROM \"".to_owned();
    sql.append(table);
    sql.append("\"");
    Ok(sql)
}

/// The sum of the whole numbers at the start of some rows, as far as 64 bits go.
pub open spec fn first_column_sum(rows: Seq<Seq<Datum>>) -> i64
    decreases rows.len(),
{
    if rows.len() == 0 {
        0
    } else {
        let before = first_column_sum(rows.drop_last());
        if rows.last().len() > 0 {
            match rows.last()[0] {
                Datum::Integer(n) => before.wrapping_add(n),
                _ => before,
            }
        } else {
            before
        }
    }
}

fn sum_first_column(rows: &Vec<Vec<DbValue>>) -> (r: i64)
    ensures
        r == first_column_sum(rows_view(rows@)),
{
    let ghost model = rows_view(rows@);
    let mut total: i64 = 0;
    let mut i: usize = 0;
    assert(model.take(0) =~= Seq::empty());
    while i < rows.len()
        invariant
            i <= rows@.len(),
            model == rows_view(rows@),
            total == first_column_sum(model.take(i as int)),
        decreases rows@.len() - i,
    {
        proof {
            assert(model.take(i as int + 1).drop_last() =~= model.take(i as int));
            assert(model.take(i as int + 1).last() == row_view(rows@[i as int]@));
        }
        if rows[i].len() > 0 {
            assert(row_view(rows@[i as int]@)[0] == rows@[i as int]@[0]@);
            match &rows[i][0] {
                DbValue::Integer(n) => {
                    total = total.wrapping_add(*n);
                },
                _ => {},
            }
        }
        i = i + 1;
    }
    assert(model.take(rows@.len() as int) =~= model);
    total
}

pub open spec fn table_not_empty() -> Seq<char> {
    "this table already holds rows; declaring a shard key now would misplace them. Declare it before inserting data."@
}

/// Whether a shard key may be declared, given what counting the rows came to: not for a table that
/// holds any. A table that cannot be counted is taken for one that is not there yet.
pub fn check_shardkey(counted: Option<&QueryResult>) -> (r: Result<(), HttpError>)
    ensures
        refused(r) == (match counted {
            Some(t) => if first_column_sum(t@.rows) > 0 {
                Some(http_error(409, table_not_empty()))
            } else {
                None
            },
            None => None,
        }),
{
    match counted {
        Some(t) => {
            if sum_first_column(&t.rows) > 0 {
                return Err(
                    HttpError::new(
                        409,
                        "this table already holds rows; declaring a shard key now would misplace them. Declare it before inserting data.",
                    ),
                );
            }
            Ok(())
        },
        None => Ok(()),
    }
}

/// The answer once a shard key is declared.
pub fn shardkey_json(table: &str, column: &str) -> (r: serde_json::Value)
    ensures
        json_of(r) == JsonModel::Object(
            no_fields().insert("ok"@, flag(true)).insert("table"@, text(table@)).insert(
                "column"@,
                text(column@),
            ),
        ),
{
    Fields::new().with_flag("ok", true).with_text("table", table).with_text(
        "column",
        column,
    ).done()
}

} // verus!
