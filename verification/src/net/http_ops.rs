//! What the endpoints of the HTTP gateway ask of the node, and what they answer.

use vstd::prelude::*;
use vstd::utf8::encode_utf8;

use super::auth::{
    blake3_of, derive_key, Requirement, requirement, required_by_verb, Role, unknown_role, verb_requirement,
};
use super::console::{flag, text};
use super::http_gateway::{demand, EndpointModel, http_error, HttpError, HttpErrorModel};
use super::json::{
    body_shows, consistency_from, consistency_of, Fields, from_items, from_nothing, json_list,
    json_of, json_text, json_texts, JsonModel, no_fields, print_json, response_json_body,
    response_status, row_shows, row_to_json, statement_from, statement_of, status_of, texts_to_json,
    whole,
};
use super::json_tcp::{bytes_of, columns_json, plain_statement, StreamMsg};
use super::protocol::{
    ReadConsistency, Request, RequestModel, Response, ResponseModel, statements_model,
};
use crate::calls::{goes_on, lemma_added, since, Line};
use crate::error::Error;
use crate::keyword::keyword;
use crate::s3::config::{S3Config, S3Summary};
use crate::s3::sink::{S3SinkStatus, ShardArchive};
use crate::storage::exec::{row_view, rows_view, DbStatement, StatementModel};
use crate::text::{decimal, push_decimal, views};

verus! {

// ---- bodies ------------------------------------------------------------------------------------

/// The body of a statement for one shard.
#[derive(Debug)]
pub struct QueryBody {
    pub shard: u32,
    pub sql: String,
    pub params: Vec<serde_json::Value>,
    pub consistency: Option<serde_json::Value>,
}

/// A statement of a transaction's body.
#[derive(Debug)]
pub struct StmtBody {
    pub sql: String,
    pub params: Vec<serde_json::Value>,
}

pub open spec fn http_statement(sql: Seq<char>, params: Seq<JsonModel>) -> Result<
    StatementModel,
    HttpErrorModel,
> {
    match statement_of(sql, params) {
        Ok(s) => Ok(s),
        Err(m) => Err(http_error(400, m)),
    }
}

pub open spec fn statement_view(r: Result<DbStatement, HttpError>) -> Result<
    StatementModel,
    HttpErrorModel,
> {
    match r {
        Ok(s) => Ok(s@),
        Err(e) => Err(e@),
    }
}

fn to_statement(sql: &str, params: &Vec<serde_json::Value>) -> (r: Result<DbStatement, HttpError>)
    ensures
        statement_view(r) == http_statement(sql@, json_list(params@)),
{
    match statement_from(sql, params) {
        Ok(s) => Ok(s),
        Err(m) => Err(HttpError { status: 400, message: m }),
    }
}

impl QueryBody {
    pub open spec fn asks(&self) -> Result<StatementModel, HttpErrorModel> {
        http_statement(self.sql@, json_list(self.params@))
    }

    pub open spec fn freshness(&self) -> ReadConsistency {
        consistency_of(
            match self.consistency {
                Some(v) => Some(json_of(v)),
                None => None,
            },
        )
    }

    pub fn to_statement(&self) -> (r: Result<DbStatement, HttpError>)
        ensures
            statement_view(r) == self.asks(),
    {
        to_statement(self.sql.as_str(), &self.params)
    }

    pub fn consistency(&self) -> (r: ReadConsistency)
        ensures
            r == self.freshness(),
    {
        match &self.consistency {
            Some(v) => consistency_from(Some(v)),
            None => consistency_from(None),
        }
    }
}

impl StmtBody {
    pub open spec fn asks(&self) -> Result<StatementModel, HttpErrorModel> {
        http_statement(self.sql@, json_list(self.params@))
    }

    pub fn to_statement(&self) -> (r: Result<DbStatement, HttpError>)
        ensures
            statement_view(r) == self.asks(),
    {
        to_statement(self.sql.as_str(), &self.params)
    }
}

// ---- requests ----------------------------------------------------------------------------------

/// What a read of a shard asks of the node.
#[derive(Debug)]
pub enum QueryPlan {
    /// Stream the rows of a shard of this node.
    Stream { shard: u32, statement: DbStatement },
    /// Handle this read of another node's shard, and answer with all its rows at once.
    Remote(Request),
}

pub open spec fn query_plan_is(body: QueryBody, local: bool, r: Result<QueryPlan, HttpError>) -> bool {
    match body.asks() {
        Err(x) => r matches Err(e) && e@ == x,
        Ok(s) => if local {
            r matches Ok(QueryPlan::Stream { shard, statement }) && shard == body.shard && statement@
                == s
        } else {
            r matches Ok(QueryPlan::Remote(q)) && q.model() == (RequestModel::Query {
                shard: body.shard,
                statement: s,
                consistency: body.freshness(),
            })
        },
    }
}

/// `POST /v1/query`, given whether the shard is this node's.
pub fn plan_query(body: &QueryBody, local: bool) -> (r: Result<QueryPlan, HttpError>)
    ensures
        query_plan_is(*body, local, r),
{
    match body.to_statement() {
        Ok(statement) => if local {
            Ok(QueryPlan::Stream { shard: body.shard, statement })
        } else {
            Ok(
                QueryPlan::Remote(
                    Request::Query {
                        shard: body.shard,
                        statement,
                        consistency: body.consistency(),
                    },
                ),
            )
        },
        Err(e) => Err(e),
    }
}

/// `POST /v1/query_all`.
pub fn query_all_request(sql: &str) -> (r: Request)
    ensures
        r.model() == (RequestModel::QueryAll { statement: plain_statement(sql@) }),
{
    Request::QueryAll { statement: DbStatement::new(sql) }
}

/// `POST /v1/run`: the request, and what it demands of its caller.
pub fn run_request(sql: &str) -> (r: (Request, Requirement))
    ensures
        r.0.model() == (RequestModel::Run { statement: plain_statement(sql@) }),
        r.1 == verb_requirement(keyword(sql@)),
{
    (Request::Run { statement: DbStatement::new(sql) }, required_by_verb(sql))
}

/// `POST /v1/execute`.
pub fn execute_request(body: &QueryBody) -> (r: Result<Request, HttpError>)
    ensures
        match body.asks() {
            Ok(s) => r matches Ok(q) && q.model() == (RequestModel::Execute {
                shard: body.shard,
                statements: seq![s],
            }),
            Err(x) => r matches Err(e) && e@ == x,
        },
{
    match body.to_statement() {
        Ok(s) => {
            let ghost model = s@;
            let mut one: Vec<DbStatement> = Vec::new();
            one.push(s);
            assert(statements_model(one@) =~= seq![model]);
            Ok(Request::Execute { shard: body.shard, statements: one })
        },
        Err(e) => Err(e),
    }
}

/// The first `n` statements of a transaction, or the refusal of the first that has a bad parameter.
pub open spec fn tx_statements(bodies: Seq<StmtBody>, n: nat) -> Result<
    Seq<StatementModel>,
    HttpErrorModel,
>
    decreases n,
{
    if n == 0 || n > bodies.len() {
        Ok(Seq::empty())
    } else {
        match tx_statements(bodies, (n - 1) as nat) {
            Err(e) => Err(e),
            Ok(done) => match bodies[n - 1].asks() {
                Ok(s) => Ok(done.push(s)),
                Err(e) => Err(e),
            },
        }
    }
}

proof fn lemma_tx_stop(bodies: Seq<StmtBody>, n: nat, m: nat)
    requires
        n <= m <= bodies.len(),
        tx_statements(bodies, n) is Err,
    ensures
        tx_statements(bodies, m) == tx_statements(bodies, n),
    decreases m,
{
    if n < m {
        lemma_tx_stop(bodies, n, (m - 1) as nat);
    }
}

/// `POST /v1/tx`.
pub fn tx_request(shard: u32, bodies: &Vec<StmtBody>) -> (r: Result<Request, HttpError>)
    ensures
        match tx_statements(bodies@, bodies@.len()) {
            Ok(statements) => r matches Ok(q) && q.model() == (RequestModel::Transaction {
                shard,
                statements,
            }),
            Err(x) => r matches Err(e) && e@ == x,
        },
{
    let mut out: Vec<DbStatement> = Vec::with_capacity(bodies.len());
    let mut i: usize = 0;
    assert(statements_model(out@) =~= Seq::empty());
    while i < bodies.len()
        invariant
            i <= bodies@.len(),
            tx_statements(bodies@, i as nat) == Ok::<Seq<StatementModel>, HttpErrorModel>(
                statements_model(out@),
            ),
        decreases bodies@.len() - i,
    {
        let ghost before = out@;
        match bodies[i].to_statement() {
            Ok(s) => {
                let ghost d = s@;
                out.push(s);
                assert(statements_model(out@) =~= statements_model(before).push(d));
            },
            Err(e) => {
                proof {
                    lemma_tx_stop(bodies@, (i + 1) as nat, bodies@.len());
                }
                return Err(e);
            },
        }
        i = i + 1;
    }
    Ok(Request::Transaction { shard, statements: out })
}

/// `POST /v1/execute_all`.
pub fn execute_all_request(sql: &str) -> (r: Request)
    ensures
        r.model() == (RequestModel::ExecuteAll { statement: plain_statement(sql@) }),
{
    Request::ExecuteAll { statement: DbStatement::new(sql) }
}

/// `POST /v1/route`.
pub fn route_request(key: &str) -> (r: Request)
    ensures
        r.model() == (RequestModel::Route { key: encode_utf8(key@) }),
{
    Request::Route { key: bytes_of(key) }
}

/// `POST /v1/users`. The key is derived here, so the secret goes no further.
pub fn create_user_request(name: &str, secret: &str, role: &str) -> (r: Result<Request, HttpError>)
    ensures
        match Role::named(role@) {
            Some(parsed) => r matches Ok(q) && q.model() == (RequestModel::CreateUser {
                name: name@,
                key: blake3_of(encode_utf8(secret@)),
                role: parsed,
            }),
            None => r matches Err(e) && e@ == http_error(400, unknown_role(role@)),
        },
{
    match Role::parse(role) {
        Ok(parsed) => Ok(
            Request::CreateUser { name: name.to_owned(), key: derive_key(secret), role: parsed },
        ),
        Err(e) => Err(HttpError { status: 400, message: e.to_text() }),
    }
}

// ---- answers -----------------------------------------------------------------------------------

/// A response as a status and a body. `show` gives the JSON of the double with some bits.
pub fn response_to_http<R: Fn(u64) -> serde_json::Value>(resp: Response, show: &R) -> (r: (
    u16,
    serde_json::Value,
))
    requires
        forall|bits: u64| #[trigger] call_requires(*show, (bits,)),
    ensures
        r.0 == status_of(resp@),
        body_shows(*show, resp@, json_of(r.1)),
{
    let status: u16 = response_status(&resp);
    (status, response_json_body(resp, show))
}

/// Whether these are the lines of a result that is answered at once: its columns and its rows, or
/// else its body.
pub open spec fn lines_show<R: Fn(u64) -> serde_json::Value>(
    show: R,
    resp: ResponseModel,
    out: Seq<JsonModel>,
) -> bool {
    match resp {
        ResponseModel::Rows { columns, rows } => {
            &&& out.len() == rows.len() + 1
            &&& out[0] == columns_json(columns)
            &&& forall|i: int|
                0 <= i < rows.len() ==> row_shows(show, #[trigger] rows[i], out[i + 1])
        },
        other => out == seq![super::json::body_of(other)],
    }
}

/// The lines of a result that is answered at once, in the shape of one that is streamed.
pub fn result_lines<R: Fn(u64) -> serde_json::Value>(resp: Response, show: &R) -> (r: Vec<
    serde_json::Value,
>)
    requires
        forall|bits: u64| #[trigger] call_requires(*show, (bits,)),
    ensures
        lines_show(*show, resp@, json_list(r@)),
{
    let mut out: Vec<serde_json::Value> = Vec::new();
    let ghost model = resp@;
    match resp {
        Response::Rows { columns, rows } => {
            out.push(Fields::new().with("columns", texts_to_json(&columns)).done());
            let mut i: usize = 0;
            while i < rows.len()
                invariant
                    i <= rows@.len(),
                    out@.len() == i + 1,
                    json_of(out@[0]) == columns_json(views(columns@)),
                    forall|bits: u64| #[trigger] call_requires(*show, (bits,)),
                    forall|k: int|
                        0 <= k < i ==> row_shows(
                            *show,
                            row_view((#[trigger] rows@[k])@),
                            json_of(out@[k + 1]),
                        ),
                decreases rows@.len() - i,
            {
                out.push(row_to_json(&rows[i], show));
                i = i + 1;
            }
            proof {
                let lines = json_list(out@);
                assert(lines[0] == json_of(out@[0]));
                assert forall|k: int| 0 <= k < rows@.len() implies row_shows(
                    *show,
                    #[trigger] rows_view(rows@)[k],
                    lines[k + 1],
                ) by {
                    assert(rows_view(rows@)[k] == row_view(rows@[k]@));
                    assert(lines[k + 1] == json_of(out@[k + 1]));
                }
            }
            out
        },
        other => {
            out.push(response_json_body(other, show));
            assert(json_list(out@) =~= seq![super::json::body_of(model)]);
            out
        },
    }
}

/// Some values, each printed on a line of its own.
pub open spec fn line_bytes(values: Seq<JsonModel>) -> Seq<u8>
    decreases values.len(),
{
    if values.len() == 0 {
        Seq::empty()
    } else {
        line_bytes(values.drop_last()) + encode_utf8(json_text(values.last())) + seq![10u8]
    }
}

/// Prints some values, each on a line of its own.
pub fn print_lines(values: &Vec<serde_json::Value>) -> (r: Vec<u8>)
    ensures
        r@ == line_bytes(json_list(values@)),
{
    let ghost model = json_list(values@);
    let mut out: Vec<u8> = Vec::new();
    let mut i: usize = 0;
    assert(model.take(0) =~= Seq::empty());
    while i < values.len()
        invariant
            i <= values@.len(),
            model == json_list(values@),
            out@ == line_bytes(model.take(i as int)),
        decreases values@.len() - i,
    {
        let ghost before = out@;
        let shown = print_json(&values[i]);
        let mut line = bytes_of(shown.as_str());
        let ghost printed = line@;
        out.append(&mut line);
        out.push(10);
        proof {
            assert(model.take(i as int + 1).drop_last() =~= model.take(i as int));
            assert(model.take(i as int + 1).last() == json_of(values@[i as int]));
            assert(out@ =~= before + printed + seq![10u8]);
        }
        i = i + 1;
    }
    assert(model.take(values@.len() as int) =~= model);
    out
}

/// Whether this is the line of a message of a streamed result; the last message has none.
pub open spec fn line_shows<R: Fn(u64) -> serde_json::Value>(
    show: R,
    msg: StreamMsg,
    j: Option<JsonModel>,
) -> bool {
    match msg {
        StreamMsg::Columns(c) => j == Some(columns_json(views(c@))),
        StreamMsg::Row(row) => j is Some && row_shows(show, row_view(row@), j->0),
        StreamMsg::Failed(m) => j == Some(super::http_gateway::complaint_json(m@)),
        StreamMsg::Done => j is None,
    }
}

/// The line of a message of a streamed result, and whether it is the last one. The status is sent
/// by then, so a failure is a line of its own.
pub fn stream_line<R: Fn(u64) -> serde_json::Value>(msg: &StreamMsg, show: &R) -> (r: (
    Option<serde_json::Value>,
    bool,
))
    requires
        forall|bits: u64| #[trigger] call_requires(*show, (bits,)),
    ensures
        line_shows(
            *show,
            *msg,
            match r.0 {
                Some(v) => Some(json_of(v)),
                None => None,
            },
        ),
        r.1 == (*msg is Done || *msg is Failed),
{
    match msg {
        StreamMsg::Columns(c) => (
            Some(Fields::new().with("columns", texts_to_json(c)).done()),
            false,
        ),
        StreamMsg::Row(row) => (Some(row_to_json(row, show)), false),
        StreamMsg::Failed(m) => (
            Some(Fields::new().with_text("error", m.as_str()).done()),
            true,
        ),
        StreamMsg::Done => (None, true),
    }
}

// ---- archival ----------------------------------------------------------------------------------

/// The body that configures archival.
#[derive(Debug)]
pub struct ArchiveBody {
    pub enabled: Option<bool>,
    pub bucket: Option<String>,
    pub endpoint: Option<String>,
    pub region: Option<String>,
    pub access_key: Option<String>,
    pub secret_key: Option<String>,
    pub prefix: Option<String>,
}

/// What configuring archival comes to.
#[derive(Debug)]
pub enum ArchivePlan {
    /// Archive no more.
    Detach,
    /// Archive to this bucket, under this prefix.
    Attach { config: S3Config, prefix: String },
}

pub open spec fn not_capture_ready() -> Seq<char> {
    "this node is not capture-ready: start it with --s3-ready (or --s3-bucket) so committed frames are captured, then configure the S3 target"@
}

pub open spec fn region_of(b: ArchiveBody) -> Seq<char> {
    match b.region {
        Some(r) => r@,
        None => "us-east-1"@,
    }
}

pub open spec fn endpoint_named(b: ArchiveBody) -> Seq<char> {
    match b.endpoint {
        Some(e) => e@,
        None => "https://s3."@ + region_of(b) + ".amazonaws.com"@,
    }
}

/// Whether this is what configuring archival comes to: frames have to be captured already, a bucket
/// and both keys have to be named, and what else is missing has a usual value.
pub open spec fn archive_plan_is(
    b: ArchiveBody,
    capturing: bool,
    r: Result<ArchivePlan, HttpError>,
) -> bool {
    if b.enabled == Some(false) {
        r matches Ok(p) && p is Detach
    } else if !capturing {
        r matches Err(e) && e@ == http_error(409, not_capture_ready())
    } else if b.bucket is None {
        r matches Err(e) && e@ == http_error(400, "bucket is required"@)
    } else if b.access_key is None {
        r matches Err(e) && e@ == http_error(400, "access_key is required"@)
    } else if b.secret_key is None {
        r matches Err(e) && e@ == http_error(400, "secret_key is required"@)
    } else {
        r matches Ok(ArchivePlan::Attach { config, prefix }) && {
            &&& config.bucket@ == b.bucket->0@
            &&& config.region@ == region_of(b)
            &&& config.endpoint@ == endpoint_named(b)
            &&& config.access_key@ == b.access_key->0@
            &&& config.secret_key@ == b.secret_key->0@
            &&& prefix@ == (match b.prefix {
                Some(p) => p@,
                None => "shardlite"@,
            })
        }
    }
}

/// `POST /v1/s3/config`: attaches, reconfigures or detaches archival at run time.
pub fn archive_plan(b: ArchiveBody, capturing: bool) -> (r: Result<ArchivePlan, HttpError>)
    ensures
        archive_plan_is(b, capturing, r),
{
    let off = match b.enabled {
        Some(on) => !on,
        None => false,
    };
    if off {
        return Ok(ArchivePlan::Detach);
    }
    if !capturing {
        return Err(
            HttpError::new(
                409,
                "this node is not capture-ready: start it with --s3-ready (or --s3-bucket) so committed frames are captured, then configure the S3 target",
            ),
        );
    }
    let bucket = match b.bucket {
        Some(s) => s,
        None => {
            return Err(HttpError::new(400, "bucket is required"));
        },
    };
    let region = match b.region {
        Some(s) => s,
        None => "us-east-1".to_owned(),
    };
    let endpoint = match b.endpoint {
        Some(s) => s,
        None => {
            let mut s = "https://s3.".to_owned();
            s.append(region.as_str());
            s.append(".amazonaws.com");
            s
        },
    };
    let access_key = match b.access_key {
        Some(s) => s,
        None => {
            return Err(HttpError::new(400, "access_key is required"));
        },
    };
    let secret_key = match b.secret_key {
        Some(s) => s,
        None => {
            return Err(HttpError::new(400, "secret_key is required"));
        },
    };
    let prefix = match b.prefix {
        Some(s) => s,
        None => "shardlite".to_owned(),
    };
    Ok(
        ArchivePlan::Attach {
            config: S3Config { endpoint, bucket, region, access_key, secret_key },
            prefix,
        },
    )
}

pub open spec fn summary_view(s: Option<S3Summary>) -> JsonModel {
    match s {
        None => JsonModel::Null,
        Some(s) => JsonModel::Object(
            no_fields().insert("bucket"@, text(s.bucket@)).insert(
                "endpoint"@,
                text(s.endpoint@),
            ).insert("region"@, text(s.region@)).insert("prefix"@, text(s.prefix@)),
        ),
    }
}

/// Where frames are archived, as JSON.
pub fn summary_json(s: &Option<S3Summary>) -> (r: serde_json::Value)
    ensures
        json_of(r) == summary_view(*s),
{
    match s {
        None => from_nothing(),
        Some(s) => Fields::new().with_text("bucket", s.bucket.as_str()).with_text(
            "endpoint",
            s.endpoint.as_str(),
        ).with_text("region", s.region.as_str()).with_text("prefix", s.prefix.as_str()).done(),
    }
}

/// The answer once archival is detached.
pub fn detached_json() -> (r: serde_json::Value)
    ensures
        json_of(r) == JsonModel::Object(
            no_fields().insert("ok"@, flag(true)).insert("configured"@, flag(false)),
        ),
{
    Fields::new().with_flag("ok", true).with_flag("configured", false).done()
}

/// The answer once archival is attached.
pub fn attached_json(s: &Option<S3Summary>) -> (r: serde_json::Value)
    ensures
        json_of(r) == JsonModel::Object(
            no_fields().insert("ok"@, flag(true)).insert("configured"@, flag(true)).insert(
                "summary"@,
                summary_view(*s),
            ),
        ),
{
    Fields::new().with_flag("ok", true).with_flag("configured", true).with(
        "summary",
        summary_json(s),
    ).done()
}

/// What trying to take a snapshot of a shard came to.
#[derive(Debug)]
pub enum SnapshotTry {
    /// It is no shard of this node.
    Skipped,
    /// It was taken and could not be read back: the reason.
    Unreadable(String),
    /// Here it is.
    Taken { epoch: u64, lsn: u64, bytes: Vec<u8> },
}

/// What became of a shard: nothing, a snapshot, or an error.
pub ghost enum ShardSnapshot {
    Skipped,
    Stored,
    Failed(Seq<char>),
}

pub open spec fn shard_error(shard: u32, what: Seq<char>) -> Seq<char> {
    "shard "@ + decimal(shard as nat) + ": "@ + what
}

/// A snapshot to be archived.
#[derive(Debug)]
pub struct Archived {
    pub shard: u32,
    pub epoch: u64,
    pub lsn: u64,
    pub bytes: Vec<u8>,
}

/// The snapshots that were tried, by their shards, and what came of it.
pub type TakeRecord = Seq<(u32, SnapshotTry)>;

/// The snapshots that were archived, and what came of it.
pub type ArchiveRecord = Seq<(Archived, Result<(), Error>)>;

/// What became of each shard whose snapshot was tried, where exactly the snapshots that were taken
/// were archived, in order; `None` where others were.
pub open spec fn snapshot_outcomes(takes: TakeRecord, puts: ArchiveRecord) -> Option<
    Seq<ShardSnapshot>,
>
    decreases takes.len(),
{
    if takes.len() == 0 {
        if puts.len() == 0 {
            Some(Seq::empty())
        } else {
            None
        }
    } else {
        let shard = takes.last().0;
        match takes.last().1 {
            SnapshotTry::Skipped => with_outcome(
                snapshot_outcomes(takes.drop_last(), puts),
                ShardSnapshot::Skipped,
            ),
            SnapshotTry::Unreadable(why) => with_outcome(
                snapshot_outcomes(takes.drop_last(), puts),
                ShardSnapshot::Failed(shard_error(shard, "reading snapshot: "@ + why@)),
            ),
            SnapshotTry::Taken { epoch, lsn, bytes } => if puts.len() > 0 && puts.last().0 == (
            Archived { shard, epoch, lsn, bytes }) {
                with_outcome(
                    snapshot_outcomes(takes.drop_last(), puts.drop_last()),
                    match puts.last().1 {
                        Ok(_) => ShardSnapshot::Stored,
                        Err(e) => ShardSnapshot::Failed(shard_error(shard, e@.message())),
                    },
                )
            } else {
                None
            },
        }
    }
}

pub open spec fn with_outcome(all: Option<Seq<ShardSnapshot>>, outcome: ShardSnapshot) -> Option<
    Seq<ShardSnapshot>,
> {
    match all {
        Some(v) => Some(v.push(outcome)),
        None => None,
    }
}

/// Whether the shards from 0 on were tried, one after the other.
pub open spec fn in_turn(takes: TakeRecord) -> bool {
    forall|i: int| 0 <= i < takes.len() ==> (#[trigger] takes[i]).0 == i
}

pub open spec fn stored_count(outcomes: Seq<ShardSnapshot>) -> nat
    decreases outcomes.len(),
{
    if outcomes.len() == 0 {
        0
    } else {
        stored_count(outcomes.drop_last()) + (if outcomes.last() is Stored {
            1nat
        } else {
            0nat
        })
    }
}

pub open spec fn failures(outcomes: Seq<ShardSnapshot>) -> Seq<Seq<char>>
    decreases outcomes.len(),
{
    if outcomes.len() == 0 {
        Seq::empty()
    } else {
        match outcomes.last() {
            ShardSnapshot::Failed(m) => failures(outcomes.drop_last()).push(m),
            _ => failures(outcomes.drop_last()),
        }
    }
}

pub open spec fn snapshots_view(outcomes: Seq<ShardSnapshot>) -> JsonModel {
    JsonModel::Object(
        no_fields().insert("ok"@, flag(failures(outcomes).len() == 0)).insert(
            "snapshotted"@,
            whole(stored_count(outcomes) as u64),
        ).insert("errors"@, json_texts(failures(outcomes))),
    )
}

fn snapshot_error(shard: u32, prefix: &str, why: &str) -> (r: String)
    ensures
        r@ == shard_error(shard, prefix@ + why@),
{
    let mut m = "shard ".to_owned();
    push_decimal(&mut m, shard as u64);
    m.append(": ");
    m.append(prefix);
    m.append(why);
    assert(m@ =~= shard_error(shard, prefix@ + why@));
    m
}

/// `POST /v1/s3/snapshot`: archives a snapshot of every shard of this node; a shard that fails does
/// not keep the others from theirs. `take` takes one, `put` archives it.
#[verifier::loop_isolation(false)]
pub fn snapshot_all<T: Fn(u32) -> SnapshotTry, P: Fn(Archived) -> Result<(), Error>>(
    shard_count: u32,
    take: &mut Line<u32, SnapshotTry, T>,
    put: &mut Line<Archived, Result<(), Error>, P>,
) -> (r: serde_json::Value)
    requires
        forall|n: u32| n < shard_count ==> #[trigger] call_requires(old(take).far(), (n,)),
        forall|a: Archived| #[trigger] call_requires(old(put).far(), (a,)),
    ensures
        final(take).far() == old(take).far(),
        final(put).far() == old(put).far(),
        goes_on(old(take).record(), final(take).record()),
        goes_on(old(put).record(), final(put).record()),
        since(old(take).record(), final(take).record()).len() == shard_count,
        in_turn(since(old(take).record(), final(take).record())),
        match snapshot_outcomes(
            since(old(take).record(), final(take).record()),
            since(old(put).record(), final(put).record()),
        ) {
            Some(outcomes) => json_of(r) == snapshots_view(outcomes),
            None => false,
        },
{
    let ghost (t0, p0) = (take.record(), put.record());
    let ghost (tf, pf) = (take.far(), put.far());
    let ghost mut takes: TakeRecord = Seq::empty();
    let ghost mut puts: ArchiveRecord = Seq::empty();
    let ghost mut outcomes: Seq<ShardSnapshot> = Seq::empty();
    let mut stored: u64 = 0;
    let mut errors: Vec<String> = Vec::new();
    let mut s: u32 = 0;
    assert(views(errors@) =~= failures(outcomes));
    assert(t0 + takes =~= t0);
    assert(p0 + puts =~= p0);
    while s < shard_count
        invariant
            s <= shard_count,
            take.far() == tf,
            put.far() == pf,
            take.record() == t0 + takes,
            put.record() == p0 + puts,
            takes.len() == s,
            in_turn(takes),
            snapshot_outcomes(takes, puts) == Some(outcomes),
            outcomes.len() == s,
            stored == stored_count(outcomes),
            stored <= s,
            views(errors@) == failures(outcomes),
        decreases shard_count - s,
    {
        let ghost before = outcomes;
        let ghost told = errors@;
        let ghost (had, sent) = (takes, puts);
        let tried = take.ask(s);
        proof {
            takes = had.push((s, tried));
            assert(take.record() =~= t0 + takes);
            assert(takes.drop_last() =~= had);
        }
        match tried {
            SnapshotTry::Skipped => {
                proof {
                    outcomes = before.push(ShardSnapshot::Skipped);
                }
            },
            SnapshotTry::Unreadable(why) => {
                let m = snapshot_error(s, "reading snapshot: ", why.as_str());
                proof {
                    outcomes = before.push(ShardSnapshot::Failed(m@));
                }
                errors.push(m);
            },
            SnapshotTry::Taken { epoch, lsn, bytes } => {
                let snapshot = Archived { shard: s, epoch, lsn, bytes };
                let ghost handed = snapshot;
                let done = put.ask(snapshot);
                proof {
                    puts = sent.push((handed, done));
                    assert(put.record() =~= p0 + puts);
                    assert(puts.drop_last() =~= sent);
                }
                match done {
                    Ok(_) => {
                        stored = stored + 1;
                        proof {
                            outcomes = before.push(ShardSnapshot::Stored);
                        }
                    },
                    Err(e) => {
                        let why = e.to_text();
                        let m = snapshot_error(s, "", why.as_str());
                        proof {
                            reveal_strlit("");
                            assert(""@ + why@ =~= why@);
                            outcomes = before.push(ShardSnapshot::Failed(m@));
                        }
                        errors.push(m);
                    },
                }
            },
        }
        proof {
            assert(outcomes.drop_last() =~= before);
            assert(views(errors@) =~= failures(outcomes));
        }
        s = s + 1;
    }
    proof {
        lemma_added(t0, takes);
        lemma_added(p0, puts);
    }
    let clean = errors.len() == 0;
    assert(views(errors@).len() == errors@.len());
    let r = Fields::new().with_flag("ok", clean).with_whole("snapshotted", stored).with(
        "errors",
        texts_to_json(&errors),
    ).done();
    assert(json_of(r) == snapshots_view(outcomes));
    r
}

// ---- archival status ---------------------------------------------------------------------------

pub open spec fn archive_view(a: ShardArchive) -> JsonModel {
    JsonModel::Object(
        no_fields().insert("shard"@, whole(a.shard as u64)).insert(
            "last_snapshot_epoch"@,
            whole(a.last_snapshot_epoch),
        ).insert("last_snapshot_lsn"@, whole(a.last_snapshot_lsn)).insert(
            "last_snapshot_ms"@,
            whole(a.last_snapshot_ms),
        ).insert("last_archived_lsn"@, whole(a.last_archived_lsn)),
    )
}

fn archives_json(v: &Vec<ShardArchive>) -> (r: serde_json::Value)
    ensures
        json_of(r) == JsonModel::List(v@.map_values(|a: ShardArchive| archive_view(a))),
{
    let ghost model = v@.map_values(|a: ShardArchive| archive_view(a));
    let mut items: Vec<serde_json::Value> = Vec::with_capacity(v.len());
    let mut i: usize = 0;
    while i < v.len()
        invariant
            i <= v@.len(),
            model == v@.map_values(|a: ShardArchive| archive_view(a)),
            json_list(items@) =~= model.take(i as int),
        decreases v@.len() - i,
    {
        let ghost before = items@;
        let a = v[i];
        items.push(
            Fields::new().with_whole("shard", a.shard as u64).with_whole(
                "last_snapshot_epoch",
                a.last_snapshot_epoch,
            ).with_whole("last_snapshot_lsn", a.last_snapshot_lsn).with_whole(
                "last_snapshot_ms",
                a.last_snapshot_ms,
            ).with_whole("last_archived_lsn", a.last_archived_lsn).done(),
        );
        assert(json_list(items@) =~= json_list(before).push(model[i as int]));
        i = i + 1;
    }
    assert(model.take(v@.len() as int) =~= model);
    from_items(items)
}

/// The view of archival: whether it is possible, where it goes, how it is, and how far it has got.
pub open spec fn archival_view(
    capturing: bool,
    summary: Option<S3Summary>,
    status: Option<S3SinkStatus>,
) -> JsonModel {
    JsonModel::Object(
        no_fields().insert("supported"@, flag(true)).insert("capture_ready"@, flag(capturing)).insert(
            "configured"@,
            flag(summary is Some),
        ).insert("summary"@, summary_view(summary)).insert(
            "health"@,
            match status {
                Some(s) => flag(s.healthy),
                None => JsonModel::Null,
            },
        ).insert(
            "last_error"@,
            match status {
                Some(s) => match s.last_error {
                    Some(m) => text(m@),
                    None => JsonModel::Null,
                },
                None => JsonModel::Null,
            },
        ).insert(
            "shards"@,
            match status {
                Some(s) => JsonModel::List(s.shards@.map_values(|a: ShardArchive| archive_view(a))),
                None => JsonModel::Null,
            },
        ),
    )
}

/// `GET /v1/s3/status`, given where frames are archived to and how that goes, if they are.
pub fn archival_json(
    capturing: bool,
    summary: &Option<S3Summary>,
    status: &Option<S3SinkStatus>,
) -> (r: serde_json::Value)
    ensures
        json_of(r) == archival_view(capturing, *summary, *status),
{
    let f = Fields::new().with_flag("supported", true).with_flag("capture_ready", capturing).with_flag(
        "configured",
        summary.is_some(),
    ).with("summary", summary_json(summary));
    match status {
        Some(s) => {
            let f = f.with_flag("health", s.healthy);
            let f = match &s.last_error {
                Some(m) => f.with_text("last_error", m.as_str()),
                None => f.with("last_error", from_nothing()),
            };
            f.with("shards", archives_json(&s.shards)).done()
        },
        None => f.with("health", from_nothing()).with("last_error", from_nothing()).with(
            "shards",
            from_nothing(),
        ).done(),
    }
}

// ---- laws --------------------------------------------------------------------------------------

/// Whether an endpoint hands a request of this kind to the node.
pub open spec fn hands(e: EndpointModel, q: RequestModel) -> bool {
    match e {
        EndpointModel::Query => q is Query,
        EndpointModel::QueryAll => q is QueryAll,
        EndpointModel::Execute => q is Execute,
        EndpointModel::Tx => q is Transaction,
        EndpointModel::ExecuteAll => q is ExecuteAll,
        EndpointModel::Route => q is Route,
        EndpointModel::ListUsers => q is ListUsers,
        EndpointModel::CreateUser => q is CreateUser,
        EndpointModel::DropUser { .. } => q is DropUser,
        _ => false,
    }
}

/// The gateway demands of a caller what a native connection demands for the same request.
pub proof fn law_gateway_agrees_on_demands(e: EndpointModel, q: RequestModel)
    requires
        hands(e, q),
    ensures
        demand(e) == Some(requirement(q)),
{
}

} // verus!
