//! How the JSON gateways read requests and write answers, in plain terms.

use vstd::arithmetic::div_mod::{lemma_fundamental_div_mod_converse, lemma_small_mod};
use vstd::prelude::*;
use vstd::utf8::{decode_utf8, encode_utf8, valid_utf8};

use super::auth::{blake3_of, Requirement, Role, UserModel};
use super::base64::{base64_of, bits_left, byte_at, decoded, sextet, sextets_value, two_to};
use super::http_gateway::{
    allowed, caller, credentials_of, delete_endpoint, demand, endpoint_of, get_endpoint, past,
    path_of, post_endpoint, under, EndpointModel, HttpError, HttpErrorModel, Method,
};
use super::http_ops::{
    failures, http_statement, line_bytes, line_shows, lines_show, query_plan_is, snapshot_outcomes,
    stored_count, tx_statements, ArchiveRecord, Archived, QueryBody, QueryPlan, ShardSnapshot,
    SnapshotTry, StmtBody, TakeRecord,
};
use super::json::{
    body_of, consistency_of, field_of, integer, integer_of, json_text, json_texts, param, params_of, row_shows,
    rows_show, status_of, table_shows, value_shows, whole, JsonModel,
};
use super::json_tcp::{
    error_json, fault_status, frame_step, items_at, message_shows, query_step, relayed, request_of,
    role_of, row_frame_shows,
    shard_at, statement_at, statements_at, text_at, JsonGate, JsonStepModel, StreamMsg,
};
use super::protocol::{ReadConsistency, RequestModel, ResponseModel};
use crate::error::{Error, ErrorModel};
use crate::lines::{find_from, split_at_first, trimmed};
use crate::storage::exec::{row_view, Datum, StatementModel};
use crate::text::views;

verus! {

// ---- values ------------------------------------------------------------------------------------

/// What is shown of NULL, an integer or a text is read back as a parameter. A blob is shown as the
/// list of its bytes.
pub proof fn law_values_read_back<R: Fn(u64) -> serde_json::Value>(
    show: R,
    d: Datum,
    j: JsonModel,
    i: int,
)
    requires
        value_shows(show, d, j),
    ensures
        d is Null || d is Integer || d is Text ==> param(j) == Some(d),
        d matches Datum::Blob(b) ==> (j matches JsonModel::List(items) && items.len() == b.len() && (0
            <= i < b.len() ==> items[i] == whole(b[i] as u64))),
{
}

/// A parameter is NULL, a truth value as 0 or 1, an integer, a text, or a double; a list or an object
/// is none.
pub proof fn law_what_parameters_are(b: bool, n: u64, s: Seq<char>, v: JsonModel)
    ensures
        param(JsonModel::Null) == Some(Datum::Null),
        b ==> param(JsonModel::Bool(b)) == Some(Datum::Integer(1)),
        !b ==> param(JsonModel::Bool(b)) == Some(Datum::Integer(0)),
        n <= i64::MAX ==> param(whole(n)) == Some(Datum::Integer(n as i64)),
        n > i64::MAX ==> (param(whole(n)) matches Some(Datum::Real(_))),
        param(JsonModel::Text(s)) == Some(Datum::Text(s)),
        v is List || v is Object ==> param(v) is None,
        integer_of(whole(n)) is Some <==> n <= i64::MAX,
{
}

/// Parameters are taken one by one, in order, and one that is none refuses them all.
pub proof fn law_parameters_in_order(vals: Seq<JsonModel>, v: JsonModel)
    ensures
        params_of(Seq::<JsonModel>::empty(), 0) == Ok::<Seq<Datum>, Seq<char>>(Seq::empty()),
        params_of(vals, vals.len()) matches Ok(done) ==> (param(v) matches Some(d) ==> params_of(
            vals.push(v),
            vals.len() + 1,
        ) == Ok::<Seq<Datum>, Seq<char>>(done.push(d))),
        param(v) is None || params_of(vals, vals.len()) is Err ==> params_of(
            vals.push(v),
            vals.len() + 1,
        ) is Err,
{
    lemma_params(vals, vals.push(v), vals.len());
    assert(vals.push(v)[vals.len() as int] == v);
}

proof fn lemma_params(vals: Seq<JsonModel>, more: Seq<JsonModel>, n: nat)
    requires
        n <= vals.len(),
        vals.len() <= more.len(),
        forall|i: int| 0 <= i < vals.len() ==> #[trigger] more[i] == vals[i],
    ensures
        params_of(more, n) == params_of(vals, n),
    decreases n,
{
    if n > 0 {
        lemma_params(vals, more, (n - 1) as nat);
        assert(more[n - 1] == vals[n - 1]);
    }
}

/// The freshness that a client asks for: any copy where it says `"stale"`, a position where it gives
/// one, and otherwise the strongest.
pub proof fn law_freshness(s: Seq<char>, lsn: u64, fields: Map<Seq<char>, JsonModel>)
    ensures
        consistency_of(None) == ReadConsistency::Linearizable,
        consistency_of(Some(JsonModel::Text("stale"@))) == ReadConsistency::Stale,
        s != "stale"@ ==> consistency_of(Some(JsonModel::Text(s))) == ReadConsistency::Linearizable,
        fields.dom().contains("at_least_lsn"@) && fields["at_least_lsn"@] == whole(lsn)
            ==> consistency_of(Some(JsonModel::Object(fields))) == ReadConsistency::AtLeastLsn(lsn),
        !fields.dom().contains("at_least_lsn"@) ==> consistency_of(Some(JsonModel::Object(fields)))
            == ReadConsistency::Linearizable,
{
}

/// Rows are shown as a list of lists, one for each row, in order, with one item for each value.
pub proof fn law_rows_are_shown<R: Fn(u64) -> serde_json::Value>(
    show: R,
    rows: Seq<Seq<Datum>>,
    j: JsonModel,
    i: int,
    k: int,
)
    requires
        rows_show(show, rows, j),
    ensures
        j matches JsonModel::List(lists) && lists.len() == rows.len() && (0 <= i < rows.len() ==> (
        lists[i] matches JsonModel::List(items) && items.len() == rows[i].len() && (0 <= k
            < rows[i].len() ==> value_shows(show, rows[i][k], items[k])))),
{
    if let JsonModel::List(lists) = j {
        if 0 <= i < rows.len() {
            assert(row_shows(show, rows[i], lists[i]));
        }
    }
}

proof fn lemma_field_names()
    ensures
        "rows_affected"@ != "last_insert_rowid"@,
        "error"@ != "retryable"@,
        "error"@ != "rejected"@,
        "error"@ != "shard"@,
        "error"@ != "have"@,
        "error"@ != "need"@,
        "shard"@ != "have"@,
        "shard"@ != "need"@,
        "have"@ != "need"@,
        "shard"@ != "version"@,
        "columns"@ != "rows"@,
        "error"@ != "status"@,
        "ok"@ != "error"@,
{
    reveal_strlit("rows_affected");
    reveal_strlit("last_insert_rowid");
    reveal_strlit("error");
    reveal_strlit("retryable");
    reveal_strlit("rejected");
    reveal_strlit("shard");
    reveal_strlit("have");
    reveal_strlit("need");
    reveal_strlit("version");
    reveal_strlit("columns");
    reveal_strlit("rows");
    reveal_strlit("status");
    reveal_strlit("ok");
    assert("rows_affected"@[0] == 'r' && "last_insert_rowid"@[0] == 'l');
    assert("error"@[0] == 'e' && "retryable"@[0] == 'r' && "rejected"@[0] == 'r');
    assert("shard"@[0] == 's' && "have"@[0] == 'h' && "need"@[0] == 'n');
    assert("version"@[0] == 'v' && "columns"@[0] == 'c' && "rows"@[0] == 'r');
    assert("status"@[0] == 's' && "ok"@[0] == 'o');
}

/// What the body of an answer says, field by field.
pub proof fn law_what_answers_say<R: Fn(u64) -> serde_json::Value>(
    show: R,
    changed: u64,
    rowid: i64,
    shard: u32,
    have: u64,
    need: u64,
    message: Seq<char>,
    retryable: bool,
    columns: Seq<Seq<char>>,
    rows: Seq<Seq<Datum>>,
    j: JsonModel,
)
    ensures
        ({
            let b = body_of(
                ResponseModel::Changed { rows_affected: changed, last_insert_rowid: rowid },
            );
            &&& field_of(b, "rows_affected"@) == Some(whole(changed))
            &&& field_of(b, "last_insert_rowid"@) == Some(integer(rowid))
        }),
        ({
            let b = body_of(ResponseModel::TooStale { shard, have, need });
            &&& field_of(b, "shard"@) == Some(whole(shard as u64))
            &&& field_of(b, "have"@) == Some(whole(have))
            &&& field_of(b, "need"@) == Some(whole(need))
            &&& field_of(b, "error"@) is Some
        }),
        ({
            let b = body_of(ResponseModel::Error { message, retryable });
            &&& field_of(b, "error"@) == Some(JsonModel::Text(message))
            &&& field_of(b, "retryable"@) == Some(JsonModel::Bool(retryable))
        }),
        ({
            let b = body_of(ResponseModel::Rejected { message });
            &&& field_of(b, "error"@) == Some(JsonModel::Text(message))
            &&& field_of(b, "rejected"@) == Some(JsonModel::Bool(true))
        }),
        field_of(body_of(ResponseModel::Routed { shard }), "shard"@) == Some(whole(shard as u64)),
        field_of(body_of(ResponseModel::Done), "ok"@) == Some(JsonModel::Bool(true)),
        table_shows(show, columns, rows, j) ==> (field_of(j, "rows"@) matches Some(shown)
            && rows_show(show, rows, shown)) && field_of(j, "columns"@) is Some,
{
    lemma_field_names();
}

/// What status an answer has: what was rejected is the sender's fault, what is stale is a conflict,
/// backpressure may be tried again, and everything that is no failure is fine.
pub proof fn law_statuses(r: ResponseModel, message: Seq<char>)
    ensures
        r is Rejected ==> status_of(r) == 400,
        r is TooStale ==> status_of(r) == 409,
        status_of(ResponseModel::Error { message, retryable: true }) == 503,
        status_of(ResponseModel::Error { message, retryable: false }) >= 400 && status_of(
            ResponseModel::Error { message, retryable: false },
        ) < 500,
        !(r is Rejected || r is TooStale || r is Error) ==> status_of(r) == 200,
{
}

/// What status a failure has.
pub proof fn law_fault_statuses(e: ErrorModel)
    ensures
        e is WriterBusy || e is ReaderPoolBusy || e is TooManyConnections <==> fault_status(e) == 503,
        e is NotLeader <==> fault_status(e) == 409,
        e is Unsupported <==> fault_status(e) == 400,
        fault_status(e) == 503 || fault_status(e) == 409 || fault_status(e) == 400 || fault_status(e)
            == 500,
{
}

// ---- operations --------------------------------------------------------------------------------

proof fn lemma_operations()
    ensures
        "query_all"@ != "run"@,
        "query_all"@ != "execute"@,
        "query_all"@ != "tx"@,
        "query_all"@ != "execute_all"@,
        "query_all"@ != "route"@,
        "query_all"@ != "list_users"@,
        "query_all"@ != "create_user"@,
        "query_all"@ != "drop_user"@,
        "run"@ != "execute"@,
        "run"@ != "tx"@,
        "run"@ != "execute_all"@,
        "run"@ != "route"@,
        "run"@ != "list_users"@,
        "run"@ != "create_user"@,
        "run"@ != "drop_user"@,
        "execute"@ != "tx"@,
        "execute"@ != "execute_all"@,
        "execute"@ != "route"@,
        "execute"@ != "list_users"@,
        "execute"@ != "create_user"@,
        "execute"@ != "drop_user"@,
        "tx"@ != "execute_all"@,
        "tx"@ != "route"@,
        "tx"@ != "list_users"@,
        "tx"@ != "create_user"@,
        "tx"@ != "drop_user"@,
        "execute_all"@ != "route"@,
        "execute_all"@ != "list_users"@,
        "execute_all"@ != "create_user"@,
        "execute_all"@ != "drop_user"@,
        "route"@ != "list_users"@,
        "route"@ != "create_user"@,
        "route"@ != "drop_user"@,
        "list_users"@ != "create_user"@,
        "list_users"@ != "drop_user"@,
        "create_user"@ != "drop_user"@,
{
    reveal_strlit("query_all");
    reveal_strlit("run");
    reveal_strlit("execute");
    reveal_strlit("tx");
    reveal_strlit("execute_all");
    reveal_strlit("route");
    reveal_strlit("list_users");
    reveal_strlit("create_user");
    reveal_strlit("drop_user");
    assert("query_all"@[0] == 'q' && "run"@[1] == 'u' && "execute"@[0] == 'e');
    assert("tx"@[0] == 't' && "execute_all"@[0] == 'e' && "route"@[1] == 'o');
    assert("list_users"@[0] == 'l' && "create_user"@[0] == 'c' && "drop_user"@[0] == 'd');
    assert("run"@[0] == 'r' && "route"@[0] == 'r');
    assert("execute"@.len() == 7 && "execute_all"@.len() == 11);
}

/// What the operations ask for: each stands for its request, with the shard, the statements and the
/// names of its frame.
pub proof fn law_what_operations_ask_for(f: JsonModel, s: StatementModel)
    ensures
        request_of("query_all"@, f) matches Ok(r) && (r.0 matches RequestModel::QueryAll { statement }
            && statement.sql == text_at(f, "sql"@) && statement.params.len() == 0) && r.1
            == Requirement::Read,
        request_of("execute_all"@, f) matches Ok(r) && (r.0 matches RequestModel::ExecuteAll {
            statement,
        } && statement.sql == text_at(f, "sql"@)) && r.1 == Requirement::Admin,
        request_of("route"@, f) matches Ok(r) && r.0 == (RequestModel::Route {
            key: encode_utf8(text_at(f, "key"@)),
        }) && r.1 == Requirement::Read,
        request_of("list_users"@, f) matches Ok(r) && r.0 == RequestModel::ListUsers && r.1
            == Requirement::Admin,
        request_of("drop_user"@, f) matches Ok(r) && r.0 == (RequestModel::DropUser {
            name: text_at(f, "name"@),
        }) && r.1 == Requirement::Admin,
        statement_at(f) == Ok::<StatementModel, Seq<char>>(s) ==> (request_of("execute"@, f) matches
            Ok(r) && r.0 == (RequestModel::Execute { shard: shard_at(f), statements: seq![s] }) && r.1
            == Requirement::Write),
        statement_at(f) == Ok::<StatementModel, Seq<char>>(s) ==> (request_of("run"@, f) matches Ok(r)
            && r.0 == (RequestModel::Run { statement: s })),
        request_of("tx"@, f) matches Ok(r) ==> (r.0 matches RequestModel::Transaction { shard, .. }
            && shard == shard_at(f)) && r.1 == Requirement::Write,
        Role::named(text_at(f, "role"@)) matches Some(role) ==> (request_of(
            "create_user"@,
            f,
        ) matches Ok(r) && r.0 == (RequestModel::CreateUser {
            name: text_at(f, "name"@),
            key: blake3_of(encode_utf8(text_at(f, "secret"@))),
            role,
        }) && r.1 == Requirement::Admin),
{
    lemma_operations();
}

/// The shard, the text and the list of a frame are those of its fields, and 0 or empty where it has
/// none.
pub proof fn law_fields_of_a_frame(
    fields: Map<Seq<char>, JsonModel>,
    key: Seq<char>,
    s: Seq<char>,
    items: Seq<JsonModel>,
    n: u32,
)
    ensures
        fields.dom().contains(key) && fields[key] == JsonModel::Text(s) ==> text_at(
            JsonModel::Object(fields),
            key,
        ) == s,
        !fields.dom().contains(key) ==> text_at(JsonModel::Object(fields), key).len() == 0
            && items_at(JsonModel::Object(fields), key).len() == 0,
        fields.dom().contains(key) && fields[key] == JsonModel::List(items) ==> items_at(
            JsonModel::Object(fields),
            key,
        ) == items,
        fields.dom().contains("shard"@) && fields["shard"@] == whole(n as u64) ==> shard_at(
            JsonModel::Object(fields),
        ) == n,
        !fields.dom().contains("shard"@) ==> shard_at(JsonModel::Object(fields)) == 0,
{
}

/// A read over the JSON gateway is streamed where the shard is this node's, and asked of its owner,
/// as fresh as can be, where it is not.
pub proof fn law_reads_are_streamed_or_relayed(
    f: JsonModel,
    router: super::forward::Router,
    s: StatementModel,
)
    requires
        statement_at(f) == Ok::<StatementModel, Seq<char>>(s),
    ensures
        query_step(f, None) == (JsonStepModel::Stream { shard: shard_at(f), statement: s }),
        router.membership().owners@.dom().contains(shard_at(f))
            && router.membership().owners@[shard_at(f)] != router.membership().id ==> query_step(
            f,
            Some(router),
        ) == JsonStepModel::Relay(
            RequestModel::Query {
                shard: shard_at(f),
                statement: s,
                consistency: ReadConsistency::Linearizable,
            },
        ),
        router.membership().owners@.dom().contains(shard_at(f))
            && router.membership().owners@[shard_at(f)] == router.membership().id ==> query_step(
            f,
            Some(router),
        ) == (JsonStepModel::Stream { shard: shard_at(f), statement: s }),
{
}

/// A right name and secret give the role of that user, and a wrong one closes the connection.
pub proof fn law_json_proofs(
    gate: JsonGate,
    f: JsonModel,
    users: Seq<UserModel>,
    router: Option<super::forward::Router>,
    nonce: Option<Seq<u8>>,
)
    requires
        text_at(f, "op"@) == "auth"@,
    ensures
        ({
            let role = role_of(users, text_at(f, "name"@), text_at(f, "secret"@), nonce);
            let out = frame_step(gate, f, users, router, nonce);
            &&& role matches Some(r) ==> out.0 == JsonGate::Authed(r) && out.1 is Answer
            &&& role is None ==> out.0 == gate && out.1 is Close
        }),
        nonce is None ==> role_of(
            users,
            text_at(f, "name"@),
            text_at(f, "secret"@),
            nonce,
        ) is None,
{
}

/// A secret is right where its key is the user's: then the user's role is given.
pub proof fn law_the_right_secret_gives_the_role(
    users: Seq<UserModel>,
    user: UserModel,
    secret: Seq<char>,
    nonce: Seq<u8>,
)
    requires
        super::auth::user_named(users, user.name) == Some(user),
        user.key == blake3_of(encode_utf8(secret)),
    ensures
        role_of(users, user.name, secret, Some(nonce)) == Some(user.role),
{
}

/// A result that another node gave is sent on whole: its columns, every row in order, and an end;
/// anything else as one error.
pub proof fn law_results_are_sent_on_whole<R: Fn(u64) -> serde_json::Value>(
    show: R,
    columns: Seq<Seq<char>>,
    rows: Seq<Seq<Datum>>,
    frames: Seq<JsonModel>,
    lines: Seq<JsonModel>,
    i: int,
)
    ensures
        relayed(show, ResponseModel::Rows { columns, rows }, frames) ==> {
            &&& frames.len() == rows.len() + 2
            &&& field_of(frames[0], "columns"@) == Some(json_texts(columns))
            &&& field_of(frames.last(), "end"@) == Some(JsonModel::Bool(true))
            &&& 0 <= i < rows.len() ==> (field_of(frames[i + 1], "row"@) matches Some(cells)
                && row_shows(show, rows[i], cells))
        },
        lines_show(show, ResponseModel::Rows { columns, rows }, lines) ==> {
            &&& lines.len() == rows.len() + 1
            &&& field_of(lines[0], "columns"@) == Some(json_texts(columns))
            &&& 0 <= i < rows.len() ==> row_shows(show, rows[i], lines[i + 1])
        },
{
    if relayed(show, ResponseModel::Rows { columns, rows }, frames) && 0 <= i < rows.len() {
        assert(row_frame_shows(show, rows[i], frames[i + 1]));
    }
    if lines_show(show, ResponseModel::Rows { columns, rows }, lines) && 0 <= i < rows.len() {
        assert(row_shows(show, rows[i], lines[i + 1]));
    }
}

/// What is streamed is sent on as it comes: the columns, each row with its values, the end, and an
/// error with what is wrong.
pub proof fn law_streams_are_sent_on<R: Fn(u64) -> serde_json::Value>(
    show: R,
    msg: StreamMsg,
    frame: JsonModel,
    line: Option<JsonModel>,
)
    requires
        message_shows(show, msg, frame),
        line_shows(show, msg, line),
    ensures
        msg matches StreamMsg::Columns(c) ==> field_of(frame, "columns"@) == Some(
            json_texts(views(c@)),
        ) && line == Some(frame),
        msg matches StreamMsg::Row(row) ==> (field_of(frame, "row"@) matches Some(cells) && row_shows(
            show,
            row_view(row@),
            cells,
        )) && line is Some && row_shows(show, row_view(row@), line->0),
        msg is Done ==> field_of(frame, "end"@) == Some(JsonModel::Bool(true)) && line is None,
        msg matches StreamMsg::Failed(m) ==> field_of(frame, "error"@) == Some(JsonModel::Text(m@))
            && line is Some && field_of(line->0, "error"@) == Some(JsonModel::Text(m@)),
{
    lemma_field_names();
}

/// A frame of an error says what is wrong and with which status.
pub proof fn law_error_frames(status: u16, message: Seq<char>)
    ensures
        field_of(error_json(status, message), "error"@) == Some(JsonModel::Text(message)),
        field_of(error_json(status, message), "status"@) == Some(whole(status as u64)),
{
    lemma_field_names();
}

// ---- HTTP --------------------------------------------------------------------------------------

proof fn lemma_find(s: Seq<char>, c: char, i: int, at: int)
    requires
        0 <= i <= at < s.len(),
        s[at] == c,
        forall|k: int| 0 <= k < at ==> (#[trigger] s[k]) != c,
    ensures
        find_from(s, c, i) == at,
    decreases at - i,
{
    if i < at {
        assert(s[i] != c);
        lemma_find(s, c, i + 1, at);
    }
}

/// What follows a question mark does not change where a request goes.
pub proof fn law_queries_do_not_route(method: Method, path: Seq<char>, query: Seq<char>)
    requires
        forall|i: int| 0 <= i < path.len() ==> (#[trigger] path[i]) != '?',
    ensures
        path_of(path + seq!['?'] + query) == path,
        path_of(path) == path,
        endpoint_of(method, path + seq!['?'] + query) == endpoint_of(method, path),
{
    let url = path + seq!['?'] + query;
    assert forall|k: int| 0 <= k < path.len() implies (#[trigger] url[k]) != '?' by {
        assert(url[k] == path[k]);
    }
    assert(url[path.len() as int] == '?');
    lemma_find(url, '?', 0, path.len() as int);
    assert(url.subrange(0, path.len() as int) =~= path);
    lemma_not_found(path, '?', 0);
}

proof fn lemma_not_found(s: Seq<char>, c: char, i: int)
    requires
        0 <= i,
        forall|k: int| 0 <= k < s.len() ==> (#[trigger] s[k]) != c,
    ensures
        split_at_first(s, c) is None,
    decreases s.len() - i,
{
    lemma_not_found_from(s, c, 0);
}

proof fn lemma_not_found_from(s: Seq<char>, c: char, i: int)
    requires
        0 <= i <= s.len(),
        forall|k: int| 0 <= k < s.len() ==> (#[trigger] s[k]) != c,
    ensures
        find_from(s, c, i) >= s.len() || find_from(s, c, i) < 0,
    decreases s.len() - i,
{
    if i < s.len() {
        assert(s[i] != c);
        lemma_not_found_from(s, c, i + 1);
    }
}

/// What the parts of the gateway demand: to look is for readers, to write for writers, and to change
/// users, schemas, shards, the archive or the cluster for administrators.
pub proof fn law_what_endpoints_demand(e: EndpointModel)
    ensures
        e is Query || e is QueryAll || e is Explain || e is Route || e is Info || e is Health || e
            is Stats || e is Shards || e is Config || e is Cluster || e is Catalog || e is Schema
            ==> demand(e) == Some(Requirement::Read),
        e is Execute || e is Tx ==> demand(e) == Some(Requirement::Write),
        e is ExecuteAll || e is ListUsers || e is CreateUser || e is DropUser || e is ArchiveConfig
            || e is ArchiveSnapshot || e is ArchiveFlush || e is Drain || e is Rebalance || e
            is Voters || e is Member || e is Cordon || e is StepDown || e is Prefer || e is ShardKey
            || e is ShardOp || e is Frames ==> demand(e) == Some(Requirement::Admin),
{
}

/// Where users are configured, a caller is let through exactly where they have a role that permits
/// it: without a role they are asked to authenticate, and with too small a one they are refused.
pub proof fn law_who_is_let_through(role: Role, need: Requirement)
    ensures
        allowed(false, None, need) is Ok,
        allowed(true, None, need) matches Err(e) && e.status == 401,
        allowed(true, Some(role), need) is Ok <==> role.may(need),
        !role.may(need) ==> (allowed(true, Some(role), need) matches Err(e) && e.status == 403),
{
}

/// Who a caller is: nobody where there are no users, and otherwise the user whose name and secret the
/// header carries. Without a header, or with a wrong secret, they are refused.
pub proof fn law_who_is_calling(
    users: Seq<UserModel>,
    header: &str,
    nonce: [u8; 32],
    name: Seq<char>,
    secret: Seq<char>,
)
    ensures
        users.len() == 0 ==> caller(users, Some(header), Ok(nonce)) matches Ok(None),
        users.len() > 0 ==> (caller(users, None, Ok(nonce)) matches Err(e) && e.error.status == 401),
        users.len() > 0 && credentials_of(header@) == Some((name, secret)) && role_of(
            users,
            name,
            secret,
            Some(nonce@),
        ) is Some ==> caller(users, Some(header), Ok(nonce)) == Ok::<
            Option<Role>,
            super::http_gateway::RefusalModel,
        >(role_of(users, name, secret, Some(nonce@))),
        users.len() > 0 && credentials_of(header@) == Some((name, secret)) && role_of(
            users,
            name,
            secret,
            Some(nonce@),
        ) is None ==> (caller(users, Some(header), Ok(nonce)) matches Err(e) && e.error.status == 401),
{
}

/// A header carries the base64 of a name and a secret with a colon between them.
pub proof fn law_credentials(value: Seq<char>, b64: Seq<char>, bytes: Seq<u8>)
    requires
        value == "Basic "@ + b64,
        base64_of(trimmed(b64)) == Some(bytes),
        valid_utf8(bytes),
    ensures
        credentials_of(value) == split_at_first(decode_utf8(bytes), ':'),
{
    assert(value.subrange(0, "Basic "@.len() as int) =~= "Basic "@);
    assert(value.subrange("Basic "@.len() as int, value.len() as int) =~= b64);
}

/// The alphabet of base64.
pub proof fn law_base64_alphabet(c: u8)
    ensures
        'A' <= c as char <= 'Z' ==> sextet(c) == Some((c - 65) as u8),
        'a' <= c as char <= 'z' ==> sextet(c) == Some((c - 71) as u8),
        '0' <= c as char <= '9' ==> sextet(c) == Some((c + 4) as u8),
        c as char == '+' ==> sextet(c) == Some(62u8),
        c as char == '/' ==> sextet(c) == Some(63u8),
        c as char == '-' || c as char == '_' || c as char == '=' ==> sextet(c) is None,
        sextet(c) matches Some(v) ==> v < 64,
{
}

proof fn lemma_sextets(w: int, x: int, y: int, z: int)
    requires
        0 <= w < 64,
        0 <= x < 64,
        0 <= y < 64,
        0 <= z < 64,
    ensures
        ((w * 64 + x) / 16) % 256 == w * 4 + x / 16,
        ((w * 4096 + x * 64 + y) / 4) % 256 == (x % 16) * 16 + y / 4,
        (w * 262144 + x * 4096 + y * 64 + z) % 256 == (y % 4) * 64 + z,
{
    let (q, r) = (x / 16, x % 16);
    assert(x == q * 16 + r && 0 <= r < 16 && 0 <= q < 4);
    lemma_fundamental_div_mod_converse(w * 64 + x, 16, w * 4 + q, r);
    lemma_small_mod((w * 4 + q) as nat, 256);
    let (p, t) = (y / 4, y % 4);
    assert(y == p * 4 + t && 0 <= t < 4 && 0 <= p < 16);
    lemma_fundamental_div_mod_converse(w * 4096 + x * 64 + y, 4, w * 1024 + x * 16 + p, t);
    lemma_fundamental_div_mod_converse(w * 1024 + x * 16 + p, 256, w * 4 + q, r * 16 + p);
    lemma_fundamental_div_mod_converse(
        w * 262144 + x * 4096 + y * 64 + z,
        256,
        w * 1024 + x * 16 + p,
        t * 64 + z,
    );
}

/// Four characters of base64 hold three bytes, six bits each from the top.
pub proof fn law_base64_groups(s: Seq<u8>, a: u8, b: u8, c: u8, d: u8)
    requires
        s.len() == 4,
        sextet(s[0]) == Some(a) && sextet(s[1]) == Some(b) && sextet(s[2]) == Some(c) && sextet(s[3])
            == Some(d),
    ensures
        decoded(s, 4).len() == 3,
        decoded(s, 4)[0] == a * 4 + b / 16,
        decoded(s, 4)[1] == (b % 16) * 16 + c / 4,
        decoded(s, 4)[2] == (c % 4) * 64 + d,
{
    law_base64_alphabet(s[0]);
    law_base64_alphabet(s[1]);
    law_base64_alphabet(s[2]);
    law_base64_alphabet(s[3]);
    let (w, x, y, z) = (a as int, b as int, c as int, d as int);
    lemma_sextets(w, x, y, z);
    assert(sextets_value(s, 0) == 0);
    assert(sextets_value(s, 1) == w);
    assert(sextets_value(s, 2) == w * 64 + x);
    assert(sextets_value(s, 3) == w * 4096 + x * 64 + y);
    assert(sextets_value(s, 4) == w * 262144 + x * 4096 + y * 64 + z);
    assert(two_to(0) == 1);
    assert(two_to(1) == 2);
    assert(two_to(2) == 4);
    assert(two_to(3) == 8);
    assert(two_to(4) == 16);
    assert(bits_left(0) == 0 && bits_left(1) == 6 && bits_left(2) == 4 && bits_left(3) == 2
        && bits_left(4) == 0);
    assert(byte_at(s, 2) == w * 4 + x / 16);
    assert(byte_at(s, 3) == (x % 16) * 16 + y / 4);
    assert(byte_at(s, 4) == (y % 4) * 64 + z);
    assert(decoded(s, 0).len() == 0);
    assert(decoded(s, 1) == decoded(s, 0));
    assert(decoded(s, 2) == decoded(s, 1).push(byte_at(s, 2)));
    assert(decoded(s, 3) == decoded(s, 2).push(byte_at(s, 3)));
    assert(decoded(s, 4) == decoded(s, 3).push(byte_at(s, 4)));
}

// ---- snapshots of all shards -------------------------------------------------------------------

/// Of the snapshots that were tried, those that were stored are counted, and every failure is told.
pub proof fn law_snapshots_are_counted(
    outcomes: Seq<ShardSnapshot>,
    one: ShardSnapshot,
    message: Seq<char>,
)
    ensures
        one is Stored ==> stored_count(outcomes.push(one)) == stored_count(outcomes) + 1,
        !(one is Stored) ==> stored_count(outcomes.push(one)) == stored_count(outcomes),
        failures(outcomes.push(ShardSnapshot::Failed(message))) == failures(outcomes).push(message),
        !(one is Failed) ==> failures(outcomes.push(one)) == failures(outcomes),
        failures(Seq::<ShardSnapshot>::empty()).len() == 0,
        stored_count(Seq::<ShardSnapshot>::empty()) == 0,
{
    assert(outcomes.push(one).drop_last() =~= outcomes);
    assert(outcomes.push(ShardSnapshot::Failed(message)).drop_last() =~= outcomes);
}

proof fn lemma_outcomes(takes: TakeRecord, puts: ArchiveRecord, k: int)
    requires
        snapshot_outcomes(takes, puts) is Some,
        0 <= k < takes.len(),
    ensures
        ({
            let out = snapshot_outcomes(takes, puts)->0;
            &&& out.len() == takes.len()
            &&& takes[k].1 is Skipped <==> out[k] is Skipped
            &&& takes[k].1 is Unreadable ==> out[k] is Failed
            &&& takes[k].1 matches SnapshotTry::Taken { epoch, lsn, bytes } ==> exists|j: int|
                0 <= j < puts.len() && (#[trigger] puts[j]).0 == (Archived {
                    shard: takes[k].0,
                    epoch,
                    lsn,
                    bytes,
                }) && (out[k] is Stored <==> puts[j].1 is Ok)
        }),
    decreases takes.len(),
{
    let before = takes.drop_last();
    if k < takes.len() - 1 {
        assert(before[k] == takes[k]);
        match takes.last().1 {
            SnapshotTry::Taken { .. } => {
                let fewer = puts.drop_last();
                lemma_outcomes(before, fewer, k);
                if let SnapshotTry::Taken { epoch, lsn, bytes } = takes[k].1 {
                    let out = snapshot_outcomes(takes, puts)->0;
                    let j = choose|j: int|
                        0 <= j < fewer.len() && (#[trigger] fewer[j]).0 == (Archived {
                            shard: takes[k].0,
                            epoch,
                            lsn,
                            bytes,
                        }) && (out[k] is Stored <==> fewer[j].1 is Ok);
                    assert(puts[j] == fewer[j]);
                }
            },
            _ => {
                lemma_outcomes(before, puts, k);
            },
        }
    } else {
        lemma_outcome_count(takes, puts);
        if takes[k].1 is Taken {
            assert(puts[puts.len() - 1] == puts.last());
        }
    }
}

proof fn lemma_outcome_count(takes: TakeRecord, puts: ArchiveRecord)
    requires
        snapshot_outcomes(takes, puts) is Some,
    ensures
        (snapshot_outcomes(takes, puts)->0).len() == takes.len(),
    decreases takes.len(),
{
    if takes.len() > 0 {
        match takes.last().1 {
            SnapshotTry::Taken { .. } => {
                lemma_outcome_count(takes.drop_last(), puts.drop_last());
            },
            _ => {
                lemma_outcome_count(takes.drop_last(), puts);
            },
        }
    }
}

/// What became of a shard's snapshot: one that was taken was archived as it was, and counts as stored
/// exactly where that succeeded; one that could not be read failed; a shard of another node is
/// skipped.
pub proof fn law_what_became_of_a_snapshot(takes: TakeRecord, puts: ArchiveRecord, k: int)
    requires
        snapshot_outcomes(takes, puts) is Some,
        0 <= k < takes.len(),
    ensures
        ({
            let out = snapshot_outcomes(takes, puts)->0;
            &&& out.len() == takes.len()
            &&& takes[k].1 is Skipped <==> out[k] is Skipped
            &&& takes[k].1 is Unreadable ==> out[k] is Failed
            &&& takes[k].1 matches SnapshotTry::Taken { epoch, lsn, bytes } ==> exists|j: int|
                0 <= j < puts.len() && (#[trigger] puts[j]).0 == (Archived {
                    shard: takes[k].0,
                    epoch,
                    lsn,
                    bytes,
                }) && (out[k] is Stored <==> puts[j].1 is Ok)
        }),
{
    lemma_outcomes(takes, puts, k);
}

// ---- statements over HTTP ----------------------------------------------------------------------

proof fn lemma_tx_statements(bodies: Seq<StmtBody>, n: nat, k: int)
    requires
        n <= bodies.len(),
    ensures
        tx_statements(bodies, n) matches Ok(all) ==> all.len() == n && (0 <= k < n ==> bodies[k].asks()
            == Ok::<StatementModel, HttpErrorModel>(all[k])),
        tx_statements(bodies, n) matches Err(e) ==> exists|i: int|
            0 <= i < n && (#[trigger] bodies[i]).asks() == Err::<StatementModel, HttpErrorModel>(e),
    decreases n,
{
    if n > 0 {
        lemma_tx_statements(bodies, (n - 1) as nat, k);
        if let Err(e) = tx_statements(bodies, (n - 1) as nat) {
            let i = choose|i: int|
                0 <= i < n - 1 && (#[trigger] bodies[i]).asks() == Err::<
                    StatementModel,
                    HttpErrorModel,
                >(e);
            assert(bodies[i].asks() is Err);
        } else if tx_statements(bodies, n) is Err {
            assert(bodies[n - 1].asks() is Err);
        }
    }
}

/// A transaction over HTTP is all its statements in order, or none where one of them cannot be
/// read.
pub proof fn law_transactions_over_http(bodies: Seq<StmtBody>, k: int)
    requires
        0 <= k < bodies.len(),
    ensures
        tx_statements(bodies, bodies.len()) is Ok <==> forall|i: int|
            0 <= i < bodies.len() ==> (#[trigger] bodies[i]).asks() is Ok,
        tx_statements(bodies, bodies.len()) matches Ok(all) ==> all.len() == bodies.len()
            && bodies[k].asks() == Ok::<StatementModel, HttpErrorModel>(all[k]),
{
    lemma_tx_statements(bodies, bodies.len(), k);
    if tx_statements(bodies, bodies.len()) is Ok {
        assert forall|i: int| 0 <= i < bodies.len() implies (#[trigger] bodies[i]).asks() is Ok by {
            lemma_tx_statements(bodies, bodies.len(), i);
        }
    }
}

/// A statement over HTTP is its text with its parameters; parameters that cannot be read are a bad
/// request.
pub proof fn law_statements_over_http(sql: Seq<char>, params: Seq<JsonModel>)
    ensures
        params_of(params, params.len()) matches Ok(row) ==> http_statement(sql, params) == Ok::<
            StatementModel,
            HttpErrorModel,
        >(StatementModel { sql, params: row }),
        params_of(params, params.len()) is Err ==> (http_statement(sql, params) matches Err(e)
            && e.status == 400),
{
}

/// A read over HTTP is of the shard that it names, with the statement that it names. It is streamed
/// where the shard is here, and asked of another node with the freshness that the body wants.
pub proof fn law_reads_over_http(body: QueryBody, local: bool, r: Result<QueryPlan, HttpError>)
    requires
        query_plan_is(body, local, r),
    ensures
        r is Ok <==> body.asks() is Ok,
        r matches Ok(QueryPlan::Stream { shard, statement }) ==> local && shard == body.shard
            && body.asks() == Ok::<StatementModel, HttpErrorModel>(statement@),
        r matches Ok(QueryPlan::Remote(q)) ==> !local && (q.model() matches RequestModel::Query {
            shard,
            statement,
            consistency,
        } && shard == body.shard && body.asks() == Ok::<StatementModel, HttpErrorModel>(statement)
            && consistency == body.freshness()),
{
}

/// Streamed values stand one on a line.
pub proof fn law_lines_are_ended(values: Seq<JsonModel>, v: JsonModel)
    ensures
        line_bytes(values.push(v)) == line_bytes(values) + encode_utf8(json_text(v)) + seq![10u8],
        line_bytes(Seq::<JsonModel>::empty()).len() == 0,
{
    assert(values.push(v).drop_last() =~= values);
}

/// Which path asks for what with `POST`: no two paths ask for the same, and no path for two things.
pub proof fn law_what_posts_ask_for(p: Seq<char>)
    ensures
        post_endpoint(p) is Query <==> p == "/v1/query"@,
        post_endpoint(p) is QueryAll <==> p == "/v1/query_all"@,
        post_endpoint(p) is Explain <==> p == "/v1/explain"@,
        post_endpoint(p) is Run <==> p == "/v1/run"@,
        post_endpoint(p) is Execute <==> p == "/v1/execute"@,
        post_endpoint(p) is Tx <==> p == "/v1/tx"@,
        post_endpoint(p) is ExecuteAll <==> p == "/v1/execute_all"@,
        post_endpoint(p) is Route <==> p == "/v1/route"@,
        post_endpoint(p) is ArchiveConfig <==> p == "/v1/s3/config"@,
        post_endpoint(p) is ArchiveSnapshot <==> p == "/v1/s3/snapshot"@,
        post_endpoint(p) is ArchiveFlush <==> p == "/v1/s3/flush"@,
        post_endpoint(p) is Drain <==> p == "/v1/cluster/drain"@,
        post_endpoint(p) is Rebalance <==> p == "/v1/cluster/rebalance"@,
        post_endpoint(p) is Voters <==> p == "/v1/cluster/voters"@,
        post_endpoint(p) is Cordon <==> p == "/v1/cluster/cordon"@,
        post_endpoint(p) is StepDown <==> p == "/v1/cluster/step-down"@,
        post_endpoint(p) is Prefer <==> p == "/v1/cluster/prefer"@,
        post_endpoint(p) is ShardKey <==> p == "/v1/shardkey"@,
        post_endpoint(p) is CreateUser <==> p == "/v1/users"@,
        post_endpoint(p) matches EndpointModel::Member { suffix, remove } ==> !remove && under(
            p,
            "/v1/cluster/members/"@,
        ) && suffix == past(p, "/v1/cluster/members/"@),
        post_endpoint(p) matches EndpointModel::ShardOp { suffix } ==> under(p, "/v1/shards/"@) && suffix
            == past(p, "/v1/shards/"@),
{
    reveal_strlit("/v1/query");
    reveal_strlit("/v1/query_all");
    reveal_strlit("/v1/explain");
    reveal_strlit("/v1/run");
    reveal_strlit("/v1/execute");
    reveal_strlit("/v1/tx");
    reveal_strlit("/v1/execute_all");
    reveal_strlit("/v1/route");
    reveal_strlit("/v1/s3/config");
    reveal_strlit("/v1/s3/snapshot");
    reveal_strlit("/v1/s3/flush");
    reveal_strlit("/v1/cluster/drain");
    reveal_strlit("/v1/cluster/rebalance");
    reveal_strlit("/v1/cluster/voters");
    reveal_strlit("/v1/cluster/cordon");
    reveal_strlit("/v1/cluster/step-down");
    reveal_strlit("/v1/cluster/prefer");
    reveal_strlit("/v1/shardkey");
    reveal_strlit("/v1/users");
    reveal_strlit("/v1/cluster/members/");
    reveal_strlit("/v1/shards/");
    assert("/v1/query"@.len() == 9);
    assert("/v1/query_all"@.len() == 13);
    assert("/v1/explain"@.len() == 11);
    assert("/v1/run"@.len() == 7);
    assert("/v1/execute"@.len() == 11);
    assert("/v1/tx"@.len() == 6);
    assert("/v1/execute_all"@.len() == 15);
    assert("/v1/route"@.len() == 9);
    assert("/v1/s3/config"@.len() == 13);
    assert("/v1/s3/snapshot"@.len() == 15);
    assert("/v1/s3/flush"@.len() == 12);
    assert("/v1/cluster/drain"@.len() == 17);
    assert("/v1/cluster/rebalance"@.len() == 21);
    assert("/v1/cluster/voters"@.len() == 18);
    assert("/v1/cluster/cordon"@.len() == 18);
    assert("/v1/cluster/step-down"@.len() == 21);
    assert("/v1/cluster/prefer"@.len() == 18);
    assert("/v1/shardkey"@.len() == 12);
    assert("/v1/users"@.len() == 9);
    assert("/v1/cluster/members/"@.len() == 20);
    assert("/v1/shards/"@.len() == 11);
    assert("/v1/query"@[4] == 'q' && "/v1/route"@[4] == 'r');
    assert("/v1/query"@[4] == 'q' && "/v1/users"@[4] == 'u');
    assert("/v1/query_all"@[4] == 'q' && "/v1/s3/config"@[4] == 's');
    assert("/v1/explain"@[6] == 'p' && "/v1/execute"@[6] == 'e');
    assert("/v1/execute_all"@[4] == 'e' && "/v1/s3/snapshot"@[4] == 's');
    assert("/v1/route"@[4] == 'r' && "/v1/users"@[4] == 'u');
    assert("/v1/s3/flush"@[5] == '3' && "/v1/shardkey"@[5] == 'h');
    assert("/v1/cluster/rebalance"@[12] == 'r' && "/v1/cluster/step-down"@[12] == 's');
    assert("/v1/cluster/voters"@[12] == 'v' && "/v1/cluster/cordon"@[12] == 'c');
    assert("/v1/cluster/voters"@[12] == 'v' && "/v1/cluster/prefer"@[12] == 'p');
    assert("/v1/cluster/cordon"@[12] == 'c' && "/v1/cluster/prefer"@[12] == 'p');
    assert("/v1/cluster/rebalance"@.subrange(0, 20)[12] == 'r' && "/v1/cluster/members/"@[12] == 'm');
    assert("/v1/cluster/step-down"@.subrange(0, 20)[12] == 's' && "/v1/cluster/members/"@[12] == 'm');
    assert("/v1/query_all"@.subrange(0, 11)[4] == 'q' && "/v1/shards/"@[4] == 's');
    assert("/v1/explain"@.subrange(0, 11)[4] == 'e' && "/v1/shards/"@[4] == 's');
    assert("/v1/execute"@.subrange(0, 11)[4] == 'e' && "/v1/shards/"@[4] == 's');
    assert("/v1/execute_all"@.subrange(0, 11)[4] == 'e' && "/v1/shards/"@[4] == 's');
    assert("/v1/s3/config"@.subrange(0, 11)[5] == '3' && "/v1/shards/"@[5] == 'h');
    assert("/v1/s3/snapshot"@.subrange(0, 11)[5] == '3' && "/v1/shards/"@[5] == 'h');
    assert("/v1/s3/flush"@.subrange(0, 11)[5] == '3' && "/v1/shards/"@[5] == 'h');
    assert("/v1/cluster/drain"@.subrange(0, 11)[4] == 'c' && "/v1/shards/"@[4] == 's');
    assert("/v1/cluster/rebalance"@.subrange(0, 11)[4] == 'c' && "/v1/shards/"@[4] == 's');
    assert("/v1/cluster/voters"@.subrange(0, 11)[4] == 'c' && "/v1/shards/"@[4] == 's');
    assert("/v1/cluster/cordon"@.subrange(0, 11)[4] == 'c' && "/v1/shards/"@[4] == 's');
    assert("/v1/cluster/step-down"@.subrange(0, 11)[4] == 'c' && "/v1/shards/"@[4] == 's');
    assert("/v1/cluster/prefer"@.subrange(0, 11)[4] == 'c' && "/v1/shards/"@[4] == 's');
    assert("/v1/shardkey"@.subrange(0, 11)[9] == 'k' && "/v1/shards/"@[9] == 's');
}

/// Which path asks for what with `GET`: no two paths ask for the same, and no path for two things.
pub proof fn law_what_gets_ask_for(p: Seq<char>)
    ensures
        get_endpoint(p) is Info <==> p == "/v1/info"@,
        get_endpoint(p) is Meta <==> p == "/v1/meta"@,
        get_endpoint(p) is Health <==> p == "/v1/health"@,
        get_endpoint(p) is Topology <==> p == "/v1/topology"@,
        get_endpoint(p) is Shards <==> p == "/v1/shards"@,
        get_endpoint(p) is Replication <==> p == "/v1/replication"@,
        get_endpoint(p) is Config <==> p == "/v1/config"@,
        get_endpoint(p) is ArchiveStatus <==> p == "/v1/s3/status"@,
        get_endpoint(p) is Stats <==> p == "/v1/stats"@,
        get_endpoint(p) is Cluster <==> p == "/v1/cluster"@,
        get_endpoint(p) is Catalog <==> p == "/v1/cluster/catalog"@,
        get_endpoint(p) is Agreement <==> p == "/v1/schema/agreement"@,
        get_endpoint(p) is ListUsers <==> p == "/v1/users"@,
        get_endpoint(p) matches EndpointModel::Schema { shard } ==> under(p, "/v1/schema/"@) && shard
            == past(p, "/v1/schema/"@),
        get_endpoint(p) matches EndpointModel::Frames { shard } ==> under(p, "/v1/frames/"@) && shard
            == past(p, "/v1/frames/"@),
{
    reveal_strlit("/v1/info");
    reveal_strlit("/v1/meta");
    reveal_strlit("/v1/health");
    reveal_strlit("/v1/topology");
    reveal_strlit("/v1/shards");
    reveal_strlit("/v1/replication");
    reveal_strlit("/v1/config");
    reveal_strlit("/v1/s3/status");
    reveal_strlit("/v1/stats");
    reveal_strlit("/v1/cluster");
    reveal_strlit("/v1/cluster/catalog");
    reveal_strlit("/v1/schema/agreement");
    reveal_strlit("/v1/users");
    reveal_strlit("/v1/schema/");
    reveal_strlit("/v1/frames/");
    assert("/v1/info"@.len() == 8);
    assert("/v1/meta"@.len() == 8);
    assert("/v1/health"@.len() == 10);
    assert("/v1/topology"@.len() == 12);
    assert("/v1/shards"@.len() == 10);
    assert("/v1/replication"@.len() == 15);
    assert("/v1/config"@.len() == 10);
    assert("/v1/s3/status"@.len() == 13);
    assert("/v1/stats"@.len() == 9);
    assert("/v1/cluster"@.len() == 11);
    assert("/v1/cluster/catalog"@.len() == 19);
    assert("/v1/schema/agreement"@.len() == 20);
    assert("/v1/users"@.len() == 9);
    assert("/v1/schema/"@.len() == 11);
    assert("/v1/frames/"@.len() == 11);
    assert("/v1/info"@[4] == 'i' && "/v1/meta"@[4] == 'm');
    assert("/v1/health"@[4] == 'h' && "/v1/shards"@[4] == 's');
    assert("/v1/health"@[4] == 'h' && "/v1/config"@[4] == 'c');
    assert("/v1/shards"@[4] == 's' && "/v1/config"@[4] == 'c');
    assert("/v1/stats"@[4] == 's' && "/v1/users"@[4] == 'u');
    assert("/v1/topology"@.subrange(0, 11)[4] == 't' && "/v1/schema/"@[4] == 's');
    assert("/v1/replication"@.subrange(0, 11)[4] == 'r' && "/v1/schema/"@[4] == 's');
    assert("/v1/s3/status"@.subrange(0, 11)[5] == '3' && "/v1/schema/"@[5] == 'c');
    assert("/v1/cluster"@.subrange(0, 11)[4] == 'c' && "/v1/schema/"@[4] == 's');
    assert("/v1/cluster/catalog"@.subrange(0, 11)[4] == 'c' && "/v1/schema/"@[4] == 's');
    assert("/v1/topology"@.subrange(0, 11)[4] == 't' && "/v1/frames/"@[4] == 'f');
    assert("/v1/replication"@.subrange(0, 11)[4] == 'r' && "/v1/frames/"@[4] == 'f');
    assert("/v1/s3/status"@.subrange(0, 11)[4] == 's' && "/v1/frames/"@[4] == 'f');
    assert("/v1/cluster"@.subrange(0, 11)[4] == 'c' && "/v1/frames/"@[4] == 'f');
    assert("/v1/cluster/catalog"@.subrange(0, 11)[4] == 'c' && "/v1/frames/"@[4] == 'f');
    assert("/v1/schema/agreement"@.subrange(0, 11)[4] == 's' && "/v1/frames/"@[4] == 'f');
}

/// What `DELETE` asks for: to remove a member or to drop a user.
pub proof fn law_what_deletes_ask_for(p: Seq<char>)
    ensures
        delete_endpoint(p) matches EndpointModel::Member { suffix, remove } ==> remove && under(
            p,
            "/v1/cluster/members/"@,
        ) && suffix == past(p, "/v1/cluster/members/"@),
        delete_endpoint(p) matches EndpointModel::DropUser { name } ==> under(p, "/v1/users/"@) && name
            == past(p, "/v1/users/"@),
        !under(p, "/v1/cluster/members/"@) && under(p, "/v1/users/"@) ==> delete_endpoint(p) is DropUser,
        under(p, "/v1/cluster/members/"@) ==> delete_endpoint(p) is Member,
{
}

proof fn lemma_statements_at(items: Seq<JsonModel>, n: nat, k: int)
    requires
        n <= items.len(),
    ensures
        statements_at(items, n) matches Ok(all) ==> all.len() == n && (0 <= k < n ==> statement_at(
            items[k],
        ) == Ok::<StatementModel, Seq<char>>(all[k])),
        statements_at(items, n) is Err ==> exists|i: int|
            0 <= i < n && statement_at(#[trigger] items[i]) is Err,
    decreases n,
{
    if n > 0 {
        lemma_statements_at(items, (n - 1) as nat, k);
        if statements_at(items, (n - 1) as nat) is Err {
            let i = choose|i: int| 0 <= i < n - 1 && statement_at(#[trigger] items[i]) is Err;
            assert(statement_at(items[i]) is Err);
        } else if statements_at(items, n) is Err {
            assert(statement_at(items[n - 1]) is Err);
        }
    }
}

/// A batch in a frame is all its statements in order, or none where one of them cannot be read.
pub proof fn law_batches_in_frames(items: Seq<JsonModel>, k: int)
    requires
        0 <= k < items.len(),
    ensures
        statements_at(items, items.len()) is Ok <==> forall|i: int|
            0 <= i < items.len() ==> statement_at(#[trigger] items[i]) is Ok,
        statements_at(items, items.len()) matches Ok(all) ==> all.len() == items.len()
            && statement_at(items[k]) == Ok::<StatementModel, Seq<char>>(all[k]),
{
    lemma_statements_at(items, items.len(), k);
    if statements_at(items, items.len()) is Ok {
        assert forall|i: int| 0 <= i < items.len() implies statement_at(#[trigger] items[i]) is Ok by {
            lemma_statements_at(items, items.len(), i);
        }
    }
}

} // verus!
