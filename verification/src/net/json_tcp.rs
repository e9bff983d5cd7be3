//! A length-prefixed JSON protocol over a persistent TCP socket.
//!
//! A frame is a big-endian 32-bit length and that many bytes of JSON. One request frame in, one or
//! more response frames out: most operations answer with a single `{"result": ...}` or
//! `{"error": ..., "status": n}`, a query with its columns, a frame for each row, and an end. Where
//! users are configured, the first frame has to be an `auth` with a name and a secret.

use vstd::prelude::*;
use vstd::utf8::encode_utf8;

use super::auth::{
    AuthConfig, blake3_keyed_of, blake3_of, derive_key, prove, Requirement, required_by_verb, Role,
    unknown_role, UserModel, verb_requirement,
};
use super::connection::{proven, users_of};
use super::json::{
    as_items, as_text, as_whole, field, field_of, Fields, items_of, json_list, json_of, JsonModel,
    json_read, json_text, json_texts, no_fields, parse_json, print_json, response_json_body, response_status,
    row_shows, row_to_json, statement_from, statement_of, status_of, text_of, texts_to_json, whole,
    whole_of, body_shows,
};
use super::protocol::{
    be32, framed, from_be32, lemma_be32_reads_back, ReadConsistency, Request, RequestModel, Response, ResponseModel,
    statements_model,
};
use super::server::elsewhere;
use super::forward::Router;
use crate::error::{Error, ErrorModel};
use crate::keyword::keyword;
use crate::shard::id::ShardId;
use crate::storage::exec::{DbValue, Datum, row_view, rows_view, DbStatement, StatementModel};
use crate::text::{same, views};

verus! {

/// Largest single frame.
pub const MAX_JSON_FRAME_BYTES: usize = 16_777_216;

#[derive(Debug)]
pub struct JsonTcpConfig {
    pub addr: String,
    /// Permits authentication over a plaintext socket: the secret crosses the wire.
    pub insecure: bool,
}

impl Default for JsonTcpConfig {
    fn default() -> (r: JsonTcpConfig)
        ensures
            r.addr@ == "127.0.0.1:4620"@,
            !r.insecure,
    {
        JsonTcpConfig { addr: "127.0.0.1:4620".to_owned(), insecure: false }
    }
}

impl JsonTcpConfig {
    /// Whether a server may start so: not with authentication over a plaintext socket, unless that
    /// was said to be accepted.
    pub fn check(&self, auth: Option<&AuthConfig>) -> (r: Result<(), Error>)
        ensures
            if users_of(auth).len() > 0 && !self.insecure {
                r matches Err(e) && e@ == ErrorModel::Protocol(
                    "the JSON-TCP server has authentication enabled but no transport security: the secret crosses the wire in clear. Run it on a trusted network or behind a TLS tunnel and pass the insecure acknowledgement, or disable auth."@,
                )
            } else {
                r is Ok
            },
    {
        if secured(auth) && !self.insecure {
            return Err(
                Error::Protocol(
                    "the JSON-TCP server has authentication enabled but no transport security: the secret crosses the wire in clear. Run it on a trusted network or behind a TLS tunnel and pass the insecure acknowledgement, or disable auth.".to_owned(),
                ),
            );
        }
        Ok(())
    }
}

/// Whether users are configured.
pub fn secured(auth: Option<&AuthConfig>) -> (r: bool)
    ensures
        r == (users_of(auth).len() > 0),
{
    match auth {
        Some(a) => !a.is_empty(),
        None => false,
    }
}

// ---- framing -----------------------------------------------------------------------------------

/// Some text as bytes.
pub fn bytes_of(s: &str) -> (r: Vec<u8>)
    ensures
        r@ == encode_utf8(s@),
{
    let bytes = s.as_bytes();
    let mut out: Vec<u8> = Vec::with_capacity(bytes.len());
    let mut i: usize = 0;
    while i < bytes.len()
        invariant
            i <= bytes@.len(),
            out@ == bytes@.take(i as int),
        decreases bytes@.len() - i,
    {
        out.push(bytes[i]);
        assert(bytes@.take(i as int + 1) =~= bytes@.take(i as int).push(bytes@[i as int]));
        i = i + 1;
    }
    assert(bytes@.take(bytes@.len() as int) =~= bytes@);
    out
}

/// A text as a frame: its length, and its bytes.
pub fn text_frame(text: &str) -> (r: Result<Vec<u8>, String>)
    ensures
        ({
            let body = encode_utf8(text@);
            if body.len() > MAX_JSON_FRAME_BYTES {
                r matches Err(m) && m@ == "response frame exceeds the size limit"@
            } else {
                r matches Ok(bytes) && bytes@ == framed(body)
            }
        }),
{
    let mut body = bytes_of(text);
    if body.len() > MAX_JSON_FRAME_BYTES {
        return Err("response frame exceeds the size limit".to_owned());
    }
    let n: u32 = body.len() as u32;
    let ghost model = body@;
    let mut out: Vec<u8> = Vec::with_capacity(4 + body.len());
    out.push((n / 16_777_216) as u8);
    out.push(((n / 65_536) % 256) as u8);
    out.push(((n / 256) % 256) as u8);
    out.push((n % 256) as u8);
    assert(out@ =~= be32(n));
    out.append(&mut body);
    assert(out@ =~= framed(model));
    Ok(out)
}

/// A value as a frame. One over the limit is refused.
pub fn write_frame(value: &serde_json::Value) -> (r: Result<Vec<u8>, String>)
    ensures
        ({
            let body = encode_utf8(json_text(json_of(*value)));
            if body.len() > MAX_JSON_FRAME_BYTES {
                r matches Err(m) && m@ == "response frame exceeds the size limit"@
            } else {
                r matches Ok(bytes) && bytes@ == framed(body)
            }
        }),
{
    let text = print_json(value);
    text_frame(text.as_str())
}

/// The length that a frame's first four bytes announce; one over the limit is refused before
/// anything is allocated for it.
pub fn frame_length(header: [u8; 4]) -> (r: Result<usize, String>)
    ensures
        if from_be32(header@) > MAX_JSON_FRAME_BYTES {
            r matches Err(m) && m@ == "request frame announces an over-limit size"@
        } else {
            r == Ok::<usize, String>(from_be32(header@) as usize)
        },
{
    let len: u64 = header[0] as u64 * 16_777_216 + header[1] as u64 * 65_536 + header[2] as u64
        * 256 + header[3] as u64;
    if len > MAX_JSON_FRAME_BYTES as u64 {
        return Err("request frame announces an over-limit size".to_owned());
    }
    Ok(len as usize)
}

/// What the body of a frame says.
pub fn read_frame(body: &Vec<u8>) -> (r: Result<serde_json::Value, String>)
    ensures
        match json_read(body@) {
            Ok(j) => r matches Ok(v) && json_of(v) == j,
            Err(m) => r matches Err(e) && e@ == m,
        },
{
    parse_json(body)
}

// ---- reading a frame ---------------------------------------------------------------------------

/// The text of a field, empty where there is none.
pub open spec fn text_at(f: JsonModel, key: Seq<char>) -> Seq<char> {
    match field_of(f, key) {
        Some(v) => match text_of(v) {
            Some(s) => s,
            None => Seq::empty(),
        },
        None => Seq::empty(),
    }
}

/// The list in a field, empty where there is none.
pub open spec fn items_at(f: JsonModel, key: Seq<char>) -> Seq<JsonModel> {
    match field_of(f, key) {
        Some(v) => match items_of(v) {
            Some(items) => items,
            None => Seq::empty(),
        },
        None => Seq::empty(),
    }
}

/// The shard that a frame names: the low 32 bits of its number, 0 where there is none.
pub open spec fn shard_at(f: JsonModel) -> u32 {
    match field_of(f, "shard"@) {
        Some(v) => match whole_of(v) {
            Some(n) => (n as int % 4_294_967_296) as u32,
            None => 0,
        },
        None => 0,
    }
}

fn text_in<'a>(f: &'a serde_json::Value, key: &str) -> (r: &'a str)
    ensures
        r@ == text_at(json_of(*f), key@),
{
    proof {
        reveal_strlit("");
        assert(""@ =~= Seq::empty());
    }
    match field(f, key) {
        Some(v) => match as_text(v) {
            Some(s) => s,
            None => "",
        },
        None => "",
    }
}

fn items_in<'a>(f: &'a serde_json::Value, key: &str) -> (r: Option<&'a Vec<serde_json::Value>>)
    ensures
        match r {
            Some(items) => items_at(json_of(*f), key@) == json_list(items@),
            None => items_at(json_of(*f), key@) == Seq::<JsonModel>::empty(),
        },
{
    match field(f, key) {
        Some(v) => as_items(v),
        None => None,
    }
}

/// The shard that a frame names.
pub fn shard_in(f: &serde_json::Value) -> (r: u32)
    ensures
        r == shard_at(json_of(*f)),
{
    match field(f, "shard") {
        Some(v) => match as_whole(v) {
            Some(n) => (n % 4_294_967_296) as u32,
            None => 0,
        },
        None => 0,
    }
}

/// The statement of a frame: its `sql` with its `params`.
pub open spec fn statement_at(f: JsonModel) -> Result<StatementModel, Seq<char>> {
    statement_of(text_at(f, "sql"@), items_at(f, "params"@))
}

fn statement_in(f: &serde_json::Value) -> (r: Result<DbStatement, String>)
    ensures
        match statement_at(json_of(*f)) {
            Ok(s) => r matches Ok(x) && x@ == s,
            Err(m) => r matches Err(e) && e@ == m,
        },
{
    let sql = text_in(f, "sql");
    match items_in(f, "params") {
        Some(params) => statement_from(sql, params),
        None => {
            let none: Vec<serde_json::Value> = Vec::new();
            assert(json_list(none@) =~= Seq::empty());
            statement_from(sql, &none)
        },
    }
}

/// The statements of the first `n` items, or the refusal of the first that has a bad parameter.
pub open spec fn statements_at(items: Seq<JsonModel>, n: nat) -> Result<Seq<StatementModel>, Seq<char>>
    decreases n,
{
    if n == 0 || n > items.len() {
        Ok(Seq::empty())
    } else {
        match statements_at(items, (n - 1) as nat) {
            Err(m) => Err(m),
            Ok(done) => match statement_at(items[n - 1]) {
                Ok(s) => Ok(done.push(s)),
                Err(m) => Err(m),
            },
        }
    }
}

proof fn lemma_statements_stop(items: Seq<JsonModel>, n: nat, m: nat)
    requires
        n <= m <= items.len(),
        statements_at(items, n) is Err,
    ensures
        statements_at(items, m) == statements_at(items, n),
    decreases m,
{
    if n < m {
        lemma_statements_stop(items, n, (m - 1) as nat);
    }
}

fn statements_in(items: &Vec<serde_json::Value>) -> (r: Result<Vec<DbStatement>, String>)
    ensures
        match statements_at(json_list(items@), items@.len()) {
            Ok(s) => r matches Ok(v) && statements_model(v@) == s,
            Err(m) => r matches Err(e) && e@ == m,
        },
{
    let ghost model = json_list(items@);
    let mut out: Vec<DbStatement> = Vec::with_capacity(items.len());
    let mut i: usize = 0;
    assert(statements_model(out@) =~= Seq::empty());
    while i < items.len()
        invariant
            i <= items@.len(),
            model == json_list(items@),
            statements_at(model, i as nat) == Ok::<Seq<StatementModel>, Seq<char>>(
                statements_model(out@),
            ),
        decreases items@.len() - i,
    {
        assert(model[i as int] == json_of(items@[i as int]));
        let ghost before = out@;
        match statement_in(&items[i]) {
            Ok(s) => {
                let ghost d = s@;
                out.push(s);
                assert(statements_model(out@) =~= statements_model(before).push(d));
            },
            Err(m) => {
                proof {
                    lemma_statements_stop(model, (i + 1) as nat, items@.len());
                }
                return Err(m);
            },
        }
        i = i + 1;
    }
    Ok(out)
}

/// A statement without parameters.
pub open spec fn plain_statement(sql: Seq<char>) -> StatementModel {
    StatementModel { sql, params: Seq::empty() }
}

pub open spec fn unknown_op(op: Seq<char>) -> Seq<char> {
    "unknown op: "@ + op
}

/// The request that an operation stands for, and what it demands of its sender.
pub open spec fn request_of(op: Seq<char>, f: JsonModel) -> Result<
    (RequestModel, Requirement),
    Seq<char>,
> {
    let shard = shard_at(f);
    let sql = text_at(f, "sql"@);
    if op == "query_all"@ {
        Ok((RequestModel::QueryAll { statement: plain_statement(sql) }, Requirement::Read))
    } else if op == "run"@ {
        match statement_at(f) {
            Ok(statement) => Ok(
                (RequestModel::Run { statement }, verb_requirement(keyword(sql))),
            ),
            Err(m) => Err(m),
        }
    } else if op == "execute"@ {
        match statement_at(f) {
            Ok(s) => Ok((RequestModel::Execute { shard, statements: seq![s] }, Requirement::Write)),
            Err(m) => Err(m),
        }
    } else if op == "tx"@ {
        let items = items_at(f, "statements"@);
        match statements_at(items, items.len()) {
            Ok(statements) => Ok(
                (RequestModel::Transaction { shard, statements }, Requirement::Write),
            ),
            Err(m) => Err(m),
        }
    } else if op == "execute_all"@ {
        Ok((RequestModel::ExecuteAll { statement: plain_statement(sql) }, Requirement::Admin))
    } else if op == "route"@ {
        Ok((RequestModel::Route { key: encode_utf8(text_at(f, "key"@)) }, Requirement::Read))
    } else if op == "list_users"@ {
        Ok((RequestModel::ListUsers, Requirement::Admin))
    } else if op == "create_user"@ {
        let role = text_at(f, "role"@);
        match Role::named(role) {
            Some(r) => Ok(
                (
                    RequestModel::CreateUser {
                        name: text_at(f, "name"@),
                        key: blake3_of(encode_utf8(text_at(f, "secret"@))),
                        role: r,
                    },
                    Requirement::Admin,
                ),
            ),
            None => Err(unknown_role(role)),
        }
    } else if op == "drop_user"@ {
        Ok((RequestModel::DropUser { name: text_at(f, "name"@) }, Requirement::Admin))
    } else {
        Err(unknown_op(op))
    }
}

/// Maps an operation and its frame to a request and what it demands.
pub fn build_request(op: &str, f: &serde_json::Value) -> (r: Result<(Request, Requirement), String>)
    ensures
        match request_of(op@, json_of(*f)) {
            Ok((q, need)) => r matches Ok(x) && x.0.model() == q && x.1 == need,
            Err(m) => r matches Err(e) && e@ == m,
        },
{
    let shard: u32 = shard_in(f);
    let sql = text_in(f, "sql");
    if same(op, "query_all") {
        return Ok((Request::QueryAll { statement: DbStatement::new(sql) }, Requirement::Read));
    }
    if same(op, "run") {
        return match statement_in(f) {
            Ok(statement) => Ok((Request::Run { statement }, required_by_verb(sql))),
            Err(m) => Err(m),
        };
    }
    if same(op, "execute") {
        return match statement_in(f) {
            Ok(s) => {
                let ghost model = s@;
                let mut one: Vec<DbStatement> = Vec::new();
                one.push(s);
                assert(statements_model(one@) =~= seq![model]);
                Ok((Request::Execute { shard, statements: one }, Requirement::Write))
            },
            Err(m) => Err(m),
        };
    }
    if same(op, "tx") {
        let all = match items_in(f, "statements") {
            Some(items) => statements_in(items),
            None => {
                let none: Vec<DbStatement> = Vec::new();
                assert(statements_model(none@) =~= Seq::empty());
                Ok(none)
            },
        };
        return match all {
            Ok(statements) => Ok((Request::Transaction { shard, statements }, Requirement::Write)),
            Err(m) => Err(m),
        };
    }
    if same(op, "execute_all") {
        return Ok((Request::ExecuteAll { statement: DbStatement::new(sql) }, Requirement::Admin));
    }
    if same(op, "route") {
        return Ok((Request::Route { key: bytes_of(text_in(f, "key")) }, Requirement::Read));
    }
    if same(op, "list_users") {
        return Ok((Request::ListUsers, Requirement::Admin));
    }
    if same(op, "create_user") {
        return match Role::parse(text_in(f, "role")) {
            Ok(role) => Ok(
                (
                    Request::CreateUser {
                        name: text_in(f, "name").to_owned(),
                        key: derive_key(text_in(f, "secret")),
                        role,
                    },
                    Requirement::Admin,
                ),
            ),
            Err(e) => Err(e.to_text()),
        };
    }
    if same(op, "drop_user") {
        return Ok(
            (Request::DropUser { name: text_in(f, "name").to_owned() }, Requirement::Admin),
        );
    }
    let mut m = "unknown op: ".to_owned();
    m.append(op);
    Err(m)
}

// ---- the frames of an answer -------------------------------------------------------------------

pub open spec fn result_json(body: JsonModel) -> JsonModel {
    JsonModel::Object(no_fields().insert("result"@, body))
}

pub open spec fn error_json(status: u16, message: Seq<char>) -> JsonModel {
    JsonModel::Object(
        no_fields().insert("error"@, JsonModel::Text(message)).insert(
            "status"@,
            whole(status as u64),
        ),
    )
}

pub open spec fn columns_json(columns: Seq<Seq<char>>) -> JsonModel {
    JsonModel::Object(no_fields().insert("columns"@, json_texts(columns)))
}

pub open spec fn end_json() -> JsonModel {
    JsonModel::Object(no_fields().insert("end"@, JsonModel::Bool(true)))
}

/// The frame of a result.
pub fn result_frame(body: serde_json::Value) -> (r: serde_json::Value)
    ensures
        json_of(r) == result_json(json_of(body)),
{
    Fields::new().with("result", body).done()
}

/// The frame of an error.
pub fn error_frame(status: u16, message: &str) -> (r: serde_json::Value)
    ensures
        json_of(r) == error_json(status, message@),
{
    Fields::new().with_text("error", message).with_whole("status", status as u64).done()
}

/// What a body complains of.
pub open spec fn complaint(body: JsonModel) -> Seq<char> {
    match field_of(body, "error"@) {
        Some(v) => match text_of(v) {
            Some(s) => s,
            None => "error"@,
        },
        None => "error"@,
    }
}

fn complaint_in<'a>(body: &'a serde_json::Value) -> (r: &'a str)
    ensures
        r@ == complaint(json_of(*body)),
{
    match field(body, "error") {
        Some(v) => match as_text(v) {
            Some(s) => s,
            None => "error",
        },
        None => "error",
    }
}

/// Whether this is the frame that answers with a response: its body as a result, or what it
/// complains of.
pub open spec fn answer_shows<R: Fn(u64) -> serde_json::Value>(
    show: R,
    resp: ResponseModel,
    j: JsonModel,
) -> bool {
    exists|body: JsonModel| #[trigger]
        body_shows(show, resp, body) && j == (if status_of(resp) == 200 {
            result_json(body)
        } else {
            error_json(status_of(resp), complaint(body))
        })
}

/// The frame that answers with a response. `show` gives the JSON of the double with some bits.
pub fn answer_frame<R: Fn(u64) -> serde_json::Value>(resp: Response, show: &R) -> (r:
    serde_json::Value)
    requires
        forall|bits: u64| #[trigger] call_requires(*show, (bits,)),
    ensures
        answer_shows(*show, resp@, json_of(r)),
{
    let status: u16 = response_status(&resp);
    let ghost model = resp@;
    let body = response_json_body(resp, show);
    assert(body_shows(*show, model, json_of(body)));
    if status == 200 {
        result_frame(body)
    } else {
        error_frame(status, complaint_in(&body))
    }
}

/// A message of a result that is read row by row.
#[derive(Debug)]
pub enum StreamMsg {
    Columns(Vec<String>),
    Row(Vec<DbValue>),
    Done,
    Failed(String),
}

/// Whether this is the frame of a row.
pub open spec fn row_frame_shows<R: Fn(u64) -> serde_json::Value>(
    show: R,
    row: Seq<Datum>,
    j: JsonModel,
) -> bool {
    exists|cells: JsonModel| #[trigger]
        row_shows(show, row, cells) && j == JsonModel::Object(no_fields().insert("row"@, cells))
}

/// Whether this is the frame of a message.
pub open spec fn message_shows<R: Fn(u64) -> serde_json::Value>(
    show: R,
    msg: StreamMsg,
    j: JsonModel,
) -> bool {
    match msg {
        StreamMsg::Columns(c) => j == columns_json(views(c@)),
        StreamMsg::Row(row) => row_frame_shows(show, row_view(row@), j),
        StreamMsg::Done => j == end_json(),
        StreamMsg::Failed(m) => j == error_json(400, m@),
    }
}

/// The frame of a row.
pub fn row_frame<R: Fn(u64) -> serde_json::Value>(row: &Vec<DbValue>, show: &R) -> (r:
    serde_json::Value)
    requires
        forall|bits: u64| #[trigger] call_requires(*show, (bits,)),
    ensures
        row_frame_shows(*show, row_view(row@), json_of(r)),
{
    let cells = row_to_json(row, show);
    assert(row_shows(*show, row_view(row@), json_of(cells)));
    Fields::new().with("row", cells).done()
}

/// The frame of a message, and whether it is the last one.
pub fn stream_frame<R: Fn(u64) -> serde_json::Value>(msg: &StreamMsg, show: &R) -> (r: (
    serde_json::Value,
    bool,
))
    requires
        forall|bits: u64| #[trigger] call_requires(*show, (bits,)),
    ensures
        message_shows(*show, *msg, json_of(r.0)),
        r.1 == (*msg is Done || *msg is Failed),
{
    match msg {
        StreamMsg::Columns(c) => (
            Fields::new().with("columns", texts_to_json(c)).done(),
            false,
        ),
        StreamMsg::Row(row) => (row_frame(row, show), false),
        StreamMsg::Done => (Fields::new().with_flag("end", true).done(), true),
        StreamMsg::Failed(m) => (error_frame(400, m.as_str()), true),
    }
}

/// Whether these are the frames that a result from another node is sent on as: its columns, a frame
/// for each row, and an end, or else one frame with what it complains of.
pub open spec fn relayed<R: Fn(u64) -> serde_json::Value>(
    show: R,
    resp: ResponseModel,
    frames: Seq<JsonModel>,
) -> bool {
    match resp {
        ResponseModel::Rows { columns, rows } => {
            &&& frames.len() == rows.len() + 2
            &&& frames[0] == columns_json(columns)
            &&& forall|i: int|
                0 <= i < rows.len() ==> row_frame_shows(show, #[trigger] rows[i], frames[i + 1])
            &&& frames.last() == end_json()
        },
        other => frames == seq![error_json(status_of(other), complaint(super::json::body_of(other)))],
    }
}

/// The frames that a result from another node is sent on as.
pub fn relay_frames<R: Fn(u64) -> serde_json::Value>(resp: Response, show: &R) -> (r: Vec<
    serde_json::Value,
>)
    requires
        forall|bits: u64| #[trigger] call_requires(*show, (bits,)),
    ensures
        relayed(*show, resp@, json_list(r@)),
{
    let mut out: Vec<serde_json::Value> = Vec::new();
    let ghost model = resp@;
    match resp {
        Response::Rows { columns, rows } => {
            out.push(Fields::new().with("columns", texts_to_json(&columns)).done());
            let mut i: usize = 0;
            while i < rows.len()
                invariant
                    i <= rows@.len(),
                    out@.len() == i + 1,
                    json_of(out@[0]) == columns_json(views(columns@)),
                    forall|bits: u64| #[trigger] call_requires(*show, (bits,)),
                    forall|k: int|
                        0 <= k < i ==> row_frame_shows(
                            *show,
                            row_view((#[trigger] rows@[k])@),
                            json_of(out@[k + 1]),
                        ),
                decreases rows@.len() - i,
            {
                out.push(row_frame(&rows[i], show));
                i = i + 1;
            }
            out.push(Fields::new().with_flag("end", true).done());
            proof {
                let frames = json_list(out@);
                assert(frames[0] == json_of(out@[0]));
                assert(frames.last() == json_of(out@.last()));
                assert forall|k: int| 0 <= k < rows@.len() implies row_frame_shows(
                    *show,
                    #[trigger] rows_view(rows@)[k],
                    frames[k + 1],
                ) by {
                    assert(rows_view(rows@)[k] == row_view(rows@[k]@));
                    assert(frames[k + 1] == json_of(out@[k + 1]));
                }
            }
            out
        },
        other => {
            let status: u16 = response_status(&other);
            let body = response_json_body(other, show);
            out.push(error_frame(status, complaint_in(&body)));
            assert(json_list(out@) =~= seq![
                error_json(status_of(model), complaint(super::json::body_of(model))),
            ]);
            out
        },
    }
}

/// The status of a failure.
pub open spec fn fault_status(e: ErrorModel) -> u16 {
    match e {
        ErrorModel::ReaderPoolBusy => 503,
        ErrorModel::WriterBusy => 503,
        ErrorModel::TooManyConnections { .. } => 503,
        ErrorModel::NotLeader { .. } => 409,
        ErrorModel::Unsupported(_) => 400,
        _ => 500,
    }
}

/// The status of a failure.
pub fn error_status(e: &Error) -> (r: u16)
    ensures
        r == fault_status(e@),
{
    match e {
        Error::ReaderPoolBusy => 503,
        Error::WriterBusy => 503,
        Error::TooManyConnections { .. } => 503,
        Error::NotLeader { .. } => 409,
        Error::Unsupported(_) => 400,
        _ => 500,
    }
}

/// The frame that reports a failure.
pub fn fault_frame(e: &Error) -> (r: serde_json::Value)
    ensures
        json_of(r) == error_json(fault_status(e@), e@.message()),
{
    let text = e.to_text();
    error_frame(error_status(e), text.as_str())
}

/// The frame that answers with a shard's schema version.
pub fn schema_frame(shard: u32, version: Result<i64, Error>) -> (r: serde_json::Value)
    ensures
        match version {
            Ok(v) => json_of(r) == result_json(schema_json(shard, v)),
            Err(e) => json_of(r) == error_json(fault_status(e@), e@.message()),
        },
{
    match version {
        Ok(v) => result_frame(
            Fields::new().with_whole("shard", shard as u64).with_integer("schema_version", v).done(),
        ),
        Err(e) => fault_frame(&e),
    }
}

pub open spec fn schema_json(shard: u32, version: i64) -> JsonModel {
    JsonModel::Object(
        no_fields().insert("shard"@, whole(shard as u64)).insert(
            "schema_version"@,
            super::json::integer(version),
        ),
    )
}

// ---- a connection ------------------------------------------------------------------------------

/// A connection's standing.
#[derive(Clone, Copy, Debug, PartialEq, Eq, Structural)]
pub enum JsonGate {
    /// No users are configured; everything is permitted.
    Open,
    /// Only `auth` is accepted.
    Unauthed,
    /// Proven. The role bounds every request.
    Authed(Role),
}

impl JsonGate {
    /// Where a new connection stands.
    pub fn new(auth: Option<&AuthConfig>) -> (r: JsonGate)
        ensures
            r == (if users_of(auth).len() > 0 {
                JsonGate::Unauthed
            } else {
                JsonGate::Open
            }),
    {
        if secured(auth) {
            JsonGate::Unauthed
        } else {
            JsonGate::Open
        }
    }

    pub open spec fn lets(self, need: Requirement) -> bool {
        match self {
            JsonGate::Open => true,
            JsonGate::Authed(role) => role.may(need),
            JsonGate::Unauthed => false,
        }
    }

    /// Whether a request with this demand is permitted.
    pub fn permits(self, need: Requirement) -> (r: bool)
        ensures
            r == self.lets(need),
    {
        match self {
            JsonGate::Open => true,
            JsonGate::Authed(role) => role.permits(need),
            JsonGate::Unauthed => false,
        }
    }
}

/// What a frame asks of the server.
#[derive(Debug)]
pub enum JsonStep {
    /// Here is the answer.
    Answer(serde_json::Value),
    /// Here is the answer, after which the connection closes.
    Close(serde_json::Value),
    /// Stream a read of a shard of this node.
    Stream { shard: u32, statement: DbStatement },
    /// Handle this read of another node's shard and relay its rows.
    Relay(Request),
    /// Say what this node is.
    Info,
    /// Give the counters.
    Stats,
    /// Describe the cluster.
    Cluster,
    /// Give the schema version of a shard.
    Schema(u32),
    /// Inspect the write-ahead log of a shard.
    Frames(u32),
    /// Handle this request and answer with what it gives.
    Handle(Request),
}

pub ghost enum JsonStepModel {
    Answer(JsonModel),
    Close(JsonModel),
    Stream { shard: u32, statement: StatementModel },
    Relay(RequestModel),
    Info,
    Stats,
    Cluster,
    Schema(u32),
    Frames(u32),
    Handle(RequestModel),
}

impl JsonStep {
    pub open spec fn model(self) -> JsonStepModel {
        match self {
            JsonStep::Answer(v) => JsonStepModel::Answer(json_of(v)),
            JsonStep::Close(v) => JsonStepModel::Close(json_of(v)),
            JsonStep::Stream { shard, statement } => JsonStepModel::Stream {
                shard,
                statement: statement@,
            },
            JsonStep::Relay(q) => JsonStepModel::Relay(q.model()),
            JsonStep::Info => JsonStepModel::Info,
            JsonStep::Stats => JsonStepModel::Stats,
            JsonStep::Cluster => JsonStepModel::Cluster,
            JsonStep::Schema(n) => JsonStepModel::Schema(n),
            JsonStep::Frames(n) => JsonStepModel::Frames(n),
            JsonStep::Handle(q) => JsonStepModel::Handle(q.model()),
        }
    }
}

/// The role that a name and a secret have, by the same proof that the native handshake asks for,
/// made against a fresh challenge. Without a challenge nobody has any.
pub open spec fn role_of(
    users: Seq<UserModel>,
    name: Seq<char>,
    secret: Seq<char>,
    nonce: Option<Seq<u8>>,
) -> Option<Role> {
    match nonce {
        Some(n) => proven(users, name, n, blake3_keyed_of(blake3_of(encode_utf8(secret)), n)),
        None => None,
    }
}

pub open spec fn nonce_option(n: Result<[u8; 32], Error>) -> Option<Seq<u8>> {
    match n {
        Ok(bytes) => Some(bytes@),
        Err(_) => None,
    }
}

/// Verifies a name and a secret. `nonce` makes a challenge.
pub fn verify<N: Fn() -> Result<[u8; 32], Error>>(
    auth: &AuthConfig,
    name: &str,
    secret: &str,
    nonce: &N,
) -> (r: Option<Role>)
    requires
        call_requires(*nonce, ()),
    ensures
        exists|n: Result<[u8; 32], Error>| #[trigger]
            call_ensures(*nonce, (), n) && r == role_of(auth@, name@, secret@, nonce_option(n)),
{
    let n = nonce();
    assert(call_ensures(*nonce, (), n));
    match n {
        Ok(bytes) => {
            let answer = prove(&derive_key(secret), &bytes);
            auth.verify(name, &bytes, &answer)
        },
        Err(_) => None,
    }
}

/// What reading a shard comes to: its rows are streamed where the shard is this node's, and relayed
/// from its owner where it is not.
pub open spec fn query_step(f: JsonModel, router: Option<Router>) -> JsonStepModel {
    let shard = shard_at(f);
    match statement_at(f) {
        Err(m) => JsonStepModel::Answer(error_json(400, m)),
        Ok(statement) => if elsewhere(router, ShardId(shard)) {
            JsonStepModel::Relay(
                RequestModel::Query {
                    shard,
                    statement,
                    consistency: ReadConsistency::Linearizable,
                },
            )
        } else {
            JsonStepModel::Stream { shard, statement }
        },
    }
}

pub open spec fn forbidden() -> JsonStepModel {
    JsonStepModel::Answer(error_json(403, "not permitted"@))
}

/// A step, where the connection permits it.
pub open spec fn gated(gate: JsonGate, need: Requirement, step: JsonStepModel) -> JsonStepModel {
    if gate.lets(need) {
        step
    } else {
        forbidden()
    }
}

/// What a frame asks of the server, and where the connection stands after it.
pub open spec fn frame_step(
    gate: JsonGate,
    f: JsonModel,
    users: Seq<UserModel>,
    router: Option<Router>,
    nonce: Option<Seq<u8>>,
) -> (JsonGate, JsonStepModel) {
    let op = text_at(f, "op"@);
    if gate == JsonGate::Unauthed && op != "auth"@ {
        (gate, JsonStepModel::Answer(error_json(401, "authentication required"@)))
    } else if op == "auth"@ {
        match role_of(users, text_at(f, "name"@), text_at(f, "secret"@), nonce) {
            Some(role) => (
                JsonGate::Authed(role),
                JsonStepModel::Answer(
                    result_json(
                        JsonModel::Object(no_fields().insert("ok"@, JsonModel::Bool(true))),
                    ),
                ),
            ),
            None => (gate, JsonStepModel::Close(error_json(401, "authentication failed"@))),
        }
    } else if op == "query"@ {
        (gate, gated(gate, Requirement::Read, query_step(f, router)))
    } else if op == "info"@ {
        (gate, JsonStepModel::Info)
    } else if op == "stats"@ {
        (gate, JsonStepModel::Stats)
    } else if op == "cluster"@ {
        (gate, gated(gate, Requirement::Read, JsonStepModel::Cluster))
    } else if op == "schema"@ {
        (gate, gated(gate, Requirement::Read, JsonStepModel::Schema(shard_at(f))))
    } else if op == "frames"@ {
        (gate, gated(gate, Requirement::Admin, JsonStepModel::Frames(shard_at(f))))
    } else {
        match request_of(op, f) {
            Ok((q, need)) => (gate, gated(gate, need, JsonStepModel::Handle(q))),
            Err(m) => (gate, JsonStepModel::Answer(error_json(400, m))),
        }
    }
}

fn read_shard(f: &serde_json::Value, router: &Option<Router>) -> (r: JsonStep)
    requires
        *router matches Some(x) ==> x.wf(),
    ensures
        r.model() == query_step(json_of(*f), *router),
{
    let shard: u32 = shard_in(f);
    let statement = match statement_in(f) {
        Ok(s) => s,
        Err(m) => {
            return JsonStep::Answer(error_frame(400, m.as_str()));
        },
    };
    let mine = match router {
        Some(x) => x.is_mine(ShardId(shard)),
        None => true,
    };
    if mine {
        JsonStep::Stream { shard, statement }
    } else {
        JsonStep::Relay(
            Request::Query { shard, statement, consistency: ReadConsistency::Linearizable },
        )
    }
}

fn forbid() -> (r: JsonStep)
    ensures
        r.model() == forbidden(),
{
    JsonStep::Answer(error_frame(403, "not permitted"))
}

/// Takes a frame: what it asks of the server. `nonce` makes a challenge.
pub fn serve_frame<N: Fn() -> Result<[u8; 32], Error>>(
    gate: &mut JsonGate,
    f: &serde_json::Value,
    auth: Option<&AuthConfig>,
    router: &Option<Router>,
    nonce: &N,
) -> (r: JsonStep)
    requires
        call_requires(*nonce, ()),
        *router matches Some(x) ==> x.wf(),
    ensures
        if text_at(json_of(*f), "op"@) == "auth"@ && auth is Some {
            exists|n: Result<[u8; 32], Error>| #[trigger]
                call_ensures(*nonce, (), n) && (*final(gate), r.model()) == frame_step(
                    *old(gate),
                    json_of(*f),
                    users_of(auth),
                    *router,
                    nonce_option(n),
                )
        } else {
            forall|n: Option<Seq<u8>>|
                (*final(gate), r.model()) == #[trigger] frame_step(
                    *old(gate),
                    json_of(*f),
                    users_of(auth),
                    *router,
                    n,
                )
        },
{
    let op = text_in(f, "op");
    let is_auth = same(op, "auth");
    if *gate == JsonGate::Unauthed && !is_auth {
        return JsonStep::Answer(error_frame(401, "authentication required"));
    }
    if is_auth {
        let role = match auth {
            Some(a) => verify(a, text_in(f, "name"), text_in(f, "secret"), nonce),
            None => None,
        };
        return match role {
            Some(role) => {
                *gate = JsonGate::Authed(role);
                JsonStep::Answer(result_frame(Fields::new().with_flag("ok", true).done()))
            },
            None => JsonStep::Close(error_frame(401, "authentication failed")),
        };
    }
    if same(op, "query") {
        if !gate.permits(Requirement::Read) {
            return forbid();
        }
        return read_shard(f, router);
    }
    if same(op, "info") {
        return JsonStep::Info;
    }
    if same(op, "stats") {
        return JsonStep::Stats;
    }
    if same(op, "cluster") {
        if !gate.permits(Requirement::Read) {
            return forbid();
        }
        return JsonStep::Cluster;
    }
    if same(op, "schema") {
        if !gate.permits(Requirement::Read) {
            return forbid();
        }
        return JsonStep::Schema(shard_in(f));
    }
    if same(op, "frames") {
        if !gate.permits(Requirement::Admin) {
            return forbid();
        }
        return JsonStep::Frames(shard_in(f));
    }
    match build_request(op, f) {
        Ok((q, need)) => if gate.permits(need) {
            JsonStep::Handle(q)
        } else {
            forbid()
        },
        Err(m) => JsonStep::Answer(error_frame(400, m.as_str())),
    }
}

// ---- laws --------------------------------------------------------------------------------------

/// A frame announces the very length of what follows.
pub proof fn law_json_frames_announce_their_length(body: Seq<u8>)
    requires
        body.len() <= MAX_JSON_FRAME_BYTES,
    ensures
        from_be32(framed(body).take(4)) == body.len(),
        framed(body).skip(4) == body,
{
    let n = body.len() as u32;
    lemma_be32_reads_back(n);
    assert(framed(body).take(4) =~= be32(n));
    assert(framed(body).skip(4) =~= body);
}

/// Both protocols demand the same of a request: what an operation demands is what its request
/// demands on a native connection.
pub proof fn law_protocols_agree_on_demands(op: Seq<char>, f: JsonModel)
    ensures
        match request_of(op, f) {
            Ok((q, need)) => need == super::auth::requirement(q),
            Err(_) => true,
        },
{
}

/// Before a proof, nothing but an attempt to give one is looked at.
pub proof fn law_json_needs_a_proof(
    f: JsonModel,
    users: Seq<UserModel>,
    router: Option<Router>,
    nonce: Option<Seq<u8>>,
)
    requires
        text_at(f, "op"@) != "auth"@,
    ensures
        frame_step(JsonGate::Unauthed, f, users, router, nonce) == (
            JsonGate::Unauthed,
            JsonStepModel::Answer(error_json(401, "authentication required"@)),
        ),
{
}

/// A request is only handled for a connection that permits it.
pub proof fn law_json_requests_are_permitted(
    gate: JsonGate,
    f: JsonModel,
    users: Seq<UserModel>,
    router: Option<Router>,
    nonce: Option<Seq<u8>>,
)
    ensures
        match frame_step(gate, f, users, router, nonce).1 {
            JsonStepModel::Handle(q) => gate.lets(super::auth::requirement(q)),
            JsonStepModel::Relay(q) => gate.lets(super::auth::requirement(q)),
            JsonStepModel::Stream { .. } => gate.lets(Requirement::Read),
            JsonStepModel::Cluster => gate.lets(Requirement::Read),
            JsonStepModel::Schema(_) => gate.lets(Requirement::Read),
            JsonStepModel::Frames(_) => gate.lets(Requirement::Admin),
            _ => true,
        },
{
    law_protocols_agree_on_demands(text_at(f, "op"@), f);
}

} // verus!
