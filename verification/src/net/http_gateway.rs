//! The HTTP gateway: which endpoint a request is for, who may use it, and what it asks of the node.
//!
//! The gateway translates between HTTP and the requests and responses of the native protocol; it
//! adds no rule of storage or of the cluster.

use vstd::prelude::*;
use vstd::utf8::{encode_utf8, valid_utf8};

use super::auth::{AuthConfig, derive_key, Requirement, Role, UserModel};
use super::base64::{base64_decode, base64_of};
use super::connection::users_of;
use super::json::{Fields, json_of, JsonModel, no_fields};
use super::json_tcp::{error_status, fault_status, nonce_option, role_of, secured, verify};
use crate::error::{Error, ErrorModel};
use crate::lines::{after_prefix, split_at_first, split_once, strip_prefix, trim, trimmed};
use crate::text::same;

verus! {

// ---- configuration -----------------------------------------------------------------------------

#[derive(Debug)]
pub struct HttpConfig {
    pub addr: String,
    /// Threads that serve requests, each one to its end.
    pub workers: usize,
    /// Permits authentication over plaintext HTTP, which sends the secret in clear.
    pub insecure: bool,
}

impl Default for HttpConfig {
    fn default() -> (r: HttpConfig)
        ensures
            r.addr@ == "127.0.0.1:4680"@,
            r.workers == 4,
            !r.insecure,
    {
        HttpConfig { addr: "127.0.0.1:4680".to_owned(), workers: 4, insecure: false }
    }
}

impl HttpConfig {
    /// Whether a gateway may start so: not with authentication over plaintext HTTP, unless that was
    /// said to be accepted.
    pub fn check(&self, auth: Option<&AuthConfig>) -> (r: Result<(), Error>)
        ensures
            if users_of(auth).len() > 0 && !self.insecure {
                r matches Err(e) && e@ == ErrorModel::Protocol(
                    "the HTTP gateway has authentication enabled but no transport security: HTTP Basic would send secrets in clear. Put a TLS-terminating proxy in front and pass --http-insecure to acknowledge, or disable auth on the gateway."@,
                )
            } else {
                r is Ok
            },
    {
        if secured(auth) && !self.insecure {
            return Err(
                Error::Protocol(
                    "the HTTP gateway has authentication enabled but no transport security: HTTP Basic would send secrets in clear. Put a TLS-terminating proxy in front and pass --http-insecure to acknowledge, or disable auth on the gateway.".to_owned(),
                ),
            );
        }
        Ok(())
    }

    /// How many threads serve.
    pub fn threads(&self) -> (r: usize)
        ensures
            r == (if self.workers == 0 {
                1
            } else {
                self.workers
            }),
    {
        if self.workers == 0 {
            1
        } else {
            self.workers
        }
    }
}

// ---- errors ------------------------------------------------------------------------------------

/// An answer that is no success.
#[derive(Debug)]
pub struct HttpError {
    pub status: u16,
    pub message: String,
}

/// What an [`HttpError`] holds.
pub ghost struct HttpErrorModel {
    pub status: u16,
    pub message: Seq<char>,
}

impl View for HttpError {
    type V = HttpErrorModel;

    open spec fn view(&self) -> HttpErrorModel {
        HttpErrorModel { status: self.status, message: self.message@ }
    }
}

pub open spec fn http_error(status: u16, message: Seq<char>) -> HttpErrorModel {
    HttpErrorModel { status, message }
}

pub open spec fn complaint_json(message: Seq<char>) -> JsonModel {
    JsonModel::Object(no_fields().insert("error"@, JsonModel::Text(message)))
}

impl HttpError {
    pub fn new(status: u16, message: &str) -> (r: HttpError)
        ensures
            r@ == http_error(status, message@),
    {
        HttpError { status, message: message.to_owned() }
    }

    /// The body of the answer.
    pub fn body(&self) -> (r: serde_json::Value)
        ensures
            json_of(r) == complaint_json(self.message@),
    {
        Fields::new().with_text("error", self.message.as_str()).done()
    }
}

/// A failure as an answer.
pub fn error_to_http(e: &Error) -> (r: HttpError)
    ensures
        r@ == http_error(fault_status(e@), e@.message()),
{
    HttpError { status: error_status(e), message: e.to_text() }
}

/// The answer to a body that is no JSON of the right shape.
pub fn bad_json(why: &str) -> (r: HttpError)
    ensures
        r@ == http_error(400, "bad JSON: "@ + why@),
{
    let mut m = "bad JSON: ".to_owned();
    m.append(why);
    HttpError { status: 400, message: m }
}

// ---- endpoints ---------------------------------------------------------------------------------

#[derive(Clone, Copy, Debug, PartialEq, Eq, Structural)]
pub enum Method {
    Get,
    Post,
    Delete,
    Other,
}

/// What a request is for. The text is what follows the endpoint's own path.
#[derive(Debug)]
pub enum Endpoint {
    Info,
    Meta,
    Health,
    Topology,
    Shards,
    Replication,
    Config,
    Query,
    QueryAll,
    Explain,
    Run,
    Execute,
    Tx,
    ExecuteAll,
    Route,
    ArchiveConfig,
    ArchiveStatus,
    ArchiveSnapshot,
    ArchiveFlush,
    Drain,
    Rebalance,
    Voters,
    Member { suffix: String, remove: bool },
    Cordon,
    StepDown,
    Prefer,
    ShardKey,
    ShardOp { suffix: String },
    Stats,
    Cluster,
    Catalog,
    Agreement,
    Schema { shard: String },
    Frames { shard: String },
    ListUsers,
    CreateUser,
    DropUser { name: String },
    Unknown,
}

/// What an [`Endpoint`] holds.
pub ghost enum EndpointModel {
    Info,
    Meta,
    Health,
    Topology,
    Shards,
    Replication,
    Config,
    Query,
    QueryAll,
    Explain,
    Run,
    Execute,
    Tx,
    ExecuteAll,
    Route,
    ArchiveConfig,
    ArchiveStatus,
    ArchiveSnapshot,
    ArchiveFlush,
    Drain,
    Rebalance,
    Voters,
    Member { suffix: Seq<char>, remove: bool },
    Cordon,
    StepDown,
    Prefer,
    ShardKey,
    ShardOp { suffix: Seq<char> },
    Stats,
    Cluster,
    Catalog,
    Agreement,
    Schema { shard: Seq<char> },
    Frames { shard: Seq<char> },
    ListUsers,
    CreateUser,
    DropUser { name: Seq<char> },
    Unknown,
}

impl View for Endpoint {
    type V = EndpointModel;

    open spec fn view(&self) -> EndpointModel {
        match self {
            Endpoint::Info => EndpointModel::Info,
            Endpoint::Meta => EndpointModel::Meta,
            Endpoint::Health => EndpointModel::Health,
            Endpoint::Topology => EndpointModel::Topology,
            Endpoint::Shards => EndpointModel::Shards,
            Endpoint::Replication => EndpointModel::Replication,
            Endpoint::Config => EndpointModel::Config,
            Endpoint::Query => EndpointModel::Query,
            Endpoint::QueryAll => EndpointModel::QueryAll,
            Endpoint::Explain => EndpointModel::Explain,
            Endpoint::Run => EndpointModel::Run,
            Endpoint::Execute => EndpointModel::Execute,
            Endpoint::Tx => EndpointModel::Tx,
            Endpoint::ExecuteAll => EndpointModel::ExecuteAll,
            Endpoint::Route => EndpointModel::Route,
            Endpoint::ArchiveConfig => EndpointModel::ArchiveConfig,
            Endpoint::ArchiveStatus => EndpointModel::ArchiveStatus,
            Endpoint::ArchiveSnapshot => EndpointModel::ArchiveSnapshot,
            Endpoint::ArchiveFlush => EndpointModel::ArchiveFlush,
            Endpoint::Drain => EndpointModel::Drain,
            Endpoint::Rebalance => EndpointModel::Rebalance,
            Endpoint::Voters => EndpointModel::Voters,
            Endpoint::Member { suffix, remove } => EndpointModel::Member {
                suffix: suffix@,
                remove: *remove,
            },
            Endpoint::Cordon => EndpointModel::Cordon,
            Endpoint::StepDown => EndpointModel::StepDown,
            Endpoint::Prefer => EndpointModel::Prefer,
            Endpoint::ShardKey => EndpointModel::ShardKey,
            Endpoint::ShardOp { suffix } => EndpointModel::ShardOp { suffix: suffix@ },
            Endpoint::Stats => EndpointModel::Stats,
            Endpoint::Cluster => EndpointModel::Cluster,
            Endpoint::Catalog => EndpointModel::Catalog,
            Endpoint::Agreement => EndpointModel::Agreement,
            Endpoint::Schema { shard } => EndpointModel::Schema { shard: shard@ },
            Endpoint::Frames { shard } => EndpointModel::Frames { shard: shard@ },
            Endpoint::ListUsers => EndpointModel::ListUsers,
            Endpoint::CreateUser => EndpointModel::CreateUser,
            Endpoint::DropUser { name } => EndpointModel::DropUser { name: name@ },
            Endpoint::Unknown => EndpointModel::Unknown,
        }
    }
}

/// The path of a URL: what comes before a question mark.
pub open spec fn path_of(url: Seq<char>) -> Seq<char> {
    match split_at_first(url, '?') {
        Some((path, _)) => path,
        None => url,
    }
}

/// A text without a prefix, however often that is repeated.
pub open spec fn past(s: Seq<char>, prefix: Seq<char>) -> Seq<char>
    decreases s.len(),
{
    if prefix.len() == 0 {
        s
    } else {
        match after_prefix(s, prefix) {
            Some(rest) => if rest.len() < s.len() {
                past(rest, prefix)
            } else {
                s
            },
            None => s,
        }
    }
}

pub open spec fn under(path: Seq<char>, prefix: Seq<char>) -> bool {
    after_prefix(path, prefix) is Some
}

/// The endpoint that answers a `GET`.
pub open spec fn get_endpoint(p: Seq<char>) -> EndpointModel {
    if p == "/v1/info"@ {
        EndpointModel::Info
    } else if p == "/v1/meta"@ {
        EndpointModel::Meta
    } else if p == "/v1/health"@ {
        EndpointModel::Health
    } else if p == "/v1/topology"@ {
        EndpointModel::Topology
    } else if p == "/v1/shards"@ {
        EndpointModel::Shards
    } else if p == "/v1/replication"@ {
        EndpointModel::Replication
    } else if p == "/v1/config"@ {
        EndpointModel::Config
    } else if p == "/v1/s3/status"@ {
        EndpointModel::ArchiveStatus
    } else if p == "/v1/stats"@ {
        EndpointModel::Stats
    } else if p == "/v1/cluster"@ {
        EndpointModel::Cluster
    } else if p == "/v1/cluster/catalog"@ {
        EndpointModel::Catalog
    } else if p == "/v1/schema/agreement"@ {
        EndpointModel::Agreement
    } else if under(p, "/v1/schema/"@) {
        EndpointModel::Schema { shard: past(p, "/v1/schema/"@) }
    } else if under(p, "/v1/frames/"@) {
        EndpointModel::Frames { shard: past(p, "/v1/frames/"@) }
    } else if p == "/v1/users"@ {
        EndpointModel::ListUsers
    } else {
        EndpointModel::Unknown
    }
}

/// The endpoint that answers a `POST`.
pub open spec fn post_endpoint(p: Seq<char>) -> EndpointModel {
    if p == "/v1/query"@ {
        EndpointModel::Query
    } else if p == "/v1/query_all"@ {
        EndpointModel::QueryAll
    } else if p == "/v1/explain"@ {
        EndpointModel::Explain
    } else if p == "/v1/run"@ {
        EndpointModel::Run
    } else if p == "/v1/execute"@ {
        EndpointModel::Execute
    } else if p == "/v1/tx"@ {
        EndpointModel::Tx
    } else if p == "/v1/execute_all"@ {
        EndpointModel::ExecuteAll
    } else if p == "/v1/route"@ {
        EndpointModel::Route
    } else if p == "/v1/s3/config"@ {
        EndpointModel::ArchiveConfig
    } else if p == "/v1/s3/snapshot"@ {
        EndpointModel::ArchiveSnapshot
    } else if p == "/v1/s3/flush"@ {
        EndpointModel::ArchiveFlush
    } else if p == "/v1/cluster/drain"@ {
        EndpointModel::Drain
    } else if p == "/v1/cluster/rebalance"@ {
        EndpointModel::Rebalance
    } else if p == "/v1/cluster/voters"@ {
        EndpointModel::Voters
    } else if under(p, "/v1/cluster/members/"@) {
        EndpointModel::Member { suffix: past(p, "/v1/cluster/members/"@), remove: false }
    } else if p == "/v1/cluster/cordon"@ {
        EndpointModel::Cordon
    } else if p == "/v1/cluster/step-down"@ {
        EndpointModel::StepDown
    } else if p == "/v1/cluster/prefer"@ {
        EndpointModel::Prefer
    } else if p == "/v1/shardkey"@ {
        EndpointModel::ShardKey
    } else if under(p, "/v1/shards/"@) {
        EndpointModel::ShardOp { suffix: past(p, "/v1/shards/"@) }
    } else if p == "/v1/users"@ {
        EndpointModel::CreateUser
    } else {
        EndpointModel::Unknown
    }
}

/// The endpoint that answers a `DELETE`.
pub open spec fn delete_endpoint(p: Seq<char>) -> EndpointModel {
    if under(p, "/v1/cluster/members/"@) {
        EndpointModel::Member { suffix: past(p, "/v1/cluster/members/"@), remove: true }
    } else if under(p, "/v1/users/"@) {
        EndpointModel::DropUser { name: past(p, "/v1/users/"@) }
    } else {
        EndpointModel::Unknown
    }
}

/// The endpoint that a request is for.
pub open spec fn endpoint_of(method: Method, url: Seq<char>) -> EndpointModel {
    let p = path_of(url);
    match method {
        Method::Get => get_endpoint(p),
        Method::Post => post_endpoint(p),
        Method::Delete => delete_endpoint(p),
        Method::Other => EndpointModel::Unknown,
    }
}

fn starts(path: &str, prefix: &str) -> (r: bool)
    ensures
        r == under(path@, prefix@),
{
    strip_prefix(path, prefix).is_some()
}

fn strip_all(path: &str, prefix: &str) -> (r: String)
    ensures
        r@ == past(path@, prefix@),
{
    let mut rest = path.to_owned();
    if prefix.is_empty() {
        return rest;
    }
    let ghost p = prefix@;
    loop
        invariant
            p == prefix@,
            p.len() > 0,
            past(path@, p) == past(rest@, p),
        decreases rest@.len(),
    {
        match strip_prefix(rest.as_str(), prefix) {
            Some(shorter) => {
                assert(shorter@.len() + p.len() == rest@.len());
                rest = shorter;
            },
            None => {
                return rest;
            },
        }
    }
}

fn get_route(p: &str) -> (r: Endpoint)
    ensures
        r@ == get_endpoint(p@),
{
    if same(p, "/v1/info") {
        Endpoint::Info
    } else if same(p, "/v1/meta") {
        Endpoint::Meta
    } else if same(p, "/v1/health") {
        Endpoint::Health
    } else if same(p, "/v1/topology") {
        Endpoint::Topology
    } else if same(p, "/v1/shards") {
        Endpoint::Shards
    } else if same(p, "/v1/replication") {
        Endpoint::Replication
    } else if same(p, "/v1/config") {
        Endpoint::Config
    } else if same(p, "/v1/s3/status") {
        Endpoint::ArchiveStatus
    } else if same(p, "/v1/stats") {
        Endpoint::Stats
    } else if same(p, "/v1/cluster") {
        Endpoint::Cluster
    } else if same(p, "/v1/cluster/catalog") {
        Endpoint::Catalog
    } else if same(p, "/v1/schema/agreement") {
        Endpoint::Agreement
    } else if starts(p, "/v1/schema/") {
        Endpoint::Schema { shard: strip_all(p, "/v1/schema/") }
    } else if starts(p, "/v1/frames/") {
        Endpoint::Frames { shard: strip_all(p, "/v1/frames/") }
    } else if same(p, "/v1/users") {
        Endpoint::ListUsers
    } else {
        Endpoint::Unknown
    }
}

fn post_route(p: &str) -> (r: Endpoint)
    ensures
        r@ == post_endpoint(p@),
{
    if same(p, "/v1/query") {
        Endpoint::Query
    } else if same(p, "/v1/query_all") {
        Endpoint::QueryAll
    } else if same(p, "/v1/explain") {
        Endpoint::Explain
    } else if same(p, "/v1/run") {
        Endpoint::Run
    } else if same(p, "/v1/execute") {
        Endpoint::Execute
    } else if same(p, "/v1/tx") {
        Endpoint::Tx
    } else if same(p, "/v1/execute_all") {
        Endpoint::ExecuteAll
    } else if same(p, "/v1/route") {
        Endpoint::Route
    } else if same(p, "/v1/s3/config") {
        Endpoint::ArchiveConfig
    } else if same(p, "/v1/s3/snapshot") {
        Endpoint::ArchiveSnapshot
    } else if same(p, "/v1/s3/flush") {
        Endpoint::ArchiveFlush
    } else if same(p, "/v1/cluster/drain") {
        Endpoint::Drain
    } else if same(p, "/v1/cluster/rebalance") {
        Endpoint::Rebalance
    } else if same(p, "/v1/cluster/voters") {
        Endpoint::Voters
    } else if starts(p, "/v1/cluster/members/") {
        Endpoint::Member { suffix: strip_all(p, "/v1/cluster/members/"), remove: false }
    } else if same(p, "/v1/cluster/cordon") {
        Endpoint::Cordon
    } else if same(p, "/v1/cluster/step-down") {
        Endpoint::StepDown
    } else if same(p, "/v1/cluster/prefer") {
        Endpoint::Prefer
    } else if same(p, "/v1/shardkey") {
        Endpoint::ShardKey
    } else if starts(p, "/v1/shards/") {
        Endpoint::ShardOp { suffix: strip_all(p, "/v1/shards/") }
    } else if same(p, "/v1/users") {
        Endpoint::CreateUser
    } else {
        Endpoint::Unknown
    }
}

fn delete_route(p: &str) -> (r: Endpoint)
    ensures
        r@ == delete_endpoint(p@),
{
    if starts(p, "/v1/cluster/members/") {
        Endpoint::Member { suffix: strip_all(p, "/v1/cluster/members/"), remove: true }
    } else if starts(p, "/v1/users/") {
        Endpoint::DropUser { name: strip_all(p, "/v1/users/") }
    } else {
        Endpoint::Unknown
    }
}

/// Finds the endpoint that a request is for.
pub fn dispatch(method: Method, url: &str) -> (r: Endpoint)
    ensures
        r@ == endpoint_of(method, url@),
{
    let path = match split_once(url, '?') {
        Some((path, _)) => path,
        None => url.to_owned(),
    };
    match method {
        Method::Get => get_route(path.as_str()),
        Method::Post => post_route(path.as_str()),
        Method::Delete => delete_route(path.as_str()),
        Method::Other => Endpoint::Unknown,
    }
}

/// What an endpoint demands of its caller. A routed statement demands what its verb does, which is
/// only known once it has been read.
pub open spec fn demand(e: EndpointModel) -> Option<Requirement> {
    match e {
        EndpointModel::Info => Some(Requirement::Read),
        EndpointModel::Meta => Some(Requirement::Read),
        EndpointModel::Health => Some(Requirement::Read),
        EndpointModel::Topology => Some(Requirement::Read),
        EndpointModel::Shards => Some(Requirement::Read),
        EndpointModel::Replication => Some(Requirement::Read),
        EndpointModel::Config => Some(Requirement::Read),
        EndpointModel::Query => Some(Requirement::Read),
        EndpointModel::QueryAll => Some(Requirement::Read),
        EndpointModel::Explain => Some(Requirement::Read),
        EndpointModel::Route => Some(Requirement::Read),
        EndpointModel::ArchiveStatus => Some(Requirement::Read),
        EndpointModel::Stats => Some(Requirement::Read),
        EndpointModel::Cluster => Some(Requirement::Read),
        EndpointModel::Catalog => Some(Requirement::Read),
        EndpointModel::Agreement => Some(Requirement::Read),
        EndpointModel::Schema { .. } => Some(Requirement::Read),
        EndpointModel::Execute => Some(Requirement::Write),
        EndpointModel::Tx => Some(Requirement::Write),
        EndpointModel::Run => None,
        EndpointModel::Unknown => None,
        _ => Some(Requirement::Admin),
    }
}

impl Endpoint {
    /// What this endpoint demands of its caller, as far as that is known before its body is read.
    pub fn need(&self) -> (r: Option<Requirement>)
        ensures
            r == demand(self@),
    {
        match self {
            Endpoint::Info => Some(Requirement::Read),
            Endpoint::Meta => Some(Requirement::Read),
            Endpoint::Health => Some(Requirement::Read),
            Endpoint::Topology => Some(Requirement::Read),
            Endpoint::Shards => Some(Requirement::Read),
            Endpoint::Replication => Some(Requirement::Read),
            Endpoint::Config => Some(Requirement::Read),
            Endpoint::Query => Some(Requirement::Read),
            Endpoint::QueryAll => Some(Requirement::Read),
            Endpoint::Explain => Some(Requirement::Read),
            Endpoint::Route => Some(Requirement::Read),
            Endpoint::ArchiveStatus => Some(Requirement::Read),
            Endpoint::Stats => Some(Requirement::Read),
            Endpoint::Cluster => Some(Requirement::Read),
            Endpoint::Catalog => Some(Requirement::Read),
            Endpoint::Agreement => Some(Requirement::Read),
            Endpoint::Schema { .. } => Some(Requirement::Read),
            Endpoint::Execute => Some(Requirement::Write),
            Endpoint::Tx => Some(Requirement::Write),
            Endpoint::Run => None,
            Endpoint::Unknown => None,
            _ => Some(Requirement::Admin),
        }
    }
}

// ---- who is asking -----------------------------------------------------------------------------

/// `String::from_utf8`: the text that some bytes encode, where they do.
#[verifier::external_body]
fn text_from(bytes: Vec<u8>) -> (r: Option<String>)
    ensures
        match r {
            Some(s) => valid_utf8(bytes@) && encode_utf8(s@) == bytes@,
            None => !valid_utf8(bytes@),
        },
{
    String::from_utf8(bytes).ok()
}

/// The base64 that an `Authorization` header carries under either scheme.
pub open spec fn credential_text(value: Seq<char>) -> Option<Seq<char>> {
    match after_prefix(value, "Basic "@) {
        Some(rest) => Some(rest),
        None => after_prefix(value, "Bearer "@),
    }
}

/// The name and secret that an `Authorization` header carries.
pub open spec fn credentials_of(value: Seq<char>) -> Option<(Seq<char>, Seq<char>)> {
    match credential_text(value) {
        None => None,
        Some(b64) => match base64_of(trimmed(b64)) {
            None => None,
            Some(bytes) => if valid_utf8(bytes) {
                split_at_first(vstd::utf8::decode_utf8(bytes), ':')
            } else {
                None
            },
        },
    }
}

pub open spec fn pair_views(p: Option<(String, String)>) -> Option<(Seq<char>, Seq<char>)> {
    match p {
        Some((a, b)) => Some((a@, b@)),
        None => None,
    }
}

/// Reads the name and secret of an `Authorization` header: `Basic` or `Bearer`, and the base64 of
/// `name:secret`.
pub fn http_credentials(value: &str) -> (r: Option<(String, String)>)
    ensures
        pair_views(r) == credentials_of(value@),
{
    let rest = match strip_prefix(value, "Basic ") {
        Some(rest) => rest,
        None => match strip_prefix(value, "Bearer ") {
            Some(rest) => rest,
            None => {
                return None;
            },
        },
    };
    let b64 = trim(rest.as_str());
    let bytes = match base64_decode(b64.as_str()) {
        Some(bytes) => bytes,
        None => {
            return None;
        },
    };
    let ghost raw = bytes@;
    match text_from(bytes) {
        Some(text) => {
            proof {
                vstd::utf8::encode_utf8_decode_utf8(text@);
            }
            split_once(text.as_str(), ':')
        },
        None => None,
    }
}

/// Why a caller is not let in: a status and a message, and whether credentials are asked for.
#[derive(Debug)]
pub struct Refusal {
    pub error: HttpError,
    pub challenge: bool,
}

pub ghost struct RefusalModel {
    pub error: HttpErrorModel,
    pub challenge: bool,
}

impl View for Refusal {
    type V = RefusalModel;

    open spec fn view(&self) -> RefusalModel {
        RefusalModel { error: self.error@, challenge: self.challenge }
    }
}

pub open spec fn credentials_wanted() -> Seq<char> {
    "authentication required (Authorization: Basic or Bearer, base64 of name:secret)"@
}

/// Whether a caller names themself in a way that has to be verified.
pub open spec fn has_credentials(users: Seq<UserModel>, header: Option<&str>) -> bool {
    users.len() > 0 && (header matches Some(h) && credentials_of(h@) is Some)
}

/// Who a caller is: nobody where no users are configured, the role of a name and secret that are
/// verified against a fresh challenge, or why they are not let in.
pub open spec fn caller(
    users: Seq<UserModel>,
    header: Option<&str>,
    nonce: Result<[u8; 32], Error>,
) -> Result<Option<Role>, RefusalModel> {
    if users.len() == 0 {
        Ok(None)
    } else if !has_credentials(users, header) {
        Err(RefusalModel { error: http_error(401, credentials_wanted()), challenge: true })
    } else {
        let (name, secret) = credentials_of(header->0@)->0;
        match nonce {
            Err(_) => Err(
                RefusalModel { error: http_error(500, "entropy failure"@), challenge: false },
            ),
            Ok(_) => match role_of(users, name, secret, nonce_option(nonce)) {
                Some(role) => Ok(Some(role)),
                None => Err(
                    RefusalModel {
                        error: http_error(401, "authentication failed"@),
                        challenge: true,
                    },
                ),
            },
        }
    }
}

pub open spec fn caller_is(r: Result<Option<Role>, Refusal>) -> Result<Option<Role>, RefusalModel> {
    match r {
        Ok(role) => Ok(role),
        Err(e) => Err(e@),
    }
}

/// Finds out who a caller is, from the `Authorization` header. `nonce` makes a challenge.
pub fn authenticate<N: Fn() -> Result<[u8; 32], Error>>(
    auth: Option<&AuthConfig>,
    header: Option<&str>,
    nonce: &N,
) -> (r: Result<Option<Role>, Refusal>)
    requires
        call_requires(*nonce, ()),
    ensures
        if has_credentials(users_of(auth), header) {
            exists|n: Result<[u8; 32], Error>| #[trigger]
                call_ensures(*nonce, (), n) && caller_is(r) == caller(users_of(auth), header, n)
        } else {
            forall|n: Result<[u8; 32], Error>|
                caller_is(r) == #[trigger] caller(users_of(auth), header, n)
        },
{
    let auth = match auth {
        Some(a) => if a.is_empty() {
            return Ok(None);
        } else {
            a
        },
        None => {
            return Ok(None);
        },
    };
    let found = match header {
        Some(value) => http_credentials(value),
        None => None,
    };
    let (name, secret) = match found {
        Some(pair) => pair,
        None => {
            return Err(
                Refusal {
                    error: HttpError::new(
                        401,
                        "authentication required (Authorization: Basic or Bearer, base64 of name:secret)",
                    ),
                    challenge: true,
                },
            );
        },
    };
    let n = nonce();
    assert(call_ensures(*nonce, (), n));
    match n {
        Err(_) => Err(Refusal { error: HttpError::new(500, "entropy failure"), challenge: false }),
        Ok(bytes) => {
            let answer = super::auth::prove(&derive_key(secret.as_str()), &bytes);
            match auth.verify(name.as_str(), &bytes, &answer) {
                Some(role) => Ok(Some(role)),
                None => Err(
                    Refusal {
                        error: HttpError::new(401, "authentication failed"),
                        challenge: true,
                    },
                ),
            }
        },
    }
}

/// Whether a caller may do something, where users are configured.
pub open spec fn allowed(on: bool, role: Option<Role>, need: Requirement) -> Result<(), HttpErrorModel> {
    if !on {
        Ok(())
    } else {
        match role {
            Some(r) => if r.may(need) {
                Ok(())
            } else {
                Err(http_error(403, "the authenticated role does not permit this"@))
            },
            None => Err(http_error(401, "authentication required"@)),
        }
    }
}

pub open spec fn done_or(r: Result<(), HttpError>) -> Result<(), HttpErrorModel> {
    match r {
        Ok(_) => Ok(()),
        Err(e) => Err(e@),
    }
}

/// Checks that a caller may do something.
pub fn check(on: bool, role: Option<Role>, need: Requirement) -> (r: Result<(), HttpError>)
    ensures
        done_or(r) == allowed(on, role, need),
{
    if !on {
        return Ok(());
    }
    match role {
        Some(r) => if r.permits(need) {
            Ok(())
        } else {
            Err(HttpError::new(403, "the authenticated role does not permit this"))
        },
        None => Err(HttpError::new(401, "authentication required")),
    }
}

} // verus!
