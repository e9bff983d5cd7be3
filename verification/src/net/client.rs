//! A blocking client.
//!
//! A client speaks over a link, which sends one request and gives its answer. Every method says
//! what it sends, which is all it sends, and what it makes of the answer.

use vstd::prelude::*;
use vstd::utf8::encode_utf8;

use super::auth::{blake3_keyed_of, blake3_of, derive_key, Key, prove, Role};
use super::protocol::{
    outcomes_model, PROTOCOL_VERSION, ReadConsistency, Request, RequestModel, Response,
    ResponseModel, ShardOutcome, statements_model, users_model,
};
use super::server::{kind, response_kind};
use crate::calls::Line;
use crate::error::{Error, ErrorModel};
use crate::storage::exec::{
    copy_bytes, Datum, QueryResult, row_view, DbStatement, StatementModel, Table, DbValue,
};

verus! {

// ---- a round trip ------------------------------------------------------------------------------

/// What an answer comes to: backpressure and faults are errors, all else is a response.
pub open spec fn trip(a: Result<ResponseModel, ErrorModel>) -> Result<ResponseModel, ErrorModel> {
    match a {
        Ok(ResponseModel::Error { message, retryable: true }) => Err(ErrorModel::Busy(message)),
        Ok(ResponseModel::Error { message, retryable: false }) => Err(
            ErrorModel::Protocol(message),
        ),
        other => other,
    }
}

pub open spec fn answer_view(a: Result<Response, Error>) -> Result<ResponseModel, ErrorModel> {
    match a {
        Ok(r) => Ok(r@),
        Err(e) => Err(e@),
    }
}

/// Tells backpressure and faults from the other answers.
pub fn sort_answer(a: Result<Response, Error>) -> (r: Result<Response, Error>)
    ensures
        answer_view(r) == trip(answer_view(a)),
{
    match a {
        Ok(Response::Error { message, retryable }) => if retryable {
            Err(Error::Busy(message))
        } else {
            Err(Error::Protocol(message))
        },
        other => other,
    }
}

/// What was asked over a link, and what it answered, in order.
pub type Talk = Seq<(RequestModel, Result<ResponseModel, ErrorModel>)>;

/// The record of a link in terms of what its messages say.
pub open spec fn talk_of(record: Seq<(Request, Result<Response, Error>)>) -> Talk {
    record.map_values(|e: (Request, Result<Response, Error>)| (e.0.model(), answer_view(e.1)))
}

/// Whether this is an answer that a link gives to a request.
pub open spec fn answers<L: Fn(Request) -> Result<Response, Error>>(
    link: L,
    req: RequestModel,
    a: Result<ResponseModel, ErrorModel>,
) -> bool {
    exists|q: Request, x: Result<Response, Error>|
        q.model() == req && answer_view(x) == a && #[trigger] call_ensures(link, (q,), x)
}

/// The error for an answer that does not fit. A rejection is a result, so it says what was wrong
/// with the statement.
pub open spec fn misfit(r: ResponseModel) -> ErrorModel {
    match r {
        ResponseModel::Rejected { message } => ErrorModel::Unsupported(message),
        other => ErrorModel::Protocol("unexpected response: "@ + kind(other)),
    }
}

pub fn unexpected(r: Response) -> (e: Error)
    ensures
        e@ == misfit(r@),
{
    match r {
        Response::Rejected { message } => Error::Unsupported(message),
        other => {
            let mut m = "unexpected response: ".to_owned();
            m.append(response_kind(&other));
            Error::Protocol(m)
        },
    }
}

// ---- reading an answer -------------------------------------------------------------------------

pub open spec fn rows_of(t: Result<ResponseModel, ErrorModel>) -> Result<Table, ErrorModel> {
    match t {
        Ok(ResponseModel::Rows { columns, rows }) => Ok(Table { columns, rows }),
        Ok(other) => Err(misfit(other)),
        Err(e) => Err(e),
    }
}

pub open spec fn table_view(r: Result<QueryResult, Error>) -> Result<Table, ErrorModel> {
    match r {
        Ok(t) => Ok(t@),
        Err(e) => Err(e@),
    }
}

fn read_rows(t: Result<Response, Error>) -> (r: Result<QueryResult, Error>)
    ensures
        table_view(r) == rows_of(answer_view(t)),
{
    match t {
        Ok(Response::Rows { columns, rows }) => Ok(QueryResult { columns, rows }),
        Ok(other) => Err(unexpected(other)),
        Err(e) => Err(e),
    }
}

/// A write's answer: how many rows changed, and the row inserted last. A statement that gave rows
/// changed none.
pub open spec fn changes_of(t: Result<ResponseModel, ErrorModel>) -> Result<(u64, i64), ErrorModel> {
    match t {
        Ok(ResponseModel::Changed { rows_affected, last_insert_rowid }) => Ok(
            (rows_affected, last_insert_rowid),
        ),
        Ok(ResponseModel::Rows { .. }) => Ok((0, 0)),
        Ok(other) => Err(misfit(other)),
        Err(e) => Err(e),
    }
}

/// The answer to a `COMMIT`.
pub open spec fn commit_of(t: Result<ResponseModel, ErrorModel>) -> Result<(u64, i64), ErrorModel> {
    match t {
        Ok(ResponseModel::Changed { rows_affected, last_insert_rowid }) => Ok(
            (rows_affected, last_insert_rowid),
        ),
        Ok(other) => Err(misfit(other)),
        Err(e) => Err(e),
    }
}

pub open spec fn pair_view(r: Result<(u64, i64), Error>) -> Result<(u64, i64), ErrorModel> {
    match r {
        Ok(p) => Ok(p),
        Err(e) => Err(e@),
    }
}

/// An answer that says only that it is done.
pub open spec fn done_of(t: Result<ResponseModel, ErrorModel>) -> Result<(), ErrorModel> {
    match t {
        Ok(ResponseModel::Done) => Ok(()),
        Ok(other) => Err(misfit(other)),
        Err(e) => Err(e),
    }
}

pub open spec fn unit_view(r: Result<(), Error>) -> Result<(), ErrorModel> {
    match r {
        Ok(_) => Ok(()),
        Err(e) => Err(e@),
    }
}

fn read_done(t: Result<Response, Error>) -> (r: Result<(), Error>)
    ensures
        unit_view(r) == done_of(answer_view(t)),
{
    match t {
        Ok(Response::Done) => Ok(()),
        Ok(other) => Err(unexpected(other)),
        Err(e) => Err(e),
    }
}

// ---- connecting --------------------------------------------------------------------------------

/// A connected client.
pub struct Client<L> {
    link: Line<Request, Result<Response, Error>, L>,
    shard_count: u32,
    epoch: Option<u64>,
}

/// How this client calls itself.
pub open spec fn client_name() -> Seq<char> {
    "meshdb-client/0.1.0"@
}

pub open spec fn hello() -> RequestModel {
    RequestModel::Hello { version: PROTOCOL_VERSION, client: client_name() }
}

/// What an answer to a handshake that is done comes to.
pub open spec fn welcomed(
    t: Result<ResponseModel, ErrorModel>,
    what: Seq<char>,
) -> Result<(u32, Option<u64>), ErrorModel> {
    match t {
        Ok(ResponseModel::Welcome { shard_count, epoch, .. }) => Ok((shard_count, epoch)),
        Ok(other) => Err(ErrorModel::Protocol(what + kind(other))),
        Err(e) => Err(e),
    }
}

/// Whether this is a handshake, and what it comes to: who the server says it is, or an error. A
/// hello is all that is sent, unless it is answered with a challenge and there are credentials.
/// Then a proof made of the key follows; the key itself is never sent.
pub open spec fn greeting(
    talk: Talk,
    credentials: Option<(Seq<char>, Seq<u8>)>,
    r: Result<(u32, Option<u64>), ErrorModel>,
) -> bool {
    &&& talk.len() > 0
    &&& talk[0].0 == hello()
    &&& match trip(talk[0].1) {
        Ok(ResponseModel::Challenge { nonce }) => match credentials {
            None => talk.len() == 1 && r == Err::<(u32, Option<u64>), ErrorModel>(
                ErrorModel::Protocol(
                    "this server requires authentication; connect with credentials (Client::connect_as)"@,
                ),
            ),
            Some((name, key)) => talk.len() == 2 && talk[1].0 == (RequestModel::Auth {
                name,
                proof: blake3_keyed_of(key, nonce),
            }) && r == welcomed(
                trip(talk[1].1),
                "expected a welcome after authenticating, got "@,
            ),
        },
        t => talk.len() == 1 && r == welcomed(t, "expected a welcome, got "@),
    }
}

/// Whether a handshake may send this: a hello, or an answer to a challenge under the name.
pub open spec fn may_greet(credentials: Option<(Seq<char>, Seq<u8>)>, m: RequestModel) -> bool {
    m == hello() || (credentials matches Some(c) && m matches RequestModel::Auth { name, .. }
        && name == c.0)
}

/// Whether a link takes what a handshake may send over it.
pub open spec fn greets<L: Fn(Request) -> Result<Response, Error>>(
    link: L,
    credentials: Option<(Seq<char>, Seq<u8>)>,
) -> bool {
    forall|q: Request| may_greet(credentials, q.model()) ==> #[trigger] call_requires(link, (q,))
}

/// Whether a link gives the answers of a talk.
pub open spec fn talked<L: Fn(Request) -> Result<Response, Error>>(link: L, talk: Talk) -> bool {
    forall|i: int| 0 <= i < talk.len() ==> answers(link, (#[trigger] talk[i]).0, talk[i].1)
}

/// Whether a handshake over a link comes to this.
pub open spec fn shaken<L: Fn(Request) -> Result<Response, Error>>(
    link: L,
    credentials: Option<(Seq<char>, Seq<u8>)>,
    r: Result<Client<L>, Error>,
) -> bool {
    exists|talk: Talk| #[trigger]
        greeting(talk, credentials, connected(r)) && talked(link, talk) && (r matches Ok(c)
            ==> c.wire() == link && c.talk() == talk)
}

pub open spec fn credentials_view(c: Option<(String, Key)>) -> Option<(Seq<char>, Seq<u8>)> {
    match c {
        Some((name, key)) => Some((name@, key@)),
        None => None,
    }
}

/// What a client learnt when it connected.
pub open spec fn connected<L>(r: Result<Client<L>, Error>) -> Result<(u32, Option<u64>), ErrorModel> {
    match r {
        Ok(c) => Ok((c.shards(), c.generation())),
        Err(e) => Err(e@),
    }
}

/// A connection to be opened, with a bound on that and one on every wait after it.
#[derive(Debug)]
pub struct Dial {
    pub addr: String,
    pub connect_ms: u64,
    pub io_ms: u64,
}

impl Dial {
    pub open spec fn is(self, addr: Seq<char>, connect_ms: u64, io_ms: u64) -> bool {
        self.addr@ == addr && self.connect_ms == connect_ms && self.io_ms == io_ms
    }
}

/// Whether an address is dialled once, and this comes of it and of the handshake after it.
pub open spec fn dialled<L: Fn(Request) -> Result<Response, Error>>(
    before: Seq<(Dial, Result<L, Error>)>,
    after: Seq<(Dial, Result<L, Error>)>,
    addr: Seq<char>,
    connect_ms: u64,
    io_ms: u64,
    credentials: Option<(Seq<char>, Seq<u8>)>,
    r: Result<Client<L>, Error>,
) -> bool {
    &&& after == before.push(after.last())
    &&& after.last().0.is(addr, connect_ms, io_ms)
    &&& match after.last().1 {
        Err(e) => r == Err::<Client<L>, Error>(e),
        Ok(link) => shaken(link, credentials, r),
    }
}

/// Whether an address is dialled once, the link is secured once, and this comes of it and of the
/// handshake after it.
pub open spec fn dialled_securely<T, L: Fn(Request) -> Result<Response, Error>>(
    dials: Seq<(Dial, Result<T, Error>)>,
    dials_after: Seq<(Dial, Result<T, Error>)>,
    secured: Seq<(T, Result<L, Error>)>,
    secured_after: Seq<(T, Result<L, Error>)>,
    addr: Seq<char>,
    connect_ms: u64,
    io_ms: u64,
    credentials: Option<(Seq<char>, Seq<u8>)>,
    r: Result<Client<L>, Error>,
) -> bool {
    &&& dials_after == dials.push(dials_after.last())
    &&& dials_after.last().0.is(addr, connect_ms, io_ms)
    &&& match dials_after.last().1 {
        Err(e) => secured_after == secured && r == Err::<Client<L>, Error>(e),
        Ok(raw) => secured_after == secured.push((raw, secured_after.last().1))
            && match secured_after.last().1 {
            Err(e) => r == Err::<Client<L>, Error>(e),
            Ok(link) => shaken(link, credentials, r),
        },
    }
}

impl<L> Client<L> {
    pub closed spec fn shards(&self) -> u32 {
        self.shard_count
    }

    pub closed spec fn generation(&self) -> Option<u64> {
        self.epoch
    }

    pub fn shard_count(&self) -> (r: u32)
        ensures
            r == self.shards(),
    {
        self.shard_count
    }

    pub fn epoch(&self) -> (r: Option<u64>)
        ensures
            r == self.generation(),
    {
        self.epoch
    }
}

/// Whether a client sent one request and nothing else, and is otherwise as it was.
pub open spec fn sent_one<L: Fn(Request) -> Result<Response, Error>>(
    before: Client<L>,
    after: Client<L>,
    req: RequestModel,
) -> bool {
    &&& after.is_same(before)
    &&& after.talk() == before.talk().push((req, after.last_answer()))
    &&& answers(before.wire(), req, after.last_answer())
}

impl<L: Fn(Request) -> Result<Response, Error>> Client<L> {
    /// What answers the requests.
    pub closed spec fn wire(&self) -> L {
        self.link.far()
    }

    /// Everything that was sent, with its answers, the handshake among it.
    pub closed spec fn talk(&self) -> Talk {
        talk_of(self.link.record())
    }

    /// The answer to what was sent last.
    pub open spec fn last_answer(&self) -> Result<ResponseModel, ErrorModel> {
        self.talk().last().1
    }

    /// What the last answer comes to.
    pub open spec fn reply(&self) -> Result<ResponseModel, ErrorModel> {
        trip(self.last_answer())
    }

    pub open spec fn is_same(&self, other: Client<L>) -> bool {
        self.wire() == other.wire() && self.shards() == other.shards() && self.generation()
            == other.generation()
    }

    /// Whether the link takes a request.
    pub open spec fn takes(&self, m: RequestModel) -> bool {
        forall|q: Request| q.model() == m ==> #[trigger] call_requires(self.wire(), (q,))
    }

    /// Connects with the usual bound, half a minute, on both waits.
    pub fn connect<D: Fn(Dial) -> Result<L, Error>>(
        addr: &str,
        dial: &mut Line<Dial, Result<L, Error>, D>,
    ) -> (r: Result<Client<L>, Error>)
        requires
            forall|d: Dial| d.is(addr@, 30_000, 30_000) ==> #[trigger] call_requires(
                old(dial).far(),
                (d,),
            ),
            forall|l: L| #[trigger] greets(l, None),
        ensures
            final(dial).far() == old(dial).far(),
            dialled(old(dial).record(), final(dial).record(), addr@, 30_000, 30_000, None, r),
    {
        Self::connect_with(addr, 30_000, dial)
    }

    /// Connects and authenticates. The secret is never sent.
    pub fn connect_as<D: Fn(Dial) -> Result<L, Error>>(
        addr: &str,
        name: &str,
        secret: &str,
        dial: &mut Line<Dial, Result<L, Error>, D>,
    ) -> (r: Result<Client<L>, Error>)
        requires
            forall|d: Dial| d.is(addr@, 30_000, 30_000) ==> #[trigger] call_requires(
                old(dial).far(),
                (d,),
            ),
            forall|l: L, key: Seq<u8>| #[trigger] greets(l, Some((name@, key))),
        ensures
            final(dial).far() == old(dial).far(),
            dialled(
                old(dial).record(),
                final(dial).record(),
                addr@,
                30_000,
                30_000,
                Some((name@, blake3_of(encode_utf8(secret@)))),
                r,
            ),
    {
        Self::connect_full(addr, 30_000, 30_000, Some((name.to_owned(), derive_key(secret))), dial)
    }

    /// Connects with one bound on both waits.
    pub fn connect_with<D: Fn(Dial) -> Result<L, Error>>(
        addr: &str,
        timeout_ms: u64,
        dial: &mut Line<Dial, Result<L, Error>, D>,
    ) -> (r: Result<Client<L>, Error>)
        requires
            forall|d: Dial| d.is(addr@, timeout_ms, timeout_ms) ==> #[trigger] call_requires(
                old(dial).far(),
                (d,),
            ),
            forall|l: L| #[trigger] greets(l, None),
        ensures
            final(dial).far() == old(dial).far(),
            dialled(old(dial).record(), final(dial).record(), addr@, timeout_ms, timeout_ms, None, r),
    {
        Self::connect_bounded(addr, timeout_ms, timeout_ms, dial)
    }

    /// Connects with a bound on the connection and one on every wait after it, so that a peer that
    /// hangs is no different from one that is gone.
    pub fn connect_bounded<D: Fn(Dial) -> Result<L, Error>>(
        addr: &str,
        connect_ms: u64,
        io_ms: u64,
        dial: &mut Line<Dial, Result<L, Error>, D>,
    ) -> (r: Result<Client<L>, Error>)
        requires
            forall|d: Dial| d.is(addr@, connect_ms, io_ms) ==> #[trigger] call_requires(
                old(dial).far(),
                (d,),
            ),
            forall|l: L| #[trigger] greets(l, None),
        ensures
            final(dial).far() == old(dial).far(),
            dialled(old(dial).record(), final(dial).record(), addr@, connect_ms, io_ms, None, r),
    {
        Self::connect_full(addr, connect_ms, io_ms, None, dial)
    }

    /// Connects with bounded waits and, where they are given, credentials. `dial` opens a link.
    pub fn connect_full<D: Fn(Dial) -> Result<L, Error>>(
        addr: &str,
        connect_ms: u64,
        io_ms: u64,
        credentials: Option<(String, Key)>,
        dial: &mut Line<Dial, Result<L, Error>, D>,
    ) -> (r: Result<Client<L>, Error>)
        requires
            forall|d: Dial| d.is(addr@, connect_ms, io_ms) ==> #[trigger] call_requires(
                old(dial).far(),
                (d,),
            ),
            forall|l: L| #[trigger] greets(l, credentials_view(credentials)),
        ensures
            final(dial).far() == old(dial).far(),
            dialled(
                old(dial).record(),
                final(dial).record(),
                addr@,
                connect_ms,
                io_ms,
                credentials_view(credentials),
                r,
            ),
    {
        match dial.ask(Dial { addr: addr.to_owned(), connect_ms, io_ms }) {
            Ok(link) => {
                assert(greets(link, credentials_view(credentials)));
                Self::from_link(link, credentials)
            },
            Err(e) => Err(e),
        }
    }

    /// Connects over a link that is secured before anything is sent. `dial` opens a raw link, and
    /// `secure` wraps it.
    pub fn connect_tls<T, D: Fn(Dial) -> Result<T, Error>, S: Fn(T) -> Result<L, Error>>(
        addr: &str,
        connect_ms: u64,
        io_ms: u64,
        credentials: Option<(String, Key)>,
        dial: &mut Line<Dial, Result<T, Error>, D>,
        secure: &mut Line<T, Result<L, Error>, S>,
    ) -> (r: Result<Client<L>, Error>)
        requires
            forall|d: Dial| d.is(addr@, connect_ms, io_ms) ==> #[trigger] call_requires(
                old(dial).far(),
                (d,),
            ),
            forall|t: T| #[trigger] call_requires(old(secure).far(), (t,)),
            forall|l: L| #[trigger] greets(l, credentials_view(credentials)),
        ensures
            final(dial).far() == old(dial).far(),
            final(secure).far() == old(secure).far(),
            dialled_securely(
                old(dial).record(),
                final(dial).record(),
                old(secure).record(),
                final(secure).record(),
                addr@,
                connect_ms,
                io_ms,
                credentials_view(credentials),
                r,
            ),
    {
        match dial.ask(Dial { addr: addr.to_owned(), connect_ms, io_ms }) {
            Ok(raw) => match secure.ask(raw) {
                Ok(link) => {
                    assert(greets(link, credentials_view(credentials)));
                    Self::from_link(link, credentials)
                },
                Err(e) => Err(e),
            },
            Err(e) => Err(e),
        }
    }

    /// Runs the handshake over an established link.
    pub fn from_link(link: L, credentials: Option<(String, Key)>) -> (r: Result<Client<L>, Error>)
        requires
            greets(link, credentials_view(credentials)),
        ensures
            shaken(link, credentials_view(credentials), r),
    {
        let ghost creds = credentials_view(credentials);
        let mut me = Client { link: Line::new(link), shard_count: 0, epoch: None };
        assert(me.talk() =~= Seq::empty());
        let first = me.round_trip(
            Request::Hello {
                version: PROTOCOL_VERSION,
                client: "meshdb-client/0.1.0".to_owned(),
            },
        );
        let ghost heard = me.talk();
        assert(heard.len() == 1 && heard[0].0 == hello() && trip(heard[0].1) == answer_view(first));
        match first {
            Ok(Response::Challenge { nonce }) => {
                assert(heard[0].1 == Ok::<ResponseModel, ErrorModel>(
                    ResponseModel::Challenge { nonce: nonce@ },
                ));
                let (name, key) = match credentials {
                    Some(c) => c,
                    None => {
                        let r: Result<Client<L>, Error> = Err(
                            Error::Protocol(
                                "this server requires authentication; connect with credentials (Client::connect_as)".to_owned(),
                            ),
                        );
                        assert(greeting(heard, creds, connected(r)));
                        return r;
                    },
                };
                let answer = prove(&key, &nonce);
                let ghost asked = RequestModel::Auth { name: name@, proof: answer@ };
                assert(may_greet(creds, asked));
                let second = me.round_trip(Request::Auth { name, proof: answer });
                let ghost talk = me.talk();
                assert(talk.len() == 2 && talk[0] == heard[0] && talk[1].0 == asked && trip(
                    talk[1].1,
                ) == answer_view(second));
                let r: Result<Client<L>, Error> = match second {
                    Ok(Response::Welcome { shard_count, epoch, .. }) => {
                        me.shard_count = shard_count;
                        me.epoch = epoch;
                        Ok(me)
                    },
                    Ok(other) => {
                        let mut m = "expected a welcome after authenticating, got ".to_owned();
                        m.append(response_kind(&other));
                        Err(Error::Protocol(m))
                    },
                    Err(e) => Err(e),
                };
                assert(greeting(talk, creds, connected(r)));
                r
            },
            Ok(Response::Welcome { shard_count, epoch, .. }) => {
                me.shard_count = shard_count;
                me.epoch = epoch;
                let r: Result<Client<L>, Error> = Ok(me);
                assert(greeting(heard, creds, connected(r)));
                r
            },
            Ok(other) => {
                let mut m = "expected a welcome, got ".to_owned();
                m.append(response_kind(&other));
                let r: Result<Client<L>, Error> = Err(Error::Protocol(m));
                assert(greeting(heard, creds, connected(r)));
                r
            },
            Err(e) => {
                let r: Result<Client<L>, Error> = Err(e);
                assert(greeting(heard, creds, connected(r)));
                r
            },
        }
    }

    fn round_trip(&mut self, req: Request) -> (r: Result<Response, Error>)
        requires
            old(self).takes(req.model()),
        ensures
            sent_one(*old(self), *final(self), req.model()),
            answer_view(r) == final(self).reply(),
    {
        let ghost asked = req;
        let ghost before = self.link.record();
        assert(call_requires(self.wire(), (asked,)));
        let a = self.link.ask(req);
        let ghost given = a;
        assert(talk_of(self.link.record()) =~= talk_of(before).push(
            (asked.model(), answer_view(given)),
        ));
        sort_answer(a)
    }

    // ---- requests ------------------------------------------------------------------------------

    /// Which shard a key belongs to. The server is asked, so that there is one routing hash.
    pub fn route(&mut self, key: &Vec<u8>) -> (r: Result<u32, Error>)
        requires
            old(self).takes(RequestModel::Route { key: key@ }),
        ensures
            sent_one(*old(self), *final(self), RequestModel::Route { key: key@ }),
            number_view(r) == shard_of(final(self).reply()),
    {
        match self.round_trip(Request::Route { key: copy_bytes(key) }) {
            Ok(Response::Routed { shard }) => Ok(shard),
            Ok(other) => Err(unexpected(other)),
            Err(e) => Err(e),
        }
    }

    /// Reads a shard at the strongest level.
    pub fn query(&mut self, shard: u32, sql: DbStatement) -> (r: Result<QueryResult, Error>)
        requires
            old(self).takes(one_read(shard, sql@, ReadConsistency::Linearizable)),
        ensures
            sent_one(
                *old(self),
                *final(self),
                one_read(shard, sql@, ReadConsistency::Linearizable),
            ),
            table_view(r) == rows_of(final(self).reply()),
    {
        self.query_with(shard, sql, ReadConsistency::Linearizable)
    }

    /// Reads a shard at a chosen freshness.
    pub fn query_with(&mut self, shard: u32, sql: DbStatement, consistency: ReadConsistency) -> (r: Result<
        QueryResult,
        Error,
    >)
        requires
            old(self).takes(one_read(shard, sql@, consistency)),
        ensures
            sent_one(*old(self), *final(self), one_read(shard, sql@, consistency)),
            table_view(r) == rows_of(final(self).reply()),
    {
        let t = self.round_trip(Request::Query { shard, statement: sql, consistency });
        read_rows(t)
    }

    /// Reads across every shard, merged by the server's planner.
    pub fn query_all(&mut self, sql: &str) -> (r: Result<QueryResult, Error>)
        requires
            old(self).takes(RequestModel::QueryAll { statement: bare(sql@) }),
        ensures
            sent_one(*old(self), *final(self), RequestModel::QueryAll { statement: bare(sql@) }),
            table_view(r) == rows_of(final(self).reply()),
    {
        let t = self.round_trip(Request::QueryAll { statement: DbStatement::new(sql) });
        read_rows(t)
    }

    /// Writes to one shard: the rows affected, and the row inserted last.
    pub fn execute(&mut self, shard: u32, sql: DbStatement) -> (r: Result<(u64, i64), Error>)
        requires
            old(self).takes(RequestModel::Execute { shard, statements: seq![sql@] }),
        ensures
            sent_one(
                *old(self),
                *final(self),
                RequestModel::Execute { shard, statements: seq![sql@] },
            ),
            pair_view(r) == changes_of(final(self).reply()),
    {
        let ghost model = sql@;
        let mut one: Vec<DbStatement> = Vec::new();
        one.push(sql);
        assert(statements_model(one@) =~= seq![model]);
        self.execute_batch(shard, one)
    }

    /// Writes some statements to one shard, in order.
    pub fn execute_batch(&mut self, shard: u32, statements: Vec<DbStatement>) -> (r: Result<
        (u64, i64),
        Error,
    >)
        requires
            old(self).takes(
                RequestModel::Execute { shard, statements: statements_model(statements@) },
            ),
        ensures
            sent_one(
                *old(self),
                *final(self),
                RequestModel::Execute { shard, statements: statements_model(statements@) },
            ),
            pair_view(r) == changes_of(final(self).reply()),
    {
        match self.round_trip(Request::Execute { shard, statements }) {
            Ok(Response::Changed { rows_affected, last_insert_rowid }) => Ok(
                (rows_affected, last_insert_rowid),
            ),
            Ok(Response::Rows { .. }) => Ok((0, 0)),
            Ok(other) => Err(unexpected(other)),
            Err(e) => Err(e),
        }
    }

    /// Applies a statement to every shard: what became of it on each.
    pub fn execute_all(&mut self, sql: &str) -> (r: Result<Vec<(u32, ShardOutcome)>, Error>)
        requires
            old(self).takes(RequestModel::ExecuteAll { statement: bare(sql@) }),
        ensures
            sent_one(*old(self), *final(self), RequestModel::ExecuteAll { statement: bare(sql@) }),
            match final(self).reply() {
                Ok(ResponseModel::AllShards { outcomes }) => r matches Ok(v) && outcomes_model(v@)
                    == outcomes,
                Ok(other) => r matches Err(e) && e@ == misfit(other),
                Err(x) => r matches Err(e) && e@ == x,
            },
    {
        match self.round_trip(Request::ExecuteAll { statement: DbStatement::new(sql) }) {
            Ok(Response::AllShards { outcomes }) => Ok(outcomes),
            Ok(other) => Err(unexpected(other)),
            Err(e) => Err(e),
        }
    }

    /// Writes a key's row to the shard that the key belongs to. The route is asked for first; where
    /// that fails no write is sent.
    pub fn put(&mut self, key: &Vec<u8>, sql: &str, params: Vec<DbValue>) -> (r: Result<
        (u64, i64),
        Error,
    >)
        requires
            old(self).takes(RequestModel::Route { key: key@ }),
            forall|n: u32| #[trigger] old(self).takes(row_write(n, sql@, row_view(params@))),
        ensures
            put_done(
                *old(self),
                *final(self),
                key@,
                sql@,
                row_view(params@),
                pair_view(r),
            ),
    {
        let ghost before = *self;
        let ghost values = row_view(params@);
        match self.route(key) {
            Ok(n) => {
                let ghost mid = *self;
                assert(before.takes(row_write(n, sql@, values)));
                let r = self.execute(n, DbStatement::with_params(sql, params));
                assert(self.talk()[before.talk().len() as int] == mid.talk().last());
                r
            },
            Err(e) => {
                assert(self.talk()[before.talk().len() as int] == self.talk().last());
                Err(e)
            },
        }
    }

    /// Begins a transaction on a shard. Its statements are buffered on the server and applied as
    /// one atomic batch at [`Transaction::commit`].
    pub fn begin(&mut self, shard: u32) -> (r: Result<Transaction<'_, L>, Error>)
        requires
            old(self).takes(one_word(shard, "BEGIN"@)),
        ensures
            match r {
                Ok(t) => sent_one(*old(self), *t.client, one_word(shard, "BEGIN"@)) && done_of(
                    t.client.reply(),
                ) is Ok && t.shard == shard && *final(self) == *final(t.client),
                Err(e) => sent_one(*old(self), *final(self), one_word(shard, "BEGIN"@)) && done_of(
                    final(self).reply(),
                ) == Err::<(), ErrorModel>(e@),
            },
    {
        match self.control(shard, "BEGIN") {
            Ok(_) => Ok(Transaction { client: self, shard }),
            Err(e) => Err(e),
        }
    }

    fn control(&mut self, shard: u32, word: &str) -> (r: Result<(), Error>)
        requires
            old(self).takes(one_word(shard, word@)),
        ensures
            sent_one(*old(self), *final(self), one_word(shard, word@)),
            unit_view(r) == done_of(final(self).reply()),
    {
        let t = self.round_trip(word_request(shard, word));
        read_done(t)
    }

    /// Creates or replaces a user. Only the derived key is sent, never the secret.
    pub fn create_user(&mut self, name: &str, secret: &str, role: Role) -> (r: Result<(), Error>)
        requires
            forall|key: Seq<u8>| #[trigger]
                old(self).takes(RequestModel::CreateUser { name: name@, key, role }),
        ensures
            sent_one(*old(self), *final(self), new_user(name@, secret@, role)),
            unit_view(r) == done_of(final(self).reply()),
    {
        let t = self.round_trip(
            Request::CreateUser { name: name.to_owned(), key: derive_key(secret), role },
        );
        read_done(t)
    }

    /// Removes a user.
    pub fn drop_user(&mut self, name: &str) -> (r: Result<(), Error>)
        requires
            old(self).takes(RequestModel::DropUser { name: name@ }),
        ensures
            sent_one(*old(self), *final(self), RequestModel::DropUser { name: name@ }),
            unit_view(r) == done_of(final(self).reply()),
    {
        let t = self.round_trip(Request::DropUser { name: name.to_owned() });
        read_done(t)
    }

    /// The users: names and roles, never keys.
    pub fn list_users(&mut self) -> (r: Result<Vec<(String, Role)>, Error>)
        requires
            old(self).takes(RequestModel::ListUsers),
        ensures
            sent_one(*old(self), *final(self), RequestModel::ListUsers),
            match final(self).reply() {
                Ok(ResponseModel::Users { users }) => r matches Ok(v) && users_model(v@) == users,
                Ok(other) => r matches Err(e) && e@ == misfit(other),
                Err(x) => r matches Err(e) && e@ == x,
            },
    {
        match self.round_trip(Request::ListUsers) {
            Ok(Response::Users { users }) => Ok(users),
            Ok(other) => Err(unexpected(other)),
            Err(e) => Err(e),
        }
    }

    /// Sends any request and returns its answer.
    pub fn request(&mut self, req: Request) -> (r: Result<Response, Error>)
        requires
            old(self).takes(req.model()),
        ensures
            sent_one(*old(self), *final(self), req.model()),
            answer_view(r) == final(self).reply(),
    {
        self.round_trip(req)
    }

    /// Asks a peer for its vote; request and reply are the cluster's own messages.
    pub fn request_vote(&mut self, req: &Vec<u8>) -> (r: Result<Vec<u8>, Error>)
        requires
            old(self).takes(RequestModel::Vote(req@)),
        ensures
            sent_one(*old(self), *final(self), RequestModel::Vote(req@)),
            match final(self).reply() {
                Ok(ResponseModel::Voted(m)) => r matches Ok(v) && v@ == m,
                Ok(other) => r matches Err(e) && e@ == ErrorModel::Protocol(
                    "unexpected response to a vote request: "@ + kind(other),
                ),
                Err(x) => r matches Err(e) && e@ == x,
            },
    {
        match self.round_trip(Request::Vote(copy_bytes(req))) {
            Ok(Response::Voted(m)) => Ok(m),
            Ok(other) => {
                let mut m = "unexpected response to a vote request: ".to_owned();
                m.append(response_kind(&other));
                Err(Error::Protocol(m))
            },
            Err(e) => Err(e),
        }
    }

    /// Asserts leadership to a peer; request and reply are the cluster's own messages.
    pub fn heartbeat(&mut self, beat: &Vec<u8>) -> (r: Result<Vec<u8>, Error>)
        requires
            old(self).takes(RequestModel::Beat(beat@)),
        ensures
            sent_one(*old(self), *final(self), RequestModel::Beat(beat@)),
            match final(self).reply() {
                Ok(ResponseModel::Beat(m)) => r matches Ok(v) && v@ == m,
                Ok(other) => r matches Err(e) && e@ == ErrorModel::Protocol(
                    "unexpected response to a heartbeat: "@ + kind(other),
                ),
                Err(x) => r matches Err(e) && e@ == x,
            },
    {
        match self.round_trip(Request::Beat(copy_bytes(beat))) {
            Ok(Response::Beat(m)) => Ok(m),
            Ok(other) => {
                let mut m = "unexpected response to a heartbeat: ".to_owned();
                m.append(response_kind(&other));
                Err(Error::Protocol(m))
            },
            Err(e) => Err(e),
        }
    }
}

/// The shard that an answer routes to.
pub open spec fn shard_of(t: Result<ResponseModel, ErrorModel>) -> Result<u32, ErrorModel> {
    match t {
        Ok(ResponseModel::Routed { shard }) => Ok(shard),
        Ok(other) => Err(misfit(other)),
        Err(e) => Err(e),
    }
}

pub open spec fn number_view(r: Result<u32, Error>) -> Result<u32, ErrorModel> {
    match r {
        Ok(n) => Ok(n),
        Err(e) => Err(e@),
    }
}

/// A statement without parameters.
pub open spec fn bare(sql: Seq<char>) -> StatementModel {
    StatementModel { sql, params: Seq::empty() }
}

/// A read of one shard.
pub open spec fn one_read(shard: u32, statement: StatementModel, consistency: ReadConsistency) -> RequestModel {
    RequestModel::Query { shard, statement, consistency }
}

/// A write of one row to a shard.
pub open spec fn row_write(shard: u32, sql: Seq<char>, params: Seq<Datum>) -> RequestModel {
    RequestModel::Execute { shard, statements: seq![StatementModel { sql, params }] }
}

/// The request for a user: it carries the derived key.
pub open spec fn new_user(name: Seq<char>, secret: Seq<char>, role: Role) -> RequestModel {
    RequestModel::CreateUser { name, key: blake3_of(encode_utf8(secret)), role }
}

/// A statement of one word.
pub open spec fn one_word(shard: u32, word: Seq<char>) -> RequestModel {
    RequestModel::Execute { shard, statements: seq![bare(word)] }
}

/// Whether writing a key's row sends this and comes to this: the route is asked for, and then the
/// row is written there, unless there is no route.
pub open spec fn put_done<L: Fn(Request) -> Result<Response, Error>>(
    before: Client<L>,
    after: Client<L>,
    key: Seq<u8>,
    sql: Seq<char>,
    params: Seq<Datum>,
    r: Result<(u64, i64), ErrorModel>,
) -> bool {
    let route = RequestModel::Route { key };
    let routed = after.talk()[before.talk().len() as int].1;
    &&& after.is_same(before)
    &&& answers(before.wire(), route, routed)
    &&& match shard_of(trip(routed)) {
        Err(e) => after.talk() == before.talk().push((route, routed)) && r == Err::<
            (u64, i64),
            ErrorModel,
        >(e),
        Ok(n) => {
            let write = row_write(n, sql, params);
            &&& after.talk() == before.talk().push((route, routed)).push(
                (write, after.last_answer()),
            )
            &&& answers(before.wire(), write, after.last_answer())
            &&& r == changes_of(after.reply())
        },
    }
}

fn word_request(shard: u32, word: &str) -> (r: Request)
    ensures
        r.model() == one_word(shard, word@),
{
    let s = DbStatement::new(word);
    let ghost model = s@;
    let mut one: Vec<DbStatement> = Vec::new();
    one.push(s);
    assert(statements_model(one@) =~= seq![model]);
    Request::Execute { shard, statements: one }
}

// ---- transactions ------------------------------------------------------------------------------

/// A client-held transaction on one shard. Its writes are buffered on the server until
/// [`Transaction::commit`].
pub struct Transaction<'a, L> {
    pub client: &'a mut Client<L>,
    pub shard: u32,
}

impl<'a, L: Fn(Request) -> Result<Response, Error>> Transaction<'a, L> {
    /// Buffers a write: how many the transaction now holds. It is not applied before the commit.
    pub fn execute(&mut self, sql: DbStatement) -> (r: Result<u64, Error>)
        requires
            old(self).client.takes(
                RequestModel::Execute { shard: old(self).shard, statements: seq![sql@] },
            ),
        ensures
            final(self).shard == old(self).shard,
            *final(final(self).client) == *final(old(self).client),
            sent_one(
                *old(self).client,
                *final(self).client,
                RequestModel::Execute { shard: old(self).shard, statements: seq![sql@] },
            ),
            match final(self).client.reply() {
                Ok(ResponseModel::Staged { queued }) => r == Ok::<u64, Error>(queued),
                Ok(other) => r matches Err(e) && e@ == misfit(other),
                Err(x) => r matches Err(e) && e@ == x,
            },
    {
        let ghost model = sql@;
        let mut one: Vec<DbStatement> = Vec::new();
        one.push(sql);
        assert(statements_model(one@) =~= seq![model]);
        match self.client.round_trip(Request::Execute { shard: self.shard, statements: one }) {
            Ok(Response::Staged { queued }) => Ok(queued),
            Ok(other) => Err(unexpected(other)),
            Err(e) => Err(e),
        }
    }

    /// Applies the whole transaction atomically: the rows affected, and the row inserted last.
    pub fn commit(self) -> (r: Result<(u64, i64), Error>)
        requires
            self.client.takes(one_word(self.shard, "COMMIT"@)),
        ensures
            sent_one(*old(self.client), *final(self.client), one_word(self.shard, "COMMIT"@)),
            pair_view(r) == commit_of(final(self.client).reply()),
    {
        match self.client.round_trip(word_request(self.shard, "COMMIT")) {
            Ok(Response::Changed { rows_affected, last_insert_rowid }) => Ok(
                (rows_affected, last_insert_rowid),
            ),
            Ok(other) => Err(unexpected(other)),
            Err(e) => Err(e),
        }
    }

    /// Sends any request on the transaction's connection.
    pub fn raw(&mut self, req: Request) -> (r: Result<Response, Error>)
        requires
            old(self).client.takes(req.model()),
        ensures
            final(self).shard == old(self).shard,
            *final(final(self).client) == *final(old(self).client),
            sent_one(*old(self).client, *final(self).client, req.model()),
            answer_view(r) == final(self).client.reply(),
    {
        self.client.round_trip(req)
    }

    /// Discards the transaction. Nothing was applied, so only the server's buffer goes.
    pub fn rollback(self) -> (r: Result<(), Error>)
        requires
            self.client.takes(one_word(self.shard, "ROLLBACK"@)),
        ensures
            sent_one(*old(self.client), *final(self.client), one_word(self.shard, "ROLLBACK"@)),
            unit_view(r) == done_of(final(self.client).reply()),
    {
        self.client.control(self.shard, "ROLLBACK")
    }
}

// ---- laws --------------------------------------------------------------------------------------

/// Nothing that a handshake sends carries a secret: it is a hello, or a name and a proof made of the
/// key and the server's nonce.
pub proof fn law_a_handshake_sends_no_secret(
    talk: Talk,
    credentials: Option<(Seq<char>, Seq<u8>)>,
    r: Result<(u32, Option<u64>), ErrorModel>,
    i: int,
)
    requires
        greeting(talk, credentials, r),
        0 <= i < talk.len(),
    ensures
        talk[i].0 == hello() || (credentials matches Some(c) && trip(talk[0].1) matches Ok(
            ResponseModel::Challenge { nonce },
        ) && talk[i].0 == (RequestModel::Auth { name: c.0, proof: blake3_keyed_of(c.1, nonce) })),
{
}

} // verus!
