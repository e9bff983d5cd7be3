//! A connection: who is at its other end, the snapshots it holds frozen, and its transaction.
//!
//! Where users are configured, nothing passes before its sender has proven who they are: the first
//! message may only be a hello, which is answered with a fresh challenge, and the next one has to
//! answer that. After that the role bounds every request.

use vstd::prelude::*;

use super::auth::{
    AuthConfig, blake3_keyed_of, required, requirement, Requirement, Role, UserModel, user_named,
};
use super::protocol::{PROTOCOL_VERSION, Request, RequestModel, Response, ResponseModel};
use super::server::{
    NodeFacts, ServerStats, version_refusal, welcome, wrong_version,
};
use super::session::{
    all_answered, answered, Carried, carried_of, refusal, refuse, session_result, session_step,
    SessionStep, Txn, txn_model, txn_wf, TxnModel,
};
use crate::calls::{goes_on, lemma_added, since, Line};
use crate::error::{Error, ErrorModel};
use crate::shard::map::ShardMap;

verus! {

/// Where a connection stands with the doorman.
#[derive(Debug)]
pub enum Gate {
    /// No users are configured; everything is permitted.
    Open,
    /// Nothing has happened yet; only a hello will do.
    Fresh,
    /// A challenge is outstanding; only its answer will do.
    Challenged([u8; 32]),
    /// Proven. The role bounds every request from here on.
    Authed(Role),
}

pub ghost enum GateModel {
    Open,
    Fresh,
    Challenged(Seq<u8>),
    Authed(Role),
}

impl View for Gate {
    type V = GateModel;

    open spec fn view(&self) -> GateModel {
        match self {
            Gate::Open => GateModel::Open,
            Gate::Fresh => GateModel::Fresh,
            Gate::Challenged(nonce) => GateModel::Challenged(nonce@),
            Gate::Authed(role) => GateModel::Authed(*role),
        }
    }
}

/// What the doorman makes of a request.
#[derive(Debug)]
pub enum Admission {
    /// To be handled.
    Pass(Request),
    /// A step of the handshake, or a request before it is done; here is the answer.
    Answer(Response),
    /// The role does not permit it; here is the answer.
    Denied(Response),
    /// The proof was wrong. The connection closes after this answer, so that each guess costs a
    /// connection and a challenge.
    Impostor(Response),
    /// No challenge could be made, so there is no connection either.
    Broken(Error),
}

pub ghost enum AdmissionModel {
    Pass(RequestModel),
    Answer(ResponseModel),
    Denied(ResponseModel),
    Impostor(ResponseModel),
    Broken(ErrorModel),
}

impl Admission {
    pub open spec fn model(self) -> AdmissionModel {
        match self {
            Admission::Pass(q) => AdmissionModel::Pass(q.model()),
            Admission::Answer(r) => AdmissionModel::Answer(r@),
            Admission::Denied(r) => AdmissionModel::Denied(r@),
            Admission::Impostor(r) => AdmissionModel::Impostor(r@),
            Admission::Broken(e) => AdmissionModel::Broken(e@),
        }
    }
}

pub open spec fn not_permitted(role: Role, need: Requirement) -> Seq<char> {
    "not permitted: this connection is authenticated with the "@ + role.shown()
        + " role, and this request requires "@ + need.shown()
}

/// The role of a user who answers a challenge with a proof, if it is theirs.
pub open spec fn proven(
    users: Seq<UserModel>,
    name: Seq<char>,
    nonce: Seq<u8>,
    answer: Seq<u8>,
) -> Option<Role> {
    match user_named(users, name) {
        Some(u) => if blake3_keyed_of(u.key, nonce) == answer {
            Some(u.role)
        } else {
            None
        },
        None => None,
    }
}

/// What the doorman makes of a request, and where the connection stands after it. `nonce` is what
/// asking for a challenge gives.
pub open spec fn doorman(
    gate: GateModel,
    req: RequestModel,
    users: Seq<UserModel>,
    facts: NodeFacts,
    nonce: Result<Seq<u8>, ErrorModel>,
) -> (GateModel, AdmissionModel) {
    match gate {
        GateModel::Open => (gate, AdmissionModel::Pass(req)),
        GateModel::Authed(role) => (
            gate,
            if role.may(requirement(req)) {
                AdmissionModel::Pass(req)
            } else {
                AdmissionModel::Denied(refusal(not_permitted(role, requirement(req))))
            },
        ),
        GateModel::Fresh => match req {
            RequestModel::Hello { version, .. } => if version != PROTOCOL_VERSION {
                (gate, AdmissionModel::Answer(refusal(wrong_version(version))))
            } else {
                match nonce {
                    Ok(n) => (
                        GateModel::Challenged(n),
                        AdmissionModel::Answer(ResponseModel::Challenge { nonce: n }),
                    ),
                    Err(e) => (gate, AdmissionModel::Broken(e)),
                }
            },
            _ => (gate, AdmissionModel::Answer(refusal("authentication required"@))),
        },
        GateModel::Challenged(n) => match req {
            RequestModel::Auth { name, proof: answer } => match proven(users, name, n, answer) {
                Some(role) => (GateModel::Authed(role), AdmissionModel::Answer(welcome(facts))),
                None => (gate, AdmissionModel::Impostor(refusal("authentication failed"@))),
            },
            _ => (gate, AdmissionModel::Answer(refusal("authentication required"@))),
        },
    }
}

/// Whether a request is answered with a challenge.
pub open spec fn challenges(gate: GateModel, req: RequestModel) -> bool {
    gate is Fresh && (req matches RequestModel::Hello { version, .. } && version
        == PROTOCOL_VERSION)
}

pub open spec fn nonce_view(n: Result<[u8; 32], Error>) -> Result<Seq<u8>, ErrorModel> {
    match n {
        Ok(bytes) => Ok(bytes@),
        Err(e) => Err(e@),
    }
}

pub open spec fn users_of(auth: Option<&AuthConfig>) -> Seq<UserModel> {
    match auth {
        Some(a) => a@,
        None => Seq::empty(),
    }
}

/// A connection.
#[derive(Debug)]
pub struct Connection {
    gate: Gate,
    held: ShardMap<bool>,
    txn: Option<Txn>,
}

/// What a [`Connection`] holds: its standing, the shards it holds frozen, its transaction.
pub ghost struct ConnectionModel {
    pub gate: GateModel,
    pub held: Set<u32>,
    pub txn: Option<TxnModel>,
}

impl View for Connection {
    type V = ConnectionModel;

    closed spec fn view(&self) -> ConnectionModel {
        ConnectionModel {
            gate: self.gate@,
            held: self.held@.dom(),
            txn: txn_model(self.txn),
        }
    }
}

/// The shards held frozen after a request that was answered: a snapshot that began holds its shard,
/// one that ended well releases it.
pub open spec fn held_after(held: Set<u32>, req: RequestModel, answer: ResponseModel) -> Set<u32> {
    match (req, answer) {
        (RequestModel::SnapshotBegin { shard }, ResponseModel::SnapshotInfo { .. }) => held.insert(
            shard,
        ),
        (RequestModel::SnapshotEnd { shard }, ResponseModel::Done) => held.remove(shard),
        _ => held,
    }
}

/// Whether a request was answered thus, and these are the requests that were carried out for it: what
/// its session asks for, or the request itself where that is no concern of a transaction.
pub open spec fn request_served(
    calls: Carried,
    txn: Option<TxnModel>,
    req: RequestModel,
    after: Option<TxnModel>,
    answer: ResponseModel,
) -> bool {
    exists|made: Carried, step: SessionStep| #[trigger]
        session_result(made, txn, req, after, step) && match step {
            SessionStep::Handled(r) => calls == made && answer == r@,
            SessionStep::Passthrough(q) => calls == made.push((q.model(), answer)),
        }
}

impl Connection {
    pub closed spec fn wf(&self) -> bool {
        self.held.wf() && txn_wf(self.txn)
    }

    /// A new connection. Where no user is configured, it is open.
    pub fn new(auth: Option<&AuthConfig>) -> (r: Connection)
        ensures
            r.wf(),
            r@.gate == (if users_of(auth).len() == 0 {
                GateModel::Open
            } else {
                GateModel::Fresh
            }),
            r@.held == Set::<u32>::empty(),
            r@.txn is None,
    {
        let secured = match auth {
            Some(a) => !a.is_empty(),
            None => false,
        };
        let r = Connection {
            gate: if secured {
                Gate::Fresh
            } else {
                Gate::Open
            },
            held: ShardMap::new(),
            txn: None,
        };
        assert(r@.held =~= Set::empty());
        r
    }

    /// The doorman, before anything else looks at a request. `nonce` makes a challenge.
    pub fn screen<N: Fn() -> Result<[u8; 32], Error>>(
        &mut self,
        req: Request,
        auth: Option<&AuthConfig>,
        facts: &NodeFacts,
        nonce: &N,
    ) -> (r: Admission)
        requires
            old(self).wf(),
            call_requires(*nonce, ()),
        ensures
            final(self).wf(),
            final(self)@.held == old(self)@.held,
            final(self)@.txn == old(self)@.txn,
            if challenges(old(self)@.gate, req.model()) {
                exists|n: Result<[u8; 32], Error>| #[trigger]
                    call_ensures(*nonce, (), n) && (final(self)@.gate, r.model()) == doorman(
                    old(self)@.gate,
                    req.model(),
                    users_of(auth),
                    *facts,
                    nonce_view(n),
                )
            } else {
                forall|n: Result<Seq<u8>, ErrorModel>|
                    (final(self)@.gate, r.model()) == #[trigger] doorman(
                        old(self)@.gate,
                        req.model(),
                        users_of(auth),
                        *facts,
                        n,
                    )
            },
    {
        match &self.gate {
            Gate::Open => Admission::Pass(req),
            Gate::Authed(role) => {
                let role: Role = *role;
                let need = required(&req);
                if role.permits(need) {
                    return Admission::Pass(req);
                }
                let mut m = "not permitted: this connection is authenticated with the ".to_owned();
                m.append(role.name());
                m.append(" role, and this request requires ");
                m.append(need.name());
                Admission::Denied(refuse(m.as_str()))
            },
            Gate::Fresh => match req {
                Request::Hello { version, .. } => {
                    if version != PROTOCOL_VERSION {
                        return Admission::Answer(version_refusal(version));
                    }
                    let made = nonce();
                    let ghost n = made;
                    assert(call_ensures(*nonce, (), n));
                    match made {
                        Ok(bytes) => {
                            self.gate = Gate::Challenged(bytes);
                            Admission::Answer(Response::Challenge { nonce: bytes })
                        },
                        Err(e) => Admission::Broken(e),
                    }
                },
                _ => Admission::Answer(refuse("authentication required")),
            },
            Gate::Challenged(n) => match req {
                Request::Auth { name, proof: answer } => {
                    let role = match auth {
                        Some(a) => a.verify(name.as_str(), n, &answer),
                        None => None,
                    };
                    match role {
                        Some(role) => {
                            self.gate = Gate::Authed(role);
                            Admission::Answer(
                                Response::Welcome {
                                    version: PROTOCOL_VERSION,
                                    shard_count: facts.shard_count,
                                    epoch: facts.epoch,
                                },
                            )
                        },
                        None => Admission::Impostor(refuse("authentication failed")),
                    }
                },
                _ => Admission::Answer(refuse("authentication required")),
            },
        }
    }

    /// Serves a request that has passed the doorman. `handle` carries a request out.
    pub fn serve<H: Fn(Request) -> Response>(
        &mut self,
        req: Request,
        handle: &mut Line<Request, Response, H>,
    ) -> (r: Response)
        requires
            old(self).wf(),
            forall|q: Request| #[trigger] call_requires(old(handle).far(), (q,)),
        ensures
            final(self).wf(),
            final(self)@.gate == old(self)@.gate,
            final(self)@.held == held_after(old(self)@.held, req.model(), r@),
            final(handle).far() == old(handle).far(),
            goes_on(old(handle).record(), final(handle).record()),
            all_answered(
                old(handle).far(),
                carried_of(since(old(handle).record(), final(handle).record())),
            ),
            request_served(
                carried_of(since(old(handle).record(), final(handle).record())),
                old(self)@.txn,
                req.model(),
                final(self)@.txn,
                r@,
            ),
    {
        let ghost first = handle.record();
        let ghost far = handle.far();
        let ghost asked = req.model();
        let ghost before = self@;
        let begins: Option<u32> = match &req {
            Request::SnapshotBegin { shard } => Some(*shard),
            _ => None,
        };
        let ends: Option<u32> = match &req {
            Request::SnapshotEnd { shard } => Some(*shard),
            _ => None,
        };
        let step = session_step(&mut self.txn, req, handle);
        let ghost taken = step;
        let ghost made = since(first, handle.record());
        assert(handle.record() =~= first + made);
        let answer = match step {
            SessionStep::Handled(r) => r,
            SessionStep::Passthrough(q) => {
                let ghost passed = q;
                let r = handle.ask(q);
                proof {
                    let all = made.push((passed, r));
                    assert(handle.record() =~= first + all);
                    lemma_added(first, all);
                    assert(carried_of(all) =~= carried_of(made).push((passed.model(), r@)));
                    assert(answered(far, passed.model(), r@));
                }
                r
            },
        };
        proof {
            assert(session_result(
                carried_of(made),
                before.txn,
                asked,
                txn_model(self.txn),
                taken,
            ));
            assert(request_served(
                carried_of(since(first, handle.record())),
                before.txn,
                asked,
                txn_model(self.txn),
                answer@,
            ));
        }
        match (begins, &answer) {
            (Some(shard), Response::SnapshotInfo { .. }) => {
                self.held.insert(shard, true);
            },
            _ => {},
        }
        match (ends, &answer) {
            (Some(shard), Response::Done) => {
                self.held.remove(shard);
            },
            _ => {},
        }
        assert(self@.held =~= held_after(before.held, asked, answer@));
        answer
    }

    /// Ends a connection, however it came to end: the shards that it still holds frozen, to be
    /// released, in ascending order.
    pub fn finish(self) -> (r: Vec<u32>)
        requires
            self.wf(),
        ensures
            forall|i: int, j: int| 0 <= i < j < r@.len() ==> r@[i] < r@[j],
            forall|s: u32| r@.contains(s) <==> self@.held.contains(s),
    {
        let ghost list = self.held.list();
        let mut out: Vec<u32> = Vec::new();
        let mut i: usize = 0;
        while i < self.held.len()
            invariant
                i <= list.len(),
                list == self.held.list(),
                out@.len() == i,
                forall|k: int| 0 <= k < i ==> #[trigger] out@[k] == list[k].0,
            decreases list.len() - i,
        {
            out.push(self.held.key_at(i));
            i = i + 1;
        }
        proof {
            assert forall|a: int, b: int| 0 <= a < b < out@.len() implies out@[a] < out@[b] by {
                assert(list[a].0 < list[b].0);
            }
            assert forall|s: u32| out@.contains(s) <==> self@.held.contains(s) by {
                if out@.contains(s) {
                    let k = choose|k: int| 0 <= k < out@.len() && out@[k] == s;
                    self.held.lemma_listed(k);
                }
                if self@.held.contains(s) {
                    self.held.lemma_all_listed(s);
                    let k = choose|k: int| 0 <= k < list.len() && (#[trigger] list[k]).0 == s;
                    assert(out@[k] == s);
                }
            }
        }
        out
    }
}

impl ServerStats {
    /// Counts what the doorman turned away.
    pub fn screened(&mut self, admission: &Admission)
        ensures
            *final(self) == (ServerStats {
                authz_refused: if admission is Denied {
                    old(self).authz_refused.wrapping_add(1)
                } else {
                    old(self).authz_refused
                },
                auth_failures: if admission is Impostor {
                    old(self).auth_failures.wrapping_add(1)
                } else {
                    old(self).auth_failures
                },
                ..*old(self)
            }),
    {
        match admission {
            Admission::Denied(_) => {
                self.authz_refused = self.authz_refused.wrapping_add(1);
            },
            Admission::Impostor(_) => {
                self.auth_failures = self.auth_failures.wrapping_add(1);
            },
            _ => {},
        }
    }
}

// ---- laws --------------------------------------------------------------------------------------

/// Nothing passes the doorman of a secured server before its sender has proven who they are, and
/// afterwards exactly what the role permits does.
pub proof fn law_only_the_proven_pass(
    gate: GateModel,
    req: RequestModel,
    users: Seq<UserModel>,
    facts: NodeFacts,
    nonce: Result<Seq<u8>, ErrorModel>,
)
    requires
        !(gate is Open),
    ensures
        doorman(gate, req, users, facts, nonce).1 is Pass <==> (gate matches GateModel::Authed(role)
            && role.may(requirement(req))),
        !(doorman(gate, req, users, facts, nonce).0 is Open),
{
}

/// Only the answer to the outstanding challenge, made with a user's key, gives a role, and it is
/// that user's.
pub proof fn law_only_a_proof_gives_a_role(
    gate: GateModel,
    req: RequestModel,
    users: Seq<UserModel>,
    facts: NodeFacts,
    nonce: Result<Seq<u8>, ErrorModel>,
    role: Role,
)
    requires
        !(gate is Authed),
        doorman(gate, req, users, facts, nonce).0 == GateModel::Authed(role),
    ensures
        gate is Challenged,
        req is Auth,
        match (gate, req) {
            (GateModel::Challenged(n), RequestModel::Auth { name, proof: answer }) => {
                &&& user_named(users, name) matches Some(u) && u.role == role
                    && blake3_keyed_of(u.key, n) == answer
            },
            _ => false,
        },
{
}

/// Before a proof every request but the handshake gets the same refusal, so that it teaches nothing
/// about what exists.
pub proof fn law_refusals_teach_nothing(
    gate: GateModel,
    one: RequestModel,
    other: RequestModel,
    users: Seq<UserModel>,
    facts: NodeFacts,
    nonce: Result<Seq<u8>, ErrorModel>,
)
    requires
        gate is Fresh || gate is Challenged,
        requirement(one) != Requirement::Handshake,
        requirement(other) != Requirement::Handshake,
    ensures
        doorman(gate, one, users, facts, nonce) == doorman(gate, other, users, facts, nonce),
{
}

/// A frozen shard is held until its snapshot has ended: no other request releases it.
pub proof fn law_freezes_are_held(
    held: Set<u32>,
    shard: u32,
    req: RequestModel,
    answer: ResponseModel,
)
    requires
        held.contains(shard),
    ensures
        held_after(held, req, answer).contains(shard) <==> !(req == (RequestModel::SnapshotEnd {
            shard,
        }) && answer == ResponseModel::Done),
{
}

} // verus!
