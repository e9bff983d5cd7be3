//! Sending a request to the node that owns the shard.
//!
//! A client connects to any node, and its work reaches the right one. A forwarded request is
//! wrapped in [`Request::Direct`], "handle this here or refuse it", so that two nodes whose
//! placement differs for a moment cannot pass it back and forth. An error of the far side comes
//! back as it is.

use vstd::prelude::*;

use super::protocol::{Request, RequestModel, Response};
use crate::calls::{since, Line};
use crate::error::{Error, ErrorModel};
use crate::shard::id::ShardId;
use crate::shard::map::ShardMap;
use crate::text::{decimal, push_decimal};

verus! {

#[derive(Clone, Copy, Debug, PartialEq, Eq, Structural)]
pub struct ForwardStats {
    /// Requests handed to another node because it owns the shard.
    pub forwarded: u64,
    /// Forwards that could not be delivered.
    pub failed: u64,
}

/// What a node knows of its cluster: who it is, who owns which shard, and where its peers are.
#[derive(Debug)]
pub struct Membership {
    pub id: u64,
    pub owners: ShardMap<u64>,
    pub peers: Vec<(u64, String)>,
}

/// The address of a peer, from a place in the list on.
pub open spec fn peer_from(peers: Seq<(u64, String)>, node: u64, i: int) -> Option<Seq<char>>
    decreases peers.len() - i,
{
    if i < 0 || i >= peers.len() {
        None
    } else if peers[i].0 == node {
        Some(peers[i].1@)
    } else {
        peer_from(peers, node, i + 1)
    }
}

impl Membership {
    pub open spec fn wf(&self) -> bool {
        self.owners.wf()
    }

    pub open spec fn owner_of(&self, shard: ShardId) -> Option<u64> {
        if self.owners@.dom().contains(shard.0) {
            Some(self.owners@[shard.0])
        } else {
            None
        }
    }

    pub open spec fn address_of(&self, node: u64) -> Option<Seq<char>> {
        peer_from(self.peers@, node, 0)
    }

    /// Where a peer is, if that is known.
    pub fn peer_addr(&self, node: u64) -> (r: Option<&String>)
        ensures
            match self.address_of(node) {
                Some(a) => r matches Some(s) && s@ == a,
                None => r is None,
            },
    {
        let mut i: usize = 0;
        while i < self.peers.len()
            invariant
                i <= self.peers@.len(),
                self.address_of(node) == peer_from(self.peers@, node, i as int),
            decreases self.peers@.len() - i,
        {
            if self.peers[i].0 == node {
                return Some(&self.peers[i].1);
            }
            i = i + 1;
        }
        None
    }
}

/// Where a request is to go: the owner of its shard, and that node's address.
#[derive(Debug)]
pub struct Hop {
    pub owner: u64,
    pub addr: String,
}

/// Routes shard work to the node that owns it.
#[derive(Debug)]
pub struct Router {
    cluster: Membership,
    timeout_ms: u64,
    forwarded: u64,
    failed: u64,
}

/// The failure where no owner is known.
pub open spec fn unowned(shard: ShardId) -> ErrorModel {
    ErrorModel::NoOwner { shard: shard.shown() }
}

/// The failure where the owner's address is not known.
pub open spec fn unaddressed(shard: ShardId, owner: u64) -> ErrorModel {
    ErrorModel::NoOwner {
        shard: shard.shown() + " (owner is node "@ + decimal(owner as nat)
            + ", whose address is unknown)"@,
    }
}

/// Where a shard's request goes, or why it cannot.
pub open spec fn hop_of(cluster: Membership, shard: ShardId) -> Result<(u64, Seq<char>), ErrorModel> {
    match cluster.owner_of(shard) {
        None => Err(unowned(shard)),
        Some(owner) => match cluster.address_of(owner) {
            None => Err(unaddressed(shard, owner)),
            Some(addr) => Ok((owner, addr)),
        },
    }
}

/// A request for the link that is kept for a node, if there is one.
#[derive(Debug)]
pub struct Kept {
    pub owner: u64,
    pub request: Request,
}

/// A request for a new link to an address, with a bound on every wait.
#[derive(Debug)]
pub struct Fresh {
    pub addr: String,
    pub timeout_ms: u64,
    pub request: Request,
}

impl Kept {
    pub open spec fn is(self, owner: u64, req: RequestModel) -> bool {
        self.owner == owner && self.request.model() == req
    }
}

impl Fresh {
    pub open spec fn is(self, addr: Seq<char>, timeout_ms: u64, req: RequestModel) -> bool {
        self.addr@ == addr && self.timeout_ms == timeout_ms && self.request.model() == req
    }
}

/// What was tried over kept links, and what came of it.
pub type KeptRecord = Seq<(Kept, Option<Result<Response, Error>>)>;

/// What was sent over new links, and what came of it.
pub type FreshRecord = Seq<(Fresh, Result<Response, Error>)>;

/// Whether a request was delivered thus, and this came of it: it is tried once over the link kept
/// for the owner and, where there is none or it fails, sent once over a new one. Nothing else is
/// sent.
pub open spec fn delivered(
    kept: KeptRecord,
    kept_after: KeptRecord,
    fresh: FreshRecord,
    fresh_after: FreshRecord,
    owner: u64,
    addr: Seq<char>,
    timeout_ms: u64,
    req: RequestModel,
    r: Result<Response, Error>,
) -> bool {
    &&& kept_after == kept.push(kept_after.last())
    &&& kept_after.last().0.is(owner, req)
    &&& match kept_after.last().1 {
        Some(Ok(answer)) => fresh_after == fresh && r == Ok::<Response, Error>(answer),
        _ => fresh_after == fresh.push(fresh_after.last()) && fresh_after.last().0.is(
            addr,
            timeout_ms,
            req,
        ) && r == fresh_after.last().1,
    }
}

impl Hop {
    /// Sends a request on, wrapped so that the far side answers it instead of forwarding it again.
    /// `kept` tries the link that is kept for a node, if there is one; `fresh` opens another.
    pub fn deliver<
        C: Fn(Kept) -> Option<Result<Response, Error>>,
        D: Fn(Fresh) -> Result<Response, Error>,
    >(
        &self,
        req: Request,
        timeout_ms: u64,
        kept: &mut Line<Kept, Option<Result<Response, Error>>, C>,
        fresh: &mut Line<Fresh, Result<Response, Error>, D>,
    ) -> (r: Result<Response, Error>)
        requires
            forall|k: Kept| k.is(self.owner, RequestModel::Direct(Box::new(req.model())))
                ==> #[trigger] call_requires(old(kept).far(), (k,)),
            forall|f: Fresh|
                f.is(self.addr@, timeout_ms, RequestModel::Direct(Box::new(req.model())))
                    ==> #[trigger] call_requires(old(fresh).far(), (f,)),
        ensures
            final(kept).far() == old(kept).far(),
            final(fresh).far() == old(fresh).far(),
            delivered(
                old(kept).record(),
                final(kept).record(),
                old(fresh).record(),
                final(fresh).record(),
                self.owner,
                self.addr@,
                timeout_ms,
                RequestModel::Direct(Box::new(req.model())),
                r,
            ),
    {
        let wrapped = Request::Direct(Box::new(req));
        let first = kept.ask(Kept { owner: self.owner, request: wrapped.copy() });
        match first {
            Some(Ok(answer)) => Ok(answer),
            _ => fresh.ask(Fresh { addr: self.addr.clone(), timeout_ms, request: wrapped }),
        }
    }
}

impl Router {
    pub closed spec fn membership(&self) -> Membership {
        self.cluster
    }

    pub closed spec fn bound(&self) -> u64 {
        self.timeout_ms
    }

    pub closed spec fn counts(&self) -> ForwardStats {
        ForwardStats { forwarded: self.forwarded, failed: self.failed }
    }

    pub open spec fn wf(&self) -> bool {
        self.membership().wf()
    }

    pub fn new(cluster: Membership) -> (r: Router)
        requires
            cluster.wf(),
        ensures
            r.wf(),
            r.membership() == cluster,
            r.bound() == 10_000,
            r.counts() == (ForwardStats { forwarded: 0, failed: 0 }),
    {
        Router { cluster, timeout_ms: 10_000, forwarded: 0, failed: 0 }
    }

    pub fn stats(&self) -> (r: ForwardStats)
        ensures
            r == self.counts(),
    {
        ForwardStats { forwarded: self.forwarded, failed: self.failed }
    }

    /// With another bound on a forwarded round trip.
    pub fn with_timeout(self, timeout_ms: u64) -> (r: Router)
        ensures
            r.membership() == self.membership(),
            r.counts() == self.counts(),
            r.bound() == timeout_ms,
    {
        Router { timeout_ms, ..self }
    }

    /// The bound on a forwarded round trip.
    pub fn timeout_ms(&self) -> (r: u64)
        ensures
            r == self.bound(),
    {
        self.timeout_ms
    }

    /// Takes over what the cluster now says of itself.
    pub fn refresh(&mut self, cluster: Membership)
        requires
            cluster.wf(),
        ensures
            final(self).wf(),
            final(self).membership() == cluster,
            final(self).bound() == old(self).bound(),
            final(self).counts() == old(self).counts(),
    {
        self.cluster = cluster;
    }

    /// Which node owns a shard, if placement has said.
    pub fn owner(&self, shard: ShardId) -> (r: Option<u64>)
        requires
            self.wf(),
        ensures
            r == self.membership().owner_of(shard),
    {
        match self.cluster.owners.get(shard.0) {
            Some(owner) => Some(*owner),
            None => None,
        }
    }

    /// Whether this node should handle a shard itself. One that nobody was given is handled here:
    /// before the first placement arrives a node knows of no owner at all.
    pub open spec fn mine(&self, shard: ShardId) -> bool {
        match self.membership().owner_of(shard) {
            Some(owner) => owner == self.membership().id,
            None => true,
        }
    }

    /// Whether this node should handle a shard itself.
    pub fn is_mine(&self, shard: ShardId) -> (r: bool)
        requires
            self.wf(),
        ensures
            r == self.mine(shard),
    {
        match self.owner(shard) {
            Some(owner) => owner == self.cluster.id,
            None => true,
        }
    }

    /// Finds where a shard's request goes, and counts it.
    pub fn hop(&mut self, shard: ShardId) -> (r: Result<Hop, Error>)
        requires
            old(self).wf(),
        ensures
            final(self).wf(),
            final(self).membership() == old(self).membership(),
            final(self).bound() == old(self).bound(),
            match hop_of(old(self).membership(), shard) {
                Ok((owner, addr)) => {
                    &&& r matches Ok(hop) && hop.owner == owner && hop.addr@ == addr
                    &&& final(self).counts() == (ForwardStats {
                        forwarded: old(self).counts().forwarded.wrapping_add(1),
                        ..old(self).counts()
                    })
                },
                Err(e) => {
                    &&& r matches Err(x) && x@ == e
                    &&& final(self).counts() == (if old(self).membership().owner_of(shard) is None {
                        old(self).counts()
                    } else {
                        ForwardStats {
                            failed: old(self).counts().failed.wrapping_add(1),
                            ..old(self).counts()
                        }
                    })
                },
            },
    {
        let owner: u64 = match self.owner(shard) {
            Some(owner) => owner,
            None => {
                return Err(Error::NoOwner { shard: shard.name() });
            },
        };
        let addr: String = match self.cluster.peer_addr(owner) {
            Some(addr) => addr.clone(),
            None => {
                self.failed = self.failed.wrapping_add(1);
                let mut name = shard.name();
                name.append(" (owner is node ");
                push_decimal(&mut name, owner);
                name.append(", whose address is unknown)");
                return Err(Error::NoOwner { shard: name });
            },
        };
        self.forwarded = self.forwarded.wrapping_add(1);
        Ok(Hop { owner, addr })
    }

    /// Counts a request that could not be delivered.
    pub fn undelivered(&mut self)
        ensures
            final(self).membership() == old(self).membership(),
            final(self).bound() == old(self).bound(),
            final(self).counts() == (ForwardStats {
                failed: old(self).counts().failed.wrapping_add(1),
                ..old(self).counts()
            }),
    {
        self.failed = self.failed.wrapping_add(1);
    }

    /// Sends a request to the node that owns its shard and returns that node's answer.
    pub fn forward<
        C: Fn(Kept) -> Option<Result<Response, Error>>,
        D: Fn(Fresh) -> Result<Response, Error>,
    >(
        &mut self,
        shard: ShardId,
        req: Request,
        kept: &mut Line<Kept, Option<Result<Response, Error>>, C>,
        fresh: &mut Line<Fresh, Result<Response, Error>, D>,
    ) -> (r: Result<Response, Error>)
        requires
            old(self).wf(),
            hop_of(old(self).membership(), shard) matches Ok(hop) ==> {
                &&& forall|k: Kept|
                    k.is(hop.0, RequestModel::Direct(Box::new(req.model())))
                        ==> #[trigger] call_requires(old(kept).far(), (k,))
                &&& forall|f: Fresh|
                    f.is(hop.1, old(self).bound(), RequestModel::Direct(Box::new(req.model())))
                        ==> #[trigger] call_requires(old(fresh).far(), (f,))
            },
        ensures
            final(self).wf(),
            final(self).membership() == old(self).membership(),
            final(self).bound() == old(self).bound(),
            final(kept).far() == old(kept).far(),
            final(fresh).far() == old(fresh).far(),
            match hop_of(old(self).membership(), shard) {
                Err(e) => (r matches Err(x) && x@ == e) && final(kept).record() == old(kept).record()
                    && final(fresh).record() == old(fresh).record(),
                Ok((owner, addr)) => delivered(
                    old(kept).record(),
                    final(kept).record(),
                    old(fresh).record(),
                    final(fresh).record(),
                    owner,
                    addr,
                    old(self).bound(),
                    RequestModel::Direct(Box::new(req.model())),
                    r,
                ),
            },
            final(self).counts() == forward_counts(
                old(self).counts(),
                old(self).membership(),
                shard,
                r is Ok,
            ),
    {
        let hop = match self.hop(shard) {
            Ok(hop) => hop,
            Err(e) => {
                return Err(e);
            },
        };
        let r = hop.deliver(req, self.timeout_ms, kept, fresh);
        if r.is_err() {
            self.undelivered();
        }
        r
    }
}

/// The counts after a forward: a request is counted where it has somewhere to go, and a failure
/// wherever there is an owner and no answer.
pub open spec fn forward_counts(
    before: ForwardStats,
    cluster: Membership,
    shard: ShardId,
    answered: bool,
) -> ForwardStats {
    match cluster.owner_of(shard) {
        None => before,
        Some(owner) => ForwardStats {
            forwarded: if cluster.address_of(owner) is Some {
                before.forwarded.wrapping_add(1)
            } else {
                before.forwarded
            },
            failed: if answered {
                before.failed
            } else {
                before.failed.wrapping_add(1)
            },
        },
    }
}

/// Whatever is sent to forward a request is that request, to be answered where it arrives, and it is
/// sent twice at most.
pub proof fn law_forwarding_sends_the_request_twice_at_most(
    kept: KeptRecord,
    kept_after: KeptRecord,
    fresh: FreshRecord,
    fresh_after: FreshRecord,
    owner: u64,
    addr: Seq<char>,
    timeout_ms: u64,
    req: RequestModel,
    r: Result<Response, Error>,
)
    requires
        delivered(kept, kept_after, fresh, fresh_after, owner, addr, timeout_ms, req, r),
    ensures
        since(kept, kept_after).len() + since(fresh, fresh_after).len() <= 2,
        forall|i: int|
            0 <= i < since(kept, kept_after).len() ==> (#[trigger] since(
                kept,
                kept_after,
            )[i]).0.is(owner, req),
        forall|i: int|
            0 <= i < since(fresh, fresh_after).len() ==> (#[trigger] since(
                fresh,
                fresh_after,
            )[i]).0.is(addr, timeout_ms, req),
{
}

} // verus!
