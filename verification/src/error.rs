//! Failures of the library and of the node around it.

use vstd::prelude::*;

use crate::text::{decimal, push_decimal};

verus! {

/// What went wrong.
#[derive(Debug)]
pub enum Error {
    /// A file of the database cannot be read, written or understood.
    Manifest(String),
    /// A peer or client broke the protocol, or said that something failed.
    Protocol(String),
    /// The other side is busy; the request may be repeated.
    Busy(String),
    /// The statement cannot be run across shards.
    Unsupported(String),
    /// A write is committed on this node and could not be confirmed elsewhere.
    NotReplicated { shard: String, lsn: u64, holders: usize, needed: usize },
    /// A replication stream does not continue where this follower stopped.
    ReplicationGap { shard: String, expected: u64, got: u64, detail: String },
    /// Another node leads.
    NotLeader { leader: String },
    /// No node is known to own the shard.
    NoOwner { shard: String },
    /// The write queue is full.
    WriterBusy,
    /// Every reader is in use.
    ReaderPoolBusy,
    /// The connection limit is reached.
    TooManyConnections { current: usize, limit: usize },
}

/// What an [`Error`] holds.
pub ghost enum ErrorModel {
    Manifest(Seq<char>),
    Protocol(Seq<char>),
    Busy(Seq<char>),
    Unsupported(Seq<char>),
    NotReplicated { shard: Seq<char>, lsn: u64, holders: usize, needed: usize },
    ReplicationGap { shard: Seq<char>, expected: u64, got: u64, detail: Seq<char> },
    NotLeader { leader: Seq<char> },
    NoOwner { shard: Seq<char> },
    WriterBusy,
    ReaderPoolBusy,
    TooManyConnections { current: usize, limit: usize },
}

impl View for Error {
    type V = ErrorModel;

    open spec fn view(&self) -> ErrorModel {
        match self {
            Error::Manifest(m) => ErrorModel::Manifest(m@),
            Error::Protocol(m) => ErrorModel::Protocol(m@),
            Error::Busy(m) => ErrorModel::Busy(m@),
            Error::Unsupported(m) => ErrorModel::Unsupported(m@),
            Error::NotReplicated { shard, lsn, holders, needed } => ErrorModel::NotReplicated {
                shard: shard@,
                lsn: *lsn,
                holders: *holders,
                needed: *needed,
            },
            Error::ReplicationGap { shard, expected, got, detail } => ErrorModel::ReplicationGap {
                shard: shard@,
                expected: *expected,
                got: *got,
                detail: detail@,
            },
            Error::NotLeader { leader } => ErrorModel::NotLeader { leader: leader@ },
            Error::NoOwner { shard } => ErrorModel::NoOwner { shard: shard@ },
            Error::WriterBusy => ErrorModel::WriterBusy,
            Error::ReaderPoolBusy => ErrorModel::ReaderPoolBusy,
            Error::TooManyConnections { current, limit } => ErrorModel::TooManyConnections {
                current: *current,
                limit: *limit,
            },
        }
    }
}

impl ErrorModel {
    /// The failure as a client reads it.
    pub open spec fn message(self) -> Seq<char> {
        match self {
            ErrorModel::Manifest(m) => m,
            ErrorModel::Protocol(m) => m,
            ErrorModel::Busy(m) => m,
            ErrorModel::Unsupported(m) => m,
            ErrorModel::NotReplicated { shard, lsn, holders, needed } => "write "@ + decimal(
                lsn as nat,
            ) + " on "@ + shard + " is committed on this node but not confirmed by a quorum: "@
                + decimal(holders as nat) + " of "@ + decimal(needed as nat) + " members hold it"@,
            ErrorModel::ReplicationGap { shard, expected, got, detail } => "replication gap on "@
                + shard + ": expected lsn "@ + decimal(expected as nat) + ", got "@ + decimal(
                got as nat,
            ) + " ("@ + detail + ")"@,
            ErrorModel::NotLeader { leader } => "this node is not the leader; the leader is "@
                + leader,
            ErrorModel::NoOwner { shard } => "no node owns "@ + shard,
            ErrorModel::WriterBusy => "the write queue is full; try again"@,
            ErrorModel::ReaderPoolBusy => "every reader is in use; try again"@,
            ErrorModel::TooManyConnections { current, limit } => "too many connections: "@ + decimal(
                current as nat,
            ) + " of "@ + decimal(limit as nat),
        }
    }

    /// Whether the same request may succeed a moment later.
    pub open spec fn retryable(self) -> bool {
        self is WriterBusy || self is ReaderPoolBusy || self is TooManyConnections
    }
}

impl Error {
    /// The failure as a client reads it.
    pub fn to_text(&self) -> (r: String)
        ensures
            r@ == self@.message(),
    {
        match self {
            Error::Manifest(m) => m.clone(),
            Error::Protocol(m) => m.clone(),
            Error::Busy(m) => m.clone(),
            Error::Unsupported(m) => m.clone(),
            Error::NotReplicated { shard, lsn, holders, needed } => {
                let mut out = "write ".to_owned();
                push_decimal(&mut out, *lsn);
                out.append(" on ");
                out.append(shard.as_str());
                out.append(" is committed on this node but not confirmed by a quorum: ");
                push_decimal(&mut out, *holders as u64);
                out.append(" of ");
                push_decimal(&mut out, *needed as u64);
                out.append(" members hold it");
                out
            },
            Error::ReplicationGap { shard, expected, got, detail } => {
                let mut out = "replication gap on ".to_owned();
                out.append(shard.as_str());
                out.append(": expected lsn ");
                push_decimal(&mut out, *expected);
                out.append(", got ");
                push_decimal(&mut out, *got);
                out.append(" (");
                out.append(detail.as_str());
                out.append(")");
                out
            },
            Error::NotLeader { leader } => {
                let mut out = "this node is not the leader; the leader is ".to_owned();
                out.append(leader.as_str());
                out
            },
            Error::NoOwner { shard } => {
                let mut out = "no node owns ".to_owned();
                out.append(shard.as_str());
                out
            },
            Error::WriterBusy => "the write queue is full; try again".to_owned(),
            Error::ReaderPoolBusy => "every reader is in use; try again".to_owned(),
            Error::TooManyConnections { current, limit } => {
                let mut out = "too many connections: ".to_owned();
                push_decimal(&mut out, *current as u64);
                out.append(" of ");
                push_decimal(&mut out, *limit as u64);
                out
            },
        }
    }

    /// Whether the same request may succeed a moment later.
    pub fn is_retryable(&self) -> (r: bool)
        ensures
            r == self@.retryable(),
    {
        match self {
            Error::WriterBusy => true,
            Error::ReaderPoolBusy => true,
            Error::TooManyConnections { .. } => true,
            _ => false,
        }
    }
}

} // verus!
