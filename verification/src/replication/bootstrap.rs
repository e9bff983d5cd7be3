//! Resumable snapshot transfer.
//!
//! A transfer is chunked and its progress written down, so that an interruption resumes where it
//! stopped. Resuming is only safe against the same snapshot: bytes of a new one spliced onto a
//! prefix of the old would make a database that is corrupt in a way nothing detects. So a transfer
//! carries a [`SnapshotId`], and one whose identity does not match starts over.

use vstd::prelude::*;

use super::stream::Lsn;
use super::words::lemma_words;
use crate::calls::Line;
use crate::error::{Error, ErrorModel};
use crate::lines::{
    lemma_decimal_plain, lemma_pair_line, lines, lines_of, plain, spaceless, split_at_first,
    split_once,
};
use crate::shard::ShardId;
use crate::text::{
    decimal, lemma_decimal_reads_back, parse_u32, parse_u64, push_decimal, same, unsigned_text,
    views,
};

verus! {

/// Default transfer chunk.
pub const DEFAULT_CHUNK: usize = 1_048_576;

/// Identifies one snapshot. Two transfers may only be spliced if these match exactly.
#[derive(Clone, Copy, Debug, PartialEq, Eq, Structural)]
pub struct SnapshotId {
    pub shard: ShardId,
    pub epoch: u64,
    pub lsn: Lsn,
    pub total_bytes: u64,
}

pub open spec fn pair(key: Seq<char>, n: nat) -> Seq<char> {
    key + seq!['='] + decimal(n)
}

/// The progress file of a transfer: its identity and the bytes written.
pub open spec fn meta_text(id: SnapshotId, written: u64) -> Seq<char> {
    pair("shard"@, id.shard.0 as nat) + seq!['\n'] + (pair("epoch"@, id.epoch as nat) + seq!['\n']
        + (pair("lsn"@, id.lsn as nat) + seq!['\n'] + (pair("total"@, id.total_bytes as nat)
        + seq!['\n'] + (pair("written"@, written as nat) + seq!['\n'] + Seq::empty()))))
}

/// What has been read of a progress file.
pub ghost struct Fields {
    pub shard: Option<u32>,
    pub epoch: Option<u64>,
    pub lsn: Option<u64>,
    pub total: Option<u64>,
    pub written: Option<u64>,
}

pub open spec fn number64(text: Seq<char>) -> Option<u64> {
    match unsigned_text(text) {
        Some(n) => if n <= u64::MAX {
            Some(n as u64)
        } else {
            None
        },
        None => None,
    }
}

pub open spec fn number32(text: Seq<char>) -> Option<u32> {
    match unsigned_text(text) {
        Some(n) => if n <= u32::MAX {
            Some(n as u32)
        } else {
            None
        },
        None => None,
    }
}

pub open spec fn no_fields() -> Fields {
    Fields { shard: None, epoch: None, lsn: None, total: None, written: None }
}

pub open spec fn with_field(f: Fields, key: Seq<char>, value: Seq<char>) -> Fields {
    if key == "shard"@ {
        Fields { shard: number32(value), ..f }
    } else if key == "epoch"@ {
        Fields { epoch: number64(value), ..f }
    } else if key == "lsn"@ {
        Fields { lsn: number64(value), ..f }
    } else if key == "total"@ {
        Fields { total: number64(value), ..f }
    } else if key == "written"@ {
        Fields { written: number64(value), ..f }
    } else {
        f
    }
}

/// The fields of the first `n` lines; `None` where one of them is no pair.
pub open spec fn fields_of(all: Seq<Seq<char>>, n: nat) -> Option<Fields>
    decreases n,
{
    if n == 0 || n > all.len() {
        Some(no_fields())
    } else {
        match fields_of(all, (n - 1) as nat) {
            None => None,
            Some(f) => match split_at_first(all[n - 1], '=') {
                None => None,
                Some((k, v)) => Some(with_field(f, k, v)),
            },
        }
    }
}

/// The transfer that a progress file speaks of, and the bytes it says are written (0 where it says
/// nothing).
pub open spec fn read_meta(text: Seq<char>) -> Option<(SnapshotId, u64)> {
    match fields_of(lines(text), lines(text).len()) {
        None => None,
        Some(f) => match (f.shard, f.epoch, f.lsn, f.total) {
            (Some(shard), Some(epoch), Some(lsn), Some(total_bytes)) => Some(
                (
                    SnapshotId { shard: ShardId(shard), epoch, lsn, total_bytes },
                    match f.written {
                        Some(w) => w,
                        None => 0,
                    },
                ),
            ),
            _ => None,
        },
    }
}

fn push_pair(out: &mut String, key: &str, n: u64)
    ensures
        final(out)@ == old(out)@ + pair(key@, n as nat) + seq!['\n'],
{
    out.append(key);
    out.push('=');
    push_decimal(out, n);
    out.push('\n');
    assert(out@ =~= old(out)@ + pair(key@, n as nat) + seq!['\n']);
}

proof fn lemma_fields_stop(all: Seq<Seq<char>>, n: nat, m: nat)
    requires
        n <= m <= all.len(),
        fields_of(all, n) is None,
    ensures
        fields_of(all, m) is None,
    decreases m - n,
{
    if n < m {
        lemma_fields_stop(all, n, (m - 1) as nat);
    }
}

impl SnapshotId {
    /// The text of the progress file of a transfer.
    pub fn encode(&self, written: u64) -> (r: String)
        ensures
            r@ == meta_text(*self, written),
    {
        let mut out = String::new();
        push_pair(&mut out, "shard", self.shard.0 as u64);
        push_pair(&mut out, "epoch", self.epoch);
        push_pair(&mut out, "lsn", self.lsn);
        push_pair(&mut out, "total", self.total_bytes);
        push_pair(&mut out, "written", written);
        assert(out@ =~= meta_text(*self, written));
        out
    }

    /// Reads a progress file: the transfer it speaks of, and the bytes written.
    #[verifier::loop_isolation(false)]
    pub fn decode(text: &str) -> (r: Option<(SnapshotId, u64)>)
        ensures
            r == read_meta(text@),
    {
        let all = lines_of(text);
        let ghost model = lines(text@);
        assert(views(all@).len() == all@.len());
        let mut shard: Option<u32> = None;
        let mut epoch: Option<u64> = None;
        let mut lsn: Option<u64> = None;
        let mut total: Option<u64> = None;
        let mut written: Option<u64> = None;
        let mut i: usize = 0;
        while i < all.len()
            invariant
                i <= all@.len(),
                fields_of(model, i as nat) == Some(Fields { shard, epoch, lsn, total, written }),
            decreases all@.len() - i,
        {
            assert(model[i as int] == all@[i as int]@);
            let (k, v) = match split_once(all[i].as_str(), '=') {
                Some(p) => p,
                None => {
                    proof {
                        assert(fields_of(model, (i + 1) as nat) is None);
                        lemma_fields_stop(model, (i + 1) as nat, model.len());
                    }
                    return None;
                },
            };
            if same(k.as_str(), "shard") {
                shard = parse_u32(v.as_str());
            } else if same(k.as_str(), "epoch") {
                epoch = parse_u64(v.as_str());
            } else if same(k.as_str(), "lsn") {
                lsn = parse_u64(v.as_str());
            } else if same(k.as_str(), "total") {
                total = parse_u64(v.as_str());
            } else if same(k.as_str(), "written") {
                written = parse_u64(v.as_str());
            }
            i = i + 1;
        }
        match (shard, epoch, lsn, total) {
            (Some(shard), Some(epoch), Some(lsn), Some(total_bytes)) => Some(
                (
                    SnapshotId { shard: ShardId(shard), epoch, lsn, total_bytes },
                    match written {
                        Some(w) => w,
                        None => 0,
                    },
                ),
            ),
            _ => None,
        }
    }
}

// ---- the source --------------------------------------------------------------------------------

/// The reading side of a transfer: which snapshot, and how far it has been read.
#[derive(Clone, Copy, Debug, PartialEq, Eq, Structural)]
pub struct SnapshotSource {
    id: SnapshotId,
    offset: u64,
}

impl SnapshotSource {
    pub closed spec fn ident(&self) -> SnapshotId {
        self.id
    }

    pub closed spec fn at(&self) -> u64 {
        self.offset
    }

    /// A source over a frozen shard file of `total_bytes`.
    pub fn open(shard: ShardId, epoch: u64, lsn: Lsn, total_bytes: u64) -> (r: SnapshotSource)
        ensures
            r.ident() == (SnapshotId { shard, epoch, lsn, total_bytes }),
            r.at() == 0,
    {
        SnapshotSource { id: SnapshotId { shard, epoch, lsn, total_bytes }, offset: 0 }
    }

    pub fn id(&self) -> (r: SnapshotId)
        ensures
            r == self.ident(),
    {
        self.id
    }

    pub fn offset(&self) -> (r: u64)
        ensures
            r == self.at(),
    {
        self.offset
    }

    /// Continue from `offset`, which must lie in the snapshot.
    pub fn seek_to(&mut self, offset: u64) -> (r: Result<(), Error>)
        ensures
            final(self).ident() == old(self).ident(),
            if offset > old(self).ident().total_bytes {
                (r matches Err(e) && e@ == ErrorModel::Manifest(
                    beyond(offset, old(self).ident().total_bytes),
                )) && final(self).at() == old(self).at()
            } else {
                r is Ok && final(self).at() == offset
            },
    {
        if offset > self.id.total_bytes {
            let mut m = "cannot resume at ".to_owned();
            push_decimal(&mut m, offset);
            m.append("; the snapshot is only ");
            push_decimal(&mut m, self.id.total_bytes);
            m.append(" bytes");
            return Err(Error::Manifest(m));
        }
        self.offset = offset;
        Ok(())
    }

    /// Counts a chunk of `n` bytes as read.
    pub fn read_chunk(&mut self, n: usize)
        requires
            old(self).at() + n <= u64::MAX,
        ensures
            final(self).ident() == old(self).ident(),
            final(self).at() == old(self).at() + n,
    {
        self.offset = self.offset + n as u64;
    }
}

// ---- the transfer ------------------------------------------------------------------------------

/// Where a transfer starts: from what the progress file says and what is on disk, where they are of
/// the same snapshot, and otherwise from nothing.
pub open spec fn resume_point(id: SnapshotId, meta: Option<&str>, on_disk: u64) -> Option<u64> {
    match meta {
        None => None,
        Some(text) => match read_meta(text@) {
            None => None,
            Some((found, written)) => if found == id {
                Some(
                    if written <= on_disk {
                        written
                    } else {
                        on_disk
                    },
                )
            } else {
                None
            },
        },
    }
}

/// The writing side of a transfer: which snapshot, and how much of it has arrived.
#[derive(Clone, Copy, Debug, PartialEq, Eq, Structural)]
pub struct SnapshotTransfer {
    id: SnapshotId,
    written: u64,
}

impl SnapshotTransfer {
    pub closed spec fn ident(&self) -> SnapshotId {
        self.id
    }

    pub closed spec fn received(&self) -> u64 {
        self.written
    }

    /// Begin or resume a transfer of `id`, given the text of a progress file and the size of a
    /// partial file. The second part says whether the partial file is kept; one of a different
    /// snapshot is not. The recorded offset never counts for more than the file itself.
    pub fn begin(id: SnapshotId, meta: Option<&str>, on_disk: u64) -> (r: (SnapshotTransfer, bool))
        ensures
            r.0.ident() == id,
            match resume_point(id, meta, on_disk) {
                Some(at) => r.0.received() == at && r.1,
                None => r.0.received() == 0 && !r.1,
            },
    {
        if let Some(text) = meta {
            if let Some((found, written)) = SnapshotId::decode(text) {
                if found == id {
                    let at: u64 = if written <= on_disk {
                        written
                    } else {
                        on_disk
                    };
                    return (SnapshotTransfer { id, written: at }, true);
                }
            }
        }
        (SnapshotTransfer { id, written: 0 }, false)
    }

    /// Which snapshot it is of.
    pub fn id(&self) -> (r: SnapshotId)
        ensures
            r == self.ident(),
    {
        self.id
    }

    /// Bytes already received; where the source should resume from.
    pub fn offset(&self) -> (r: u64)
        ensures
            r == self.received(),
    {
        self.written
    }

    pub fn total(&self) -> (r: u64)
        ensures
            r == self.ident().total_bytes,
    {
        self.id.total_bytes
    }

    pub fn is_complete(&self) -> (r: bool)
        ensures
            r == (self.received() >= self.ident().total_bytes),
    {
        self.written >= self.id.total_bytes
    }

    /// Counts a chunk of `n` bytes that is durable in the partial file. The text is for the
    /// progress file, `None` where nothing changed.
    pub fn write_chunk(&mut self, n: usize) -> (r: Option<String>)
        requires
            old(self).received() + n <= u64::MAX,
        ensures
            final(self).ident() == old(self).ident(),
            final(self).received() == old(self).received() + n,
            if n == 0 {
                r is None
            } else {
                r matches Some(t) && t@ == meta_text(final(self).ident(), final(self).received())
            },
    {
        if n == 0 {
            return None;
        }
        self.written = self.written + n as u64;
        Some(self.id.encode(self.written))
    }

    /// Whether the transfer can be installed, and the position that it brings a follower to.
    pub fn finish(&self) -> (r: Result<super::follower::Position, Error>)
        ensures
            if self.received() < self.ident().total_bytes {
                r matches Err(e) && e@ == ErrorModel::Manifest(
                    "snapshot transfer for "@ + self.ident().shard.shown() + " is incomplete: "@
                        + decimal(self.received() as nat) + " of "@ + decimal(
                        self.ident().total_bytes as nat,
                    ) + " bytes"@,
                )
            } else {
                r == Ok::<super::follower::Position, Error>(
                    super::follower::Position {
                        epoch: self.ident().epoch,
                        applied_lsn: self.ident().lsn,
                    },
                )
            },
    {
        if self.written < self.id.total_bytes {
            let mut m = "snapshot transfer for ".to_owned();
            let shard = self.id.shard.name();
            m.append(shard.as_str());
            m.append(" is incomplete: ");
            push_decimal(&mut m, self.written);
            m.append(" of ");
            push_decimal(&mut m, self.id.total_bytes);
            m.append(" bytes");
            return Err(Error::Manifest(m));
        }
        Ok(super::follower::Position { epoch: self.id.epoch, applied_lsn: self.id.lsn })
    }
}

pub open spec fn mismatch_refusal(transfer: SnapshotId, source: SnapshotId) -> Seq<char> {
    "snapshot identity mismatch for "@ + transfer.shard.shown() + ": source is epoch "@ + decimal(
        source.epoch as nat,
    ) + " lsn "@ + decimal(source.lsn as nat) + ", transfer expects epoch "@ + decimal(
        transfer.epoch as nat,
    ) + " lsn "@ + decimal(transfer.lsn as nat)
}

/// The failure to resume past the end of a snapshot.
pub open spec fn beyond(offset: u64, total: u64) -> Seq<char> {
    "cannot resume at "@ + decimal(offset as nat) + "; the snapshot is only "@ + decimal(
        total as nat,
    ) + " bytes"@
}

/// A step of a copy.
#[derive(Debug)]
pub enum CopyStep {
    /// Read up to a number of bytes of the snapshot, from an offset.
    Read { at: u64, n: usize },
    /// Append bytes to the partial file, durably.
    Append { at: u64, data: Vec<u8> },
    /// Write the progress file.
    Note(String),
}

pub ghost enum CopyModel {
    Read { at: u64, n: usize },
    Append { at: u64, data: Seq<u8> },
    Note(Seq<char>),
}

impl View for CopyStep {
    type V = CopyModel;

    open spec fn view(&self) -> CopyModel {
        match self {
            CopyStep::Read { at, n } => CopyModel::Read { at: *at, n: *n },
            CopyStep::Append { at, data } => CopyModel::Append { at: *at, data: data@ },
            CopyStep::Note(t) => CopyModel::Note(t@),
        }
    }
}

/// Steps, and what they gave: bytes where some were read.
pub type CopyTrail = Seq<(CopyModel, Result<Vec<u8>, Error>)>;

pub open spec fn trail_of(record: Seq<(CopyStep, Result<Vec<u8>, Error>)>) -> CopyTrail {
    record.map_values(|e: (CopyStep, Result<Vec<u8>, Error>)| (e.0@, e.1))
}

/// Whether these are the steps that copy what remains of a snapshot from `at` on, and this is what
/// they come to, with the source and the transfer left where they are said to be. A chunk is
/// appended to the partial file, durably, before the progress file counts it: a crash between the
/// two repeats a chunk, and never skips one.
pub open spec fn pumped(
    steps: CopyTrail,
    id: SnapshotId,
    chunk: usize,
    at: u64,
    source: u64,
    after: u64,
    r: Result<(), Error>,
) -> bool
    decreases steps.len(),
{
    &&& steps.len() > 0
    &&& steps[0].0 == (CopyModel::Read { at, n: chunk })
    &&& match steps[0].1 {
        Err(e) => steps.len() == 1 && source == at && after == at && r == Err::<(), Error>(e),
        Ok(v) => if v@.len() == 0 {
            steps.len() == 1 && source == at && after == at && r is Ok
        } else {
            let next = (at + v@.len()) as u64;
            &&& steps.len() > 1
            &&& steps[1].0 == (CopyModel::Append { at, data: v@ })
            &&& match steps[1].1 {
                Err(e) => steps.len() == 2 && source == next && after == at && r == Err::<
                    (),
                    Error,
                >(e),
                Ok(_) => {
                    &&& steps.len() > 2
                    &&& steps[2].0 == CopyModel::Note(meta_text(id, next))
                    &&& match steps[2].1 {
                        Err(e) => steps.len() == 3 && source == next && after == next && r == Err::<
                            (),
                            Error,
                        >(e),
                        Ok(_) => pumped(steps.skip(3), id, chunk, next, source, after, r),
                    }
                },
            }
        },
    }
}

/// The bytes that are read at a time, one at least.
pub open spec fn piece_size(chunk: usize) -> usize {
    if chunk == 0 {
        1
    } else {
        chunk
    }
}

proof fn lemma_trail_grows(
    record: Seq<(CopyStep, Result<Vec<u8>, Error>)>,
    e: (CopyStep, Result<Vec<u8>, Error>),
)
    ensures
        trail_of(record.push(e)) == trail_of(record).push((e.0@, e.1)),
{
    assert(trail_of(record.push(e)) =~= trail_of(record).push((e.0@, e.1)));
}

/// Copies whatever remains of `source` into `transfer`, which must be of the same snapshot; to be
/// called again after an interruption. `line` carries out a step.
#[verifier::loop_isolation(false)]
pub fn pump<F: Fn(CopyStep) -> Result<Vec<u8>, Error>>(
    source: &mut SnapshotSource,
    transfer: &mut SnapshotTransfer,
    chunk: usize,
    line: &mut Line<CopyStep, Result<Vec<u8>, Error>, F>,
) -> (r: Result<(), Error>)
    requires
        forall|s: CopyStep| #[trigger] call_requires(old(line).far(), (s,)),
        forall|at: u64, n: usize, d: Vec<u8>| #[trigger]
            call_ensures(old(line).far(), (CopyStep::Read { at, n },), Ok::<Vec<u8>, Error>(d))
                ==> at + d@.len() <= u64::MAX,
    ensures
        final(line).far() == old(line).far(),
        final(source).ident() == old(source).ident(),
        final(transfer).ident() == old(transfer).ident(),
        if old(source).ident() != old(transfer).ident() {
            (r matches Err(e) && e@ == ErrorModel::Manifest(
                mismatch_refusal(old(transfer).ident(), old(source).ident()),
            )) && *final(source) == *old(source) && *final(transfer) == *old(transfer)
                && final(line).record() == old(line).record()
        } else if old(transfer).received() > old(transfer).ident().total_bytes {
            (r matches Err(e) && e@ == ErrorModel::Manifest(
                beyond(old(transfer).received(), old(transfer).ident().total_bytes),
            )) && final(source).at() == old(source).at() && *final(transfer) == *old(transfer)
                && final(line).record() == old(line).record()
        } else {
            exists|steps: CopyTrail|
                trail_of(final(line).record()) == trail_of(old(line).record()) + steps
                    && #[trigger] pumped(
                    steps,
                    old(transfer).ident(),
                    piece_size(chunk),
                    old(transfer).received(),
                    final(source).at(),
                    final(transfer).received(),
                    r,
                )
        },
{
    if source.id != transfer.id {
        let mut m = "snapshot identity mismatch for ".to_owned();
        let shard = transfer.id.shard.name();
        m.append(shard.as_str());
        m.append(": source is epoch ");
        push_decimal(&mut m, source.id.epoch);
        m.append(" lsn ");
        push_decimal(&mut m, source.id.lsn);
        m.append(", transfer expects epoch ");
        push_decimal(&mut m, transfer.id.epoch);
        m.append(" lsn ");
        push_decimal(&mut m, transfer.id.lsn);
        return Err(Error::Manifest(m));
    }
    match source.seek_to(transfer.written) {
        Ok(_) => {},
        Err(e) => {
            return Err(e);
        },
    }
    let size: usize = if chunk == 0 {
        1
    } else {
        chunk
    };
    assert(size == piece_size(chunk));
    let ghost id = transfer.id;
    let ghost start = transfer.written;
    let ghost before = trail_of(line.record());
    let ghost far = line.far();
    let ghost mut done: CopyTrail = Seq::empty();
    assert(before + done =~= before);
    assert forall|rest: CopyTrail, s: u64, w: u64, r: Result<(), Error>| #[trigger]
        pumped(rest, id, size, transfer.written, s, w, r) implies pumped(
        done + rest,
        id,
        size,
        start,
        s,
        w,
        r,
    ) by {
        assert(done + rest =~= rest);
    }
    loop
        invariant
            transfer.id == id,
            source.id == old(source).id,
            source.offset == transfer.written,
            line.far() == far,
            trail_of(line.record()) == before + done,
            forall|rest: CopyTrail, s: u64, w: u64, r: Result<(), Error>| #[trigger]
                pumped(rest, id, size, transfer.written, s, w, r) ==> pumped(
                    done + rest,
                    id,
                    size,
                    start,
                    s,
                    w,
                    r,
                ),
        decreases u64::MAX - transfer.written,
    {
        let ghost at = transfer.written;
        let ghost r0 = line.record();
        let d = line.ask(CopyStep::Read { at: source.offset, n: size });
        let ghost got = d;
        let ghost one: CopyTrail = seq![(CopyModel::Read { at, n: size }, got)];
        proof {
            lemma_trail_grows(r0, (CopyStep::Read { at, n: size }, got));
            assert(trail_of(line.record()) =~= before + (done + one));
        }
        let data = match d {
            Ok(data) => data,
            Err(e) => {
                let r: Result<(), Error> = Err(e);
                assert(pumped(one, id, size, at, at, at, r));
                assert(pumped(done + one, id, size, start, at, at, r));
                proof {
                    assert(trail_of(line.record()) == trail_of(old(line).record()) + (done + one));
                    assert(pumped(
                        done + one,
                        old(transfer).ident(),
                        piece_size(chunk),
                        old(transfer).received(),
                        source.at(),
                        transfer.received(),
                        r,
                    ));
                }
                return r;
            },
        };
        if data.len() == 0 {
            let r: Result<(), Error> = Ok(());
            assert(pumped(one, id, size, at, at, at, r));
            assert(pumped(done + one, id, size, start, at, at, r));
            proof {
                assert(trail_of(line.record()) == trail_of(old(line).record()) + (done + one));
                assert(pumped(
                    done + one,
                    old(transfer).ident(),
                    piece_size(chunk),
                    old(transfer).received(),
                    source.at(),
                    transfer.received(),
                    r,
                ));
            }
            return r;
        }
        let n: usize = data.len();
        let ghost bytes = data@;
        source.read_chunk(n);
        let ghost r1 = line.record();
        let a = line.ask(CopyStep::Append { at: transfer.written, data });
        let ghost appended = a;
        let ghost two = one.push((CopyModel::Append { at, data: bytes }, appended));
        proof {
            lemma_trail_grows(r1, line.record().last());
            assert(trail_of(line.record()) =~= before + (done + two));
        }
        match a {
            Ok(_) => {},
            Err(e) => {
                let r: Result<(), Error> = Err(e);
                assert(pumped(two, id, size, at, source.offset, at, r));
                assert(pumped(done + two, id, size, start, source.offset, at, r));
                proof {
                    assert(trail_of(line.record()) == trail_of(old(line).record()) + (done + two));
                    assert(pumped(
                        done + two,
                        old(transfer).ident(),
                        piece_size(chunk),
                        old(transfer).received(),
                        source.at(),
                        transfer.received(),
                        r,
                    ));
                }
                return r;
            },
        }
        let text = match transfer.write_chunk(n) {
            Some(text) => text,
            None => String::new(),
        };
        let ghost r2 = line.record();
        let ghost written = text@;
        let noted = line.ask(CopyStep::Note(text));
        let ghost told = noted;
        let ghost three = two.push((CopyModel::Note(written), told));
        proof {
            lemma_trail_grows(r2, line.record().last());
            assert(trail_of(line.record()) =~= before + (done + three));
        }
        match noted {
            Ok(_) => {},
            Err(e) => {
                let r: Result<(), Error> = Err(e);
                assert(pumped(three, id, size, at, source.offset, transfer.written, r));
                assert(pumped(done + three, id, size, start, source.offset, transfer.written, r));
                proof {
                    assert(trail_of(line.record()) == trail_of(old(line).record()) + (done + three));
                    assert(pumped(
                        done + three,
                        old(transfer).ident(),
                        piece_size(chunk),
                        old(transfer).received(),
                        source.at(),
                        transfer.received(),
                        r,
                    ));
                }
                return r;
            },
        }
        proof {
            assert forall|rest: CopyTrail, x: u64, w: u64, r: Result<(), Error>| #[trigger]
                pumped(rest, id, size, transfer.written, x, w, r) implies pumped(
                (done + three) + rest,
                id,
                size,
                start,
                x,
                w,
                r,
            ) by {
                let all = three + rest;
                assert(all.skip(3) =~= rest);
                assert(pumped(all, id, size, at, x, w, r));
                assert(done + all =~= (done + three) + rest);
            }
            done = done + three;
        }
    }
}

// ---- laws --------------------------------------------------------------------------------------

/// The lines of a progress file.
proof fn lemma_meta_lines(id: SnapshotId, written: u64)
    ensures
        lines(meta_text(id, written)) == seq![
            pair("shard"@, id.shard.0 as nat),
            pair("epoch"@, id.epoch as nat),
            pair("lsn"@, id.lsn as nat),
            pair("total"@, id.total_bytes as nat),
            pair("written"@, written as nat),
        ],
{
    let a = pair("shard"@, id.shard.0 as nat);
    let b = pair("epoch"@, id.epoch as nat);
    let c = pair("lsn"@, id.lsn as nat);
    let d = pair("total"@, id.total_bytes as nat);
    let e = pair("written"@, written as nat);
    let r4 = e + seq!['\n'] + Seq::empty();
    let r3 = d + seq!['\n'] + r4;
    let r2 = c + seq!['\n'] + r3;
    let r1 = b + seq!['\n'] + r2;
    assert(lines(r4) =~= seq![e]) by {
        lemma_words();
        lemma_number(written as nat);
        lemma_pair_line("written"@, decimal(written as nat), Seq::empty());
    }
    assert(lines(r3) =~= seq![d, e]) by {
        lemma_words();
        lemma_number(id.total_bytes as nat);
        lemma_pair_line("total"@, decimal(id.total_bytes as nat), r4);
    }
    assert(lines(r2) =~= seq![c, d, e]) by {
        lemma_words();
        lemma_number(id.lsn as nat);
        lemma_pair_line("lsn"@, decimal(id.lsn as nat), r3);
    }
    assert(lines(r1) =~= seq![b, c, d, e]) by {
        lemma_words();
        lemma_number(id.epoch as nat);
        lemma_pair_line("epoch"@, decimal(id.epoch as nat), r2);
    }
    assert(lines(a + seq!['\n'] + r1) =~= seq![a, b, c, d, e]) by {
        lemma_words();
        lemma_number(id.shard.0 as nat);
        lemma_pair_line("shard"@, decimal(id.shard.0 as nat), r1);
    }
}

proof fn lemma_field_step(all: Seq<Seq<char>>, n: nat, f: Fields, key: Seq<char>, value: nat)
    requires
        n < all.len(),
        fields_of(all, n) == Some(f),
        all[n as int] == pair(key, value),
        plain(key),
    ensures
        fields_of(all, n + 1) == Some(with_field(f, key, decimal(value))),
        unsigned_text(decimal(value)) == Some(value),
{
    lemma_number(value);
    lemma_pair_line(key, decimal(value), Seq::empty());
}

/// What is written to a progress file is read back from it.
pub proof fn law_meta_reads_back(id: SnapshotId, written: u64)
    ensures
        read_meta(meta_text(id, written)) == Some((id, written)),
{
    lemma_meta_lines(id, written);
    let all = lines(meta_text(id, written));
    lemma_words();
    let f0 = no_fields();
    assert(fields_of(all, 0) == Some(f0));
    lemma_field_step(all, 0, f0, "shard"@, id.shard.0 as nat);
    let f1 = Fields { shard: Some(id.shard.0), ..f0 };
    lemma_field_step(all, 1, f1, "epoch"@, id.epoch as nat);
    let f2 = Fields { epoch: Some(id.epoch), ..f1 };
    lemma_field_step(all, 2, f2, "lsn"@, id.lsn as nat);
    let f3 = Fields { lsn: Some(id.lsn), ..f2 };
    lemma_field_step(all, 3, f3, "total"@, id.total_bytes as nat);
    let f4 = Fields { total: Some(id.total_bytes), ..f3 };
    lemma_field_step(all, 4, f4, "written"@, written as nat);
}

proof fn lemma_number(n: nat)
    ensures
        spaceless(decimal(n)),
        unsigned_text(decimal(n)) == Some(n),
{
    lemma_decimal_plain(n);
    lemma_decimal_reads_back(n);
}

/// Two snapshots are never spliced: a transfer goes on from a partial file only where its progress
/// file speaks of the very same snapshot, and never past what the file holds.
pub proof fn law_only_the_same_snapshot_resumes(
    id: SnapshotId,
    left: SnapshotId,
    written: u64,
    on_disk: u64,
    meta: &str,
)
    requires
        meta@ == meta_text(left, written),
    ensures
        left != id ==> resume_point(id, Some(meta), on_disk) is None,
        left == id ==> (resume_point(id, Some(meta), on_disk) matches Some(at) && at <= on_disk && at
            <= written && (at == on_disk || at == written)),
{
    law_meta_reads_back(left, written);
}

} // verus!
