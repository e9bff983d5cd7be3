//! Streaming a shard's change-log, and snapshots of it, to object storage.
//!
//! Every committed batch becomes a change-log object. Uploads run in the background, so that no
//! commit waits for one; but a batch handed over after an upload was given up on is refused, since
//! a sink that silently stopped archiving would let the database drift ahead of its durable copy.
//! The keys of objects sort by epoch and position.

use vstd::prelude::*;

use super::clock::{padded, push_padded};
use super::config::S3Error;
use crate::calls::{goes_on, lemma_added, since, Line};
use crate::error::{Error, ErrorModel};
use crate::replication::stream::{Lsn, StreamTxn};
use crate::shard::id::ShardId;
use crate::shard::map::ShardMap;
use crate::text::{decimal, push_decimal};

verus! {

/// How far a shard is archived.
#[derive(Clone, Copy, Debug, PartialEq, Eq, Structural)]
pub struct ShardArchive {
    pub shard: u32,
    /// The newest snapshot, and when it was uploaded.
    pub last_snapshot_epoch: u64,
    pub last_snapshot_lsn: u64,
    pub last_snapshot_ms: u64,
    /// The highest position handed to the uploader.
    pub last_archived_lsn: u64,
}

impl Default for ShardArchive {
    fn default() -> (r: ShardArchive)
        ensures
            r == nothing_archived(),
    {
        ShardArchive {
            shard: 0,
            last_snapshot_epoch: 0,
            last_snapshot_lsn: 0,
            last_snapshot_ms: 0,
            last_archived_lsn: 0,
        }
    }
}

pub open spec fn nothing_archived() -> ShardArchive {
    ShardArchive {
        shard: 0,
        last_snapshot_epoch: 0,
        last_snapshot_lsn: 0,
        last_snapshot_ms: 0,
        last_archived_lsn: 0,
    }
}

/// A sink's health, and how far each shard is archived.
#[derive(Debug)]
pub struct S3SinkStatus {
    pub healthy: bool,
    pub last_error: Option<String>,
    pub shards: Vec<ShardArchive>,
}

/// An object to be uploaded.
#[derive(Debug)]
pub struct Upload {
    pub key: String,
    pub bytes: Vec<u8>,
}

/// A snapshot to be uploaded.
pub struct Image<'a> {
    pub key: String,
    pub bytes: &'a Vec<u8>,
}

/// What an upload is made of: it is sent, and waited with.
pub enum Try<'a> {
    Put(&'a Upload),
    /// So many milliseconds.
    Pause(u64),
}

/// Archives the frames and snapshots of shards.
#[derive(Debug)]
pub struct S3Sink {
    prefix: String,
    failed: Option<String>,
    progress: ShardMap<ShardArchive>,
}

/// What an [`S3Sink`] holds.
pub ghost struct SinkModel {
    pub prefix: Seq<char>,
    /// Why an upload was given up on, if one was.
    pub failed: Option<Seq<char>>,
    pub progress: Map<u32, ShardArchive>,
}

impl View for S3Sink {
    type V = SinkModel;

    closed spec fn view(&self) -> SinkModel {
        SinkModel {
            prefix: self.prefix@,
            failed: match self.failed {
                Some(m) => Some(m@),
                None => None,
            },
            progress: self.progress@,
        }
    }
}

/// The name of an object under a prefix: its shard, its kind, and its epoch and position.
pub open spec fn object_key(
    prefix: Seq<char>,
    shard: ShardId,
    kind: Seq<char>,
    epoch: u64,
    lsn: Lsn,
) -> Seq<char> {
    prefix + "/shard_"@ + decimal(shard.0 as nat) + kind + padded(epoch as nat, 20) + seq!['_']
        + padded(lsn as nat, 20)
}

/// The key of the change-log object of a shard from a position on.
pub open spec fn log_key(prefix: Seq<char>, shard: ShardId, epoch: u64, first: Lsn) -> Seq<char> {
    object_key(prefix, shard, "/wal/"@, epoch, first)
}

/// The key of the snapshot of a shard at a position.
pub open spec fn image_key(prefix: Seq<char>, shard: ShardId, epoch: u64, lsn: Lsn) -> Seq<char> {
    object_key(prefix, shard, "/snapshot/"@, epoch, lsn)
}

fn key_of(prefix: &str, shard: ShardId, kind: &str, epoch: u64, lsn: Lsn) -> (r: String)
    ensures
        r@ == object_key(prefix@, shard, kind@, epoch, lsn),
{
    let mut out = prefix.to_owned();
    out.append("/shard_");
    push_decimal(&mut out, shard.0 as u64);
    out.append(kind);
    push_padded(&mut out, epoch, 20);
    out.push('_');
    push_padded(&mut out, lsn, 20);
    assert(out@ =~= object_key(prefix@, shard, kind@, epoch, lsn));
    out
}

impl SinkModel {
    pub open spec fn archive(self, shard: ShardId) -> ShardArchive {
        if self.progress.dom().contains(shard.0) {
            self.progress[shard.0]
        } else {
            nothing_archived()
        }
    }

    /// After a batch up to a position was handed to the uploader.
    pub open spec fn handed(self, shard: ShardId, last: Lsn) -> SinkModel {
        SinkModel {
            progress: self.progress.insert(
                shard.0,
                ShardArchive { shard: shard.0, last_archived_lsn: last, ..self.archive(shard) },
            ),
            ..self
        }
    }

    /// After a snapshot was uploaded.
    pub open spec fn snapshotted(self, shard: ShardId, epoch: u64, lsn: Lsn, now_ms: u64) -> SinkModel {
        SinkModel {
            progress: self.progress.insert(
                shard.0,
                ShardArchive {
                    shard: shard.0,
                    last_snapshot_epoch: epoch,
                    last_snapshot_lsn: lsn,
                    last_snapshot_ms: now_ms,
                    ..self.archive(shard)
                },
            ),
            ..self
        }
    }

    /// Why a batch is refused, if it is.
    pub open spec fn complaint(self) -> Option<ErrorModel> {
        match self.failed {
            Some(m) => Some(ErrorModel::Protocol("s3 sink unhealthy: "@ + m)),
            None => None,
        }
    }
}

pub open spec fn error_of(r: Result<(), Error>) -> Option<ErrorModel> {
    match r {
        Ok(_) => None,
        Err(e) => Some(e@),
    }
}

/// What handing over a batch came to: an upload, where there is anything to upload, and whether the
/// sink is well.
#[derive(Debug)]
pub struct Accepted {
    pub upload: Option<Upload>,
    pub result: Result<(), Error>,
}

/// A failure of the bucket as one of the library.
pub fn to_err(e: &S3Error) -> (r: Error)
    ensures
        r@ == ErrorModel::Protocol("s3: "@ + e.message()),
{
    let mut m = "s3: ".to_owned();
    let text = e.to_text();
    m.append(text.as_str());
    Error::Protocol(m)
}

/// Whether handing over a batch comes to this.
pub open spec fn accepted_as<E: Fn(&Vec<StreamTxn>) -> Result<Vec<u8>, Error>>(
    encode: E,
    before: SinkModel,
    shard: ShardId,
    epoch: u64,
    txns: &Vec<StreamTxn>,
    after: SinkModel,
    r: Accepted,
) -> bool {
    if txns@.len() == 0 {
        after == before && r.upload is None && r.result is Ok
    } else {
        exists|bytes: Result<Vec<u8>, Error>| #[trigger]
            call_ensures(encode, (txns,), bytes) && match bytes {
                Err(e) => after == before && r.upload is None && r.result == Err::<(), Error>(e),
                Ok(b) => {
                    &&& after == before.handed(shard, txns@.last().lsn)
                    &&& r.upload matches Some(u) && u.bytes == b && u.key@ == log_key(
                        before.prefix,
                        shard,
                        epoch,
                        txns@[0].lsn,
                    )
                    &&& error_of(r.result) == before.complaint()
                },
            }
    }
}

impl S3Sink {
    pub closed spec fn wf(&self) -> bool {
        self.progress.wf()
    }

    pub fn new(prefix: &str) -> (r: S3Sink)
        ensures
            r.wf(),
            r@ == (SinkModel { prefix: prefix@, failed: None, progress: Map::empty() }),
    {
        S3Sink { prefix: prefix.to_owned(), failed: None, progress: ShardMap::new() }
    }

    /// Where objects go.
    pub fn prefix(&self) -> (r: &String)
        ensures
            r@ == self@.prefix,
    {
        &self.prefix
    }

    /// The key of the change-log object of a shard from a position on.
    pub fn wal_key(&self, shard: ShardId, epoch: u64, first_lsn: Lsn) -> (r: String)
        ensures
            r@ == log_key(self@.prefix, shard, epoch, first_lsn),
    {
        key_of(self.prefix.as_str(), shard, "/wal/", epoch, first_lsn)
    }

    /// The key of the snapshot of a shard at a position.
    pub fn snapshot_key(&self, shard: ShardId, epoch: u64, lsn: Lsn) -> (r: String)
        ensures
            r@ == image_key(self@.prefix, shard, epoch, lsn),
    {
        key_of(self.prefix.as_str(), shard, "/snapshot/", epoch, lsn)
    }

    fn archive(&self, shard: ShardId) -> (r: ShardArchive)
        requires
            self.wf(),
        ensures
            r == self@.archive(shard),
    {
        match self.progress.get(shard.0) {
            Some(a) => *a,
            None => ShardArchive::default(),
        }
    }

    /// Whether the sink is well.
    pub fn health(&self) -> (r: Result<(), Error>)
        ensures
            error_of(r) == self@.complaint(),
    {
        match &self.failed {
            Some(m) => {
                let mut text = "s3 sink unhealthy: ".to_owned();
                text.append(m.as_str());
                Err(Error::Protocol(text))
            },
            None => Ok(()),
        }
    }

    /// An upload was given up on.
    pub fn upload_failed(&mut self, e: &S3Error)
        requires
            old(self).wf(),
        ensures
            final(self).wf(),
            final(self)@ == (SinkModel { failed: Some(e.message()), ..old(self)@ }),
    {
        self.failed = Some(e.to_text());
    }

    /// Accepts a committed batch of a shard. `encode` makes an object of it. A failure of an earlier
    /// upload is reported here, so that the writer stops before it drifts further.
    pub fn accept<E: Fn(&Vec<StreamTxn>) -> Result<Vec<u8>, Error>>(
        &mut self,
        shard: ShardId,
        epoch: u64,
        txns: &Vec<StreamTxn>,
        encode: &E,
    ) -> (r: Accepted)
        requires
            old(self).wf(),
            call_requires(*encode, (txns,)),
        ensures
            final(self).wf(),
            accepted_as(*encode, old(self)@, shard, epoch, txns, final(self)@, r),
    {
        if txns.len() == 0 {
            return Accepted { upload: None, result: Ok(()) };
        }
        let first: u64 = txns[0].lsn;
        let last: u64 = txns[txns.len() - 1].lsn;
        let encoded = encode(txns);
        assert(call_ensures(*encode, (txns,), encoded));
        let bytes = match encoded {
            Ok(bytes) => bytes,
            Err(e) => {
                return Accepted { upload: None, result: Err(e) };
            },
        };
        let key = self.wal_key(shard, epoch, first);
        let before = self.archive(shard);
        self.progress.insert(
            shard.0,
            ShardArchive { shard: shard.0, last_archived_lsn: last, ..before },
        );
        assert(self@ == old(self)@.handed(shard, last));
        Accepted { upload: Some(Upload { key, bytes }), result: self.health() }
    }

    /// Uploads a snapshot of a whole shard, through `put`: the one image under its key, and nothing
    /// else.
    pub fn put_snapshot<'a, P: Fn(Image<'a>) -> Result<(), S3Error>>(
        &mut self,
        shard: ShardId,
        epoch: u64,
        lsn: Lsn,
        db: &'a Vec<u8>,
        now_ms: u64,
        put: &mut Line<Image<'a>, Result<(), S3Error>, P>,
    ) -> (r: Result<(), Error>)
        requires
            old(self).wf(),
            forall|i: Image<'a>| #[trigger] call_requires(old(put).far(), (i,)),
        ensures
            final(self).wf(),
            final(put).far() == old(put).far(),
            goes_on(old(put).record(), final(put).record()),
            snapshot_put(
                old(self)@,
                shard,
                epoch,
                lsn,
                db@,
                now_ms,
                since(old(put).record(), final(put).record()),
                final(self)@,
                r,
            ),
    {
        let key = self.snapshot_key(shard, epoch, lsn);
        let ghost first = put.record();
        let image = Image { key, bytes: db };
        let ghost handed = image;
        let done = put.ask(image);
        proof {
            assert(put.record() =~= first + seq![(handed, done)]);
            lemma_added(first, seq![(handed, done)]);
        }
        match done {
            Ok(_) => {},
            Err(e) => {
                return Err(to_err(&e));
            },
        }
        let before = self.archive(shard);
        self.progress.insert(
            shard.0,
            ShardArchive {
                shard: shard.0,
                last_snapshot_epoch: epoch,
                last_snapshot_lsn: lsn,
                last_snapshot_ms: now_ms,
                ..before
            },
        );
        assert(self@ == old(self)@.snapshotted(shard, epoch, lsn, now_ms));
        Ok(())
    }

    /// Health, and how far each shard is archived, in ascending order.
    pub fn status(&self) -> (r: S3SinkStatus)
        requires
            self.wf(),
        ensures
            r.healthy == (self@.failed is None),
            match r.last_error {
                Some(m) => self@.failed == Some(m@),
                None => self@.failed is None,
            },
            listed(self@.progress, r.shards@),
    {
        let ghost list = self.progress.list();
        let mut shards: Vec<ShardArchive> = Vec::new();
        let mut i: usize = 0;
        while i < self.progress.len()
            invariant
                i <= list.len(),
                list == self.progress.list(),
                shards@ =~= list.take(i as int).map_values(|e: (u32, ShardArchive)| e.1),
            decreases list.len() - i,
        {
            shards.push(*self.progress.value_at(i));
            i = i + 1;
        }
        proof {
            assert(list.take(list.len() as int) =~= list);
            assert(by_shard(list, self@.progress, shards@));
        }
        S3SinkStatus {
            healthy: self.failed.is_none(),
            last_error: match &self.failed {
                Some(m) => Some(m.clone()),
                None => None,
            },
            shards,
        }
    }
}

/// Whether uploading a snapshot comes to this: one upload, of the image under its key, after which
/// the sink has noted the snapshot, or is as it was where the upload failed.
pub open spec fn snapshot_put(
    before: SinkModel,
    shard: ShardId,
    epoch: u64,
    lsn: Lsn,
    db: Seq<u8>,
    now_ms: u64,
    uploads: Seq<(Image, Result<(), S3Error>)>,
    after: SinkModel,
    r: Result<(), Error>,
) -> bool {
    &&& uploads.len() == 1
    &&& uploads[0].0.key@ == image_key(before.prefix, shard, epoch, lsn)
    &&& uploads[0].0.bytes@ == db
    &&& match uploads[0].1 {
        Ok(_) => r is Ok && after == before.snapshotted(shard, epoch, lsn, now_ms),
        Err(e) => after == before && error_of(r) == Some(
            ErrorModel::Protocol("s3: "@ + e.message()),
        ),
    }
}

/// Whether these are the values of some entries in ascending order, which make up a map.
pub open spec fn by_shard(
    entries: Seq<(u32, ShardArchive)>,
    progress: Map<u32, ShardArchive>,
    values: Seq<ShardArchive>,
) -> bool {
    crate::shard::map::ascending(entries) && progress == crate::shard::map::entry_map(entries)
        && values == entries.map_values(|e: (u32, ShardArchive)| e.1)
}

/// Whether these are the values of a map, in ascending order of its keys.
pub open spec fn listed(progress: Map<u32, ShardArchive>, values: Seq<ShardArchive>) -> bool {
    exists|entries: Seq<(u32, ShardArchive)>| #[trigger] by_shard(entries, progress, values)
}

// ---- uploads -----------------------------------------------------------------------------------

/// How often an upload is tried.
pub const ATTEMPTS: u64 = 3;

/// Whether trying an upload, from an attempt on, is these steps and comes to this. After a failure
/// it waits a little longer each time, and after the last one that failure is the result.
pub open spec fn retried(
    upload: Upload,
    steps: Seq<(Try, Result<(), S3Error>)>,
    attempt: nat,
    r: Result<(), S3Error>,
) -> bool
    decreases ATTEMPTS - attempt,
{
    attempt < ATTEMPTS && steps.len() >= 1 && (steps[0].0 matches Try::Put(sent) && *sent == upload)
        && match steps[0].1 {
        Ok(_) => steps.len() == 1 && r is Ok,
        Err(_) => if attempt + 1 == ATTEMPTS {
            steps.len() == 1 && r == steps[0].1
        } else {
            steps.len() >= 2 && steps[1].0 == Try::Pause((50 * (attempt + 1)) as u64) && retried(
                upload,
                steps.skip(2),
                attempt + 1,
                r,
            )
        },
    }
}

/// Tries an upload, and again after a while where it fails.
#[verifier::loop_isolation(false)]
pub fn put_with_retry<'a, F: Fn(Try<'a>) -> Result<(), S3Error>>(
    upload: &'a Upload,
    line: &mut Line<Try<'a>, Result<(), S3Error>, F>,
) -> (r: Result<(), S3Error>)
    requires
        forall|t: Try<'a>| #[trigger] call_requires(old(line).far(), (t,)),
    ensures
        final(line).far() == old(line).far(),
        goes_on(old(line).record(), final(line).record()),
        retried(*upload, since(old(line).record(), final(line).record()), 0, r),
{
    let ghost first = line.record();
    let ghost far = line.far();
    let ghost mut steps: Seq<(Try<'a>, Result<(), S3Error>)> = Seq::empty();
    let mut attempt: u64 = 0;
    proof {
        assert(first + steps =~= first);
        assert forall|more: Seq<(Try<'a>, Result<(), S3Error>)>, r: Result<(), S3Error>| #[trigger]
            retried(*upload, more, 0, r) implies retried(*upload, steps + more, 0, r) by {
            assert(steps + more =~= more);
        }
    }
    loop
        invariant
            attempt < ATTEMPTS,
            line.far() == far,
            line.record() == first + steps,
            forall|more: Seq<(Try<'a>, Result<(), S3Error>)>, r: Result<(), S3Error>| #[trigger]
                retried(*upload, more, attempt as nat, r) ==> retried(
                    *upload,
                    steps + more,
                    0,
                    r,
                ),
        decreases ATTEMPTS - attempt,
    {
        let ghost here = attempt as nat;
        let done = line.ask(Try::Put(upload));
        let ghost tried = seq![(Try::Put(upload), done)];
        assert(line.record() =~= first + (steps + tried));
        if done.is_ok() || attempt + 1 == ATTEMPTS {
            proof {
                assert(retried(*upload, tried, here, done));
                lemma_added(first, steps + tried);
            }
            return done;
        }
        let ms: u64 = 50 * (attempt + 1);
        let waited = line.ask(Try::Pause(ms));
        attempt = attempt + 1;
        proof {
            let both = tried.push((Try::Pause(ms), waited));
            assert(line.record() =~= first + (steps + both));
            assert forall|more: Seq<(Try<'a>, Result<(), S3Error>)>, r: Result<(), S3Error>|
                #[trigger]
                retried(*upload, more, attempt as nat, r) implies retried(
                *upload,
                (steps + both) + more,
                0,
                r,
            ) by {
                let all = both + more;
                assert(all.skip(2) =~= more);
                assert(all[0] == both[0]);
                assert(all[1] == both[1]);
                assert(retried(*upload, all, here, r));
                assert((steps + both) + more =~= steps + all);
            }
            steps = steps + both;
        }
    }
}

// ---- laws --------------------------------------------------------------------------------------

/// A sink that gave up on an upload takes no batch without saying so, ever after.
pub proof fn law_a_failed_sink_complains<E: Fn(&Vec<StreamTxn>) -> Result<Vec<u8>, Error>>(
    encode: E,
    before: SinkModel,
    shard: ShardId,
    epoch: u64,
    txns: &Vec<StreamTxn>,
    after: SinkModel,
    r: Accepted,
)
    requires
        before.failed is Some,
        txns@.len() > 0,
        accepted_as(encode, before, shard, epoch, txns, after, r),
    ensures
        r.result is Err,
        after.failed == before.failed,
{
}

} // verus!
