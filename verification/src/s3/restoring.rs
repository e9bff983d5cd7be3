//! What an archive gives back, in plain terms: which snapshot, which pages, and how requests for
//! them are written.

use vstd::arithmetic::div_mod::{lemma_fundamental_div_mod, lemma_mod_bound};
use vstd::prelude::*;
use vstd::utf8::encode_utf8;

use super::clock::{
    day_number, day_stamp, days_before_month, days_before_year, month_days, padded, stamps,
    time_stamp, year_days, Date,
};
use super::failover::{
    after_position, by_position, byte_over, collapsed, first_gap, gathered, goes_past, image,
    in_epoch, key_placed, keys_sorted,
    is_latest, key_position, laid_over, law_keys_read_back, law_keys_sort_by_position, overlay_built, placed,
    recovered, replay, span, written, Downloads, Lists, LogReads, OverlayModel, PageOverlay,
    Recovered,
};
use super::config::{S3Config, S3Error};
use super::files::{FileCall, FileCode};
use super::pager::{limit_chunks, place_from, CacheModel};
use super::request::{
    covered, list_query_of, page_keys, page_token, signed, signed_on, url_of, without_slashes,
    SignedRequest,
};
use super::sign::{
    authorization, canonical_request, header_lines, header_names, hmac_of, host_in, object_path,
    scope, sha256_of, string_to_sign, uri_byte, uri_text, uri_bytes, with_header,
};
use super::sink::{
    accepted_as, image_key, log_key, retried, snapshot_put, Accepted, Image, SinkModel, Try, Upload,
    ATTEMPTS,
};
use super::xml::{all_between, between_from, find_text, replaced, stands_at, unescaped};
use crate::error::{Error, ErrorModel};
use crate::lines::{split_at_first, trimmed};
use crate::net::auth::{hex, name_order};
use crate::query::order::{char_codes, lemma_lex_skip};
use crate::replication::stream::{stream_model, StreamTxn, StreamTxnModel};
use crate::shard::id::ShardId;
use crate::storage::doubles::Order;
use crate::text::decimal;
use crate::vfs::FrameModel;
use crate::wording::law_splitting;

verus! {

// ---- which snapshot ----------------------------------------------------------------------------

/// A shard is recovered from its newest snapshot: no snapshot of it is of a later epoch, nor of a
/// later position in the same epoch.
pub proof fn law_the_newest_snapshot_is_chosen(
    prefix: Seq<char>,
    shard: ShardId,
    snapshots: Seq<(u64, u64)>,
    keys: Seq<Seq<char>>,
    key: Seq<char>,
    i: int,
)
    requires
        keys.len() == snapshots.len(),
        forall|k: int|
            0 <= k < keys.len() ==> #[trigger] keys[k] == image_key(
                prefix,
                shard,
                snapshots[k].0,
                snapshots[k].1,
            ),
        is_latest(keys, key),
        0 <= i < snapshots.len(),
    ensures
        key_position(key) matches Some(at) && (snapshots[i].0 < at.0 || (snapshots[i].0 == at.0
            && snapshots[i].1 <= at.1)),
{
    let j = choose|j: int| 0 <= j < keys.len() && keys[j] == key;
    law_keys_read_back(prefix, shard, snapshots[j].0, snapshots[j].1);
    assert(name_order(keys[i], key) != Order::Greater);
    law_keys_sort_by_position(
        prefix,
        shard,
        "/snapshot/"@,
        snapshots[i].0,
        snapshots[i].1,
        snapshots[j].0,
        snapshots[j].1,
    );
}

/// What a recovery gives is of the newest snapshot: its bytes, with the overlay of the change-log on
/// them, and its epoch and position. Without a snapshot there is nothing to recover.
pub proof fn law_what_a_recovery_gives(
    lists: Lists,
    gets: Downloads,
    logs: LogReads,
    prefix: Seq<char>,
    shard: ShardId,
    r: Result<Option<Recovered>, Error>,
    x: Recovered,
)
    requires
        recovered(lists, gets, logs, prefix, shard, r),
        r == Ok::<Option<Recovered>, Error>(Some(x)),
    ensures
        lists.len() == 2,
        gets.len() == 1,
        lists[0].1 matches Ok(keys) && keys@.len() > 0 && is_latest(
            crate::text::views(keys@),
            gets[0].0@,
        ),
        key_position(gets[0].0@) == Some((x.1, x.2)),
        gets[0].1 matches Ok(db) && exists|o: Result<Option<PageOverlay>, Error>| #[trigger]
            laid_over(db@, x.1, x.2, o, r),
{
}

/// An overlay on a snapshot gives the snapshot's bytes with the overlay's pages over them; without
/// one the snapshot stays as it is.
pub proof fn law_overlays_go_on_top(
    db: Seq<u8>,
    epoch: u64,
    lsn: u64,
    o: PageOverlay,
    r: Result<Option<Recovered>, Error>,
)
    ensures
        laid_over(db, epoch, lsn, Ok(None), r) ==> (r matches Ok(Some(x)) && x.0@ == db && x.1 == epoch
            && x.2 == lsn && x.3 == 0),
        laid_over(db, epoch, lsn, Ok(Some(o)), r) && o@.sound() ==> (r matches Ok(Some(x)) && x.0@
            == image(db, o@) && x.1 == epoch && x.2 == lsn),
{
}

// ---- which transactions ------------------------------------------------------------------------

/// Of a change-log exactly what was committed after the snapshot is replayed.
pub proof fn law_what_is_replayed(txns: Seq<StreamTxnModel>, t: StreamTxnModel, lsn: u64)
    ensures
        after_position(Seq::<StreamTxnModel>::empty(), lsn).len() == 0,
        t.lsn > lsn ==> after_position(txns.push(t), lsn) == after_position(txns, lsn).push(t),
        t.lsn <= lsn ==> after_position(txns.push(t), lsn) == after_position(txns, lsn),
{
    assert(txns.push(t).drop_last() =~= txns);
}

/// Whether positions do not go down.
pub open spec fn ascends(txns: Seq<StreamTxnModel>) -> bool {
    forall|i: int, j: int|
        0 <= i < j < txns.len() ==> (#[trigger] txns[i]).lsn <= (#[trigger] txns[j]).lsn
}

proof fn lemma_placed(txns: Seq<StreamTxnModel>, t: StreamTxnModel)
    requires
        ascends(txns),
    ensures
        ascends(placed(txns, t)),
        placed(txns, t).to_multiset() =~= txns.to_multiset().insert(t),
        placed(txns, t).len() == txns.len() + 1,
        forall|i: int|
            0 <= i < placed(txns, t).len() ==> (#[trigger] placed(txns, t)[i]) == t
                || txns.contains(placed(txns, t)[i]),
    decreases txns.len(),
{
    broadcast use vstd::seq_lib::group_to_multiset_ensures;

    let out = placed(txns, t);
    if txns.len() == 0 || txns.last().lsn <= t.lsn {
        assert forall|i: int| 0 <= i < out.len() implies (#[trigger] out[i]) == t
            || txns.contains(out[i]) by {
            if i < txns.len() {
                assert(out[i] == txns[i]);
            }
        }
        assert forall|i: int, j: int| 0 <= i < j < out.len() implies (#[trigger] out[i]).lsn <= (
        #[trigger] out[j]).lsn by {
            assert(out[i] == txns[i]);
            if j < txns.len() {
                assert(out[j] == txns[j]);
            } else {
                assert(txns[txns.len() - 1].lsn <= t.lsn);
                if i < txns.len() - 1 {
                    assert(txns[i].lsn <= txns[txns.len() - 1].lsn);
                }
            }
        }
    } else {
        let rest = txns.drop_last();
        let last = txns.last();
        assert forall|i: int, j: int| 0 <= i < j < rest.len() implies (#[trigger] rest[i]).lsn <= (
        #[trigger] rest[j]).lsn by {
            assert(txns[i].lsn <= txns[j].lsn);
        }
        lemma_placed(rest, t);
        let head = placed(rest, t);
        assert(rest.push(last) =~= txns);
        assert forall|i: int| 0 <= i < out.len() implies (#[trigger] out[i]) == t
            || txns.contains(out[i]) by {
            if i < head.len() {
                assert(out[i] == head[i]);
                if head[i] != t {
                    let k = choose|k: int| 0 <= k < rest.len() && rest[k] == head[i];
                    assert(txns[k] == rest[k]);
                }
            } else {
                assert(txns[txns.len() - 1] == last);
            }
        }
        assert forall|i: int, j: int| 0 <= i < j < out.len() implies (#[trigger] out[i]).lsn <= (
        #[trigger] out[j]).lsn by {
            assert(out[i] == head[i]);
            if j < head.len() {
                assert(out[j] == head[j]);
            } else if head[i] != t {
                let k = choose|k: int| 0 <= k < rest.len() && rest[k] == head[i];
                assert(txns[k].lsn <= txns[txns.len() - 1].lsn);
            }
        }
    }
}

/// What is replayed is replayed by position: all of it, each transaction as often as it was found,
/// and none before one of an earlier position.
pub proof fn law_replayed_by_position(txns: Seq<StreamTxnModel>)
    ensures
        ascends(by_position(txns)),
        by_position(txns).to_multiset() == txns.to_multiset(),
        by_position(txns).len() == txns.len(),
    decreases txns.len(),
{
    broadcast use vstd::seq_lib::group_to_multiset_ensures;

    if txns.len() == 0 {
        assert(by_position(txns) =~= txns);
    } else {
        let rest = txns.drop_last();
        law_replayed_by_position(rest);
        lemma_placed(by_position(rest), txns.last());
        assert(rest.push(txns.last()) =~= txns);
        assert(by_position(txns).to_multiset() =~= txns.to_multiset());
    }
}

proof fn lemma_gap(txns: Seq<StreamTxnModel>, lsn: u64, from: int, i: int)
    requires
        0 <= from <= i < txns.len(),
        txns[i].lsn != lsn + 1 + i,
    ensures
        first_gap(txns, lsn, from) is Some,
    decreases i - from,
{
    if from < i && txns[from].lsn == lsn + 1 + from {
        lemma_gap(txns, lsn, from + 1, i);
    }
}

proof fn lemma_no_gap(txns: Seq<StreamTxnModel>, lsn: u64, from: int)
    requires
        0 <= from,
        forall|i: int| 0 <= i < txns.len() ==> (#[trigger] txns[i]).lsn == lsn + 1 + i,
    ensures
        first_gap(txns, lsn, from) is None,
    decreases txns.len() - from,
{
    if from < txns.len() {
        lemma_no_gap(txns, lsn, from + 1);
    }
}

/// A change-log with a hole in it is refused, and one without is replayed: its size is what the last
/// transaction says. Nothing to replay gives nothing to lay over.
pub proof fn law_when_a_log_is_replayed(
    shard: ShardId,
    lsn: u64,
    txns: Seq<StreamTxnModel>,
    i: int,
)
    ensures
        txns.len() == 0 ==> replay(shard, lsn, txns) matches Ok(None),
        0 <= i < txns.len() && by_position(txns)[i].lsn != lsn + 1 + i ==> replay(shard, lsn, txns)
            is Err,
        txns.len() > 0 && (forall|k: int|
            0 <= k < txns.len() ==> (#[trigger] by_position(txns)[k]).lsn == lsn + 1 + k) ==> (
        replay(shard, lsn, txns) matches Ok(Some(o)) && o.page_size == by_position(
            txns,
        ).last().txn.page_size && o.pages == collapsed(by_position(txns)) && (by_position(
            txns,
        ).last().txn.db_size_pages * by_position(txns).last().txn.page_size <= u64::MAX ==> o.db_size
            == by_position(txns).last().txn.db_size_pages * by_position(
            txns,
        ).last().txn.page_size)),
{
    let sorted = by_position(txns);
    law_replayed_by_position(txns);
    if 0 <= i < txns.len() && sorted[i].lsn != lsn + 1 + i {
        lemma_gap(sorted, lsn, 0, i);
    }
    if forall|k: int| 0 <= k < txns.len() ==> (#[trigger] sorted[k]).lsn == lsn + 1 + k {
        lemma_no_gap(sorted, lsn, 0);
    }
}

// ---- which pages -------------------------------------------------------------------------------

/// A page that some frames do not write stays as it was.
pub proof fn law_other_pages_stay(before: Map<u32, Seq<u8>>, frames: Seq<FrameModel>, page: u32)
    requires
        forall|k: int| 0 <= k < frames.len() ==> (#[trigger] frames[k]).page_no != page,
    ensures
        written(before, frames).dom().contains(page) <==> before.dom().contains(page),
        before.dom().contains(page) ==> written(before, frames)[page] == before[page],
    decreases frames.len(),
{
    if frames.len() > 0 {
        let rest = frames.drop_last();
        assert forall|k: int| 0 <= k < rest.len() implies (#[trigger] rest[k]).page_no != page by {
            assert(frames[k].page_no != page);
        }
        law_other_pages_stay(before, rest, page);
        assert(frames[frames.len() - 1].page_no != page);
    }
}

/// Transactions are written over each other in order.
pub proof fn law_later_transactions_cover_earlier(txns: Seq<StreamTxnModel>, t: StreamTxnModel)
    ensures
        collapsed(txns.push(t)) == written(collapsed(txns), t.txn.frames),
        collapsed(Seq::<StreamTxnModel>::empty()) == Map::<u32, Seq<u8>>::empty(),
{
    assert(txns.push(t).drop_last() =~= txns);
}

/// The bytes of a database under an overlay: page `n` of the overlay covers the bytes from
/// `(n - 1) * page_size` on, and where no page covers a byte it is that of the database, or zero
/// past its end. The database is as large as the overlay says.
pub proof fn law_pages_cover_their_place(db: Seq<u8>, o: OverlayModel, n: u32, k: int)
    requires
        o.page_size > 0,
        n > 0,
        0 <= k < o.page_size,
        (n - 1) * o.page_size + k < o.db_size,
    ensures
        image(db, o).len() == o.db_size,
        o.pages.dom().contains(n) && k < o.pages[n].len() ==> image(db, o)[(n - 1) * o.page_size + k]
            == o.pages[n][k],
        !o.pages.dom().contains(n) && (n - 1) * o.page_size + k < db.len() ==> image(db, o)[(n - 1)
            * o.page_size + k] == db[(n - 1) * o.page_size + k],
        !o.pages.dom().contains(n) && (n - 1) * o.page_size + k >= db.len() ==> image(db, o)[(n - 1)
            * o.page_size + k] == 0,
{
    let i = (n - 1) * o.page_size + k;
    vstd::arithmetic::div_mod::lemma_fundamental_div_mod_converse(
        i,
        o.page_size as int,
        (n - 1) as int,
        k,
    );
    assert(0 <= i) by (nonlinear_arith)
        requires
            i == (n - 1) * o.page_size + k,
            n > 0,
            k >= 0,
    ;
    assert(image(db, o)[i] == byte_over(db, o, i));
}

/// A read of a file gives the bytes from an offset on, as many as are asked for or as there are.
pub proof fn law_reads_give_what_is_there(bytes: Seq<u8>, offset: int, len: int, k: int)
    requires
        0 <= offset,
        0 <= len,
    ensures
        offset >= bytes.len() ==> span(bytes, offset, len).len() == 0,
        offset + len <= bytes.len() ==> span(bytes, offset, len).len() == len,
        offset <= bytes.len() < offset + len ==> span(bytes, offset, len).len() == bytes.len()
            - offset,
        0 <= k < span(bytes, offset, len).len() ==> span(bytes, offset, len)[k] == bytes[offset + k],
{
}

// ---- what is archived --------------------------------------------------------------------------

/// A batch is archived under the key of its epoch and first position, encoded as it was given, and
/// the shard counts as archived up to its last position; other shards stay as they were.
pub proof fn law_batches_are_archived<E: Fn(&Vec<StreamTxn>) -> Result<Vec<u8>, Error>>(
    encode: E,
    before: SinkModel,
    shard: ShardId,
    other: ShardId,
    epoch: u64,
    txns: &Vec<StreamTxn>,
    after: SinkModel,
    r: Accepted,
)
    requires
        accepted_as(encode, before, shard, epoch, txns, after, r),
    ensures
        r.upload matches Some(u) ==> txns@.len() > 0 && u.key@ == log_key(
            before.prefix,
            shard,
            epoch,
            txns@[0].lsn,
        ) && after.archive(shard).last_archived_lsn == txns@.last().lsn && after.archive(
            shard,
        ).last_snapshot_lsn == before.archive(shard).last_snapshot_lsn && after.archive(
            shard,
        ).last_snapshot_epoch == before.archive(shard).last_snapshot_epoch && call_ensures(
            encode,
            (txns,),
            Ok::<Vec<u8>, Error>(u.bytes),
        ),
        r.upload is None ==> after == before,
        other != shard ==> after.archive(other) == before.archive(other),
        txns@.len() > 0 && before.failed is Some ==> r.result is Err,
        txns@.len() > 0 && r.upload is Some && before.failed is None ==> r.result is Ok,
{
}

/// A snapshot that was uploaded is noted with its epoch, its position and its time; how far the
/// change-log is archived stays, and so do other shards.
pub proof fn law_snapshots_are_noted(
    s: SinkModel,
    shard: ShardId,
    other: ShardId,
    epoch: u64,
    lsn: u64,
    now_ms: u64,
)
    ensures
        ({
            let a = s.snapshotted(shard, epoch, lsn, now_ms).archive(shard);
            &&& a.shard == shard.0
            &&& a.last_snapshot_epoch == epoch
            &&& a.last_snapshot_lsn == lsn
            &&& a.last_snapshot_ms == now_ms
            &&& a.last_archived_lsn == s.archive(shard).last_archived_lsn
        }),
        other != shard ==> s.snapshotted(shard, epoch, lsn, now_ms).archive(other) == s.archive(
            other,
        ),
{
}

proof fn lemma_retried(
    upload: Upload,
    steps: Seq<(Try, Result<(), S3Error>)>,
    attempt: nat,
    r: Result<(), S3Error>,
    k: int,
)
    requires
        retried(upload, steps, attempt, r),
    ensures
        attempt < ATTEMPTS,
        1 <= steps.len() <= 2 * (ATTEMPTS - attempt) - 1,
        steps.len() % 2 == 1,
        0 <= k < steps.len() && k % 2 == 0 ==> (steps[k].0 matches Try::Put(sent) && *sent == upload),
        0 <= k < steps.len() && k % 2 == 1 ==> steps[k].0 == Try::Pause(
            (50 * (attempt + (k + 1) / 2)) as u64,
        ),
        0 <= k < steps.len() - 1 && k % 2 == 0 ==> steps[k].1 is Err,
        r is Ok <==> steps.last().1 is Ok,
        r is Err ==> r == steps.last().1 && steps.len() == 2 * (ATTEMPTS - attempt) - 1,
    decreases ATTEMPTS - attempt,
{
    if steps[0].1 is Err && attempt + 1 < ATTEMPTS {
        let rest = steps.skip(2);
        lemma_retried(upload, rest, attempt + 1, r, k - 2);
        if 2 <= k < steps.len() {
            assert(rest[k - 2] == steps[k]);
            assert((k - 2 + 1) / 2 + 1 == (k + 1) / 2);
        }
        assert(rest.last() == steps.last());
    }
}

/// An upload is sent as it is, at most three times: every failure but the last is waited out, by 50
/// milliseconds and then by 100. It succeeds where the last try does, and otherwise gives the error
/// of the last.
pub proof fn law_uploads_are_tried_again(
    upload: Upload,
    steps: Seq<(Try, Result<(), S3Error>)>,
    r: Result<(), S3Error>,
    k: int,
)
    requires
        retried(upload, steps, 0, r),
        0 <= k < steps.len(),
    ensures
        steps.len() == 1 || steps.len() == 3 || steps.len() == 5,
        k % 2 == 0 ==> (steps[k].0 matches Try::Put(sent) && *sent == upload),
        k == 1 ==> steps[k].0 == Try::Pause(50),
        k == 3 ==> steps[k].0 == Try::Pause(100),
        k % 2 == 0 && k < steps.len() - 1 ==> steps[k].1 is Err,
        r is Ok <==> steps.last().1 is Ok,
        r is Err ==> r == steps.last().1 && steps.len() == 5,
{
    lemma_retried(upload, steps, 0, r, k);
}

/// A snapshot is uploaded once, whole and under its key; it is noted where the upload succeeded, and
/// nothing is where it failed.
pub proof fn law_a_snapshot_is_uploaded_once(
    before: SinkModel,
    shard: ShardId,
    epoch: u64,
    lsn: u64,
    db: Seq<u8>,
    now_ms: u64,
    uploads: Seq<(Image, Result<(), S3Error>)>,
    after: SinkModel,
    r: Result<(), Error>,
)
    requires
        snapshot_put(before, shard, epoch, lsn, db, now_ms, uploads, after, r),
    ensures
        uploads.len() == 1,
        uploads[0].0.bytes@ == db,
        uploads[0].0.key@ == image_key(before.prefix, shard, epoch, lsn),
        r is Ok <==> uploads[0].1 is Ok,
        r is Ok ==> after.archive(shard).last_snapshot_lsn == lsn && after.archive(
            shard,
        ).last_snapshot_epoch == epoch,
        r is Err ==> after == before,
{
}

/// A cache has room for at least one chunk, and otherwise for as many as fit in its size.
pub proof fn law_room_in_the_cache(chunk: u64, cache_bytes: u64)
    requires
        chunk > 0,
    ensures
        limit_chunks(chunk, cache_bytes) >= 1,
        limit_chunks(chunk, cache_bytes) > 1 ==> limit_chunks(chunk, cache_bytes) * chunk
            <= cache_bytes,
        limit_chunks(chunk, cache_bytes) < usize::MAX ==> (limit_chunks(chunk, cache_bytes) + 1)
            * chunk > cache_bytes,
{
    let fits = cache_bytes / chunk;
    lemma_fundamental_div_mod(cache_bytes as int, chunk as int);
    lemma_mod_bound(cache_bytes as int, chunk as int);
    assert(fits * chunk <= cache_bytes < (fits + 1) * chunk) by (nonlinear_arith)
        requires
            cache_bytes == chunk * fits + cache_bytes as int % chunk as int,
            0 <= cache_bytes as int % (chunk as int) < chunk,
    ;
    let room = limit_chunks(chunk, cache_bytes);
    assert(room > 1 ==> room * chunk <= fits * chunk) by (nonlinear_arith)
        requires
            room > 1 ==> room <= fits,
            chunk > 0,
    ;
    assert(room < usize::MAX ==> (room + 1) * chunk >= (fits + 1) * chunk) by (nonlinear_arith)
        requires
            room < usize::MAX ==> room >= fits,
            chunk > 0,
    ;
}

/// A file in a bucket cannot be written or cut; everything else about it is answered without doing
/// anything, but for what only a shared log would need.
pub proof fn law_files_in_a_bucket_are_read_only(call: FileCall)
    ensures
        call.code() == FileCode::ReadOnly <==> call == FileCall::Write || call == FileCall::Truncate,
        call == FileCall::Sync || call == FileCall::Lock || call == FileCall::Unlock ==> call.code()
            == FileCode::Fine,
        call == FileCall::ShareMap || call == FileCall::ShareLock ==> call.code()
            == FileCode::Failed,
{
}

// ---- the cache ---------------------------------------------------------------------------------

proof fn lemma_place(entries: Seq<(u64, Seq<u8>)>, c: u64, i: int)
    requires
        0 <= i,
    ensures
        match place_from(entries, c, i) {
            Some(k) => i <= k < entries.len() && entries[k].0 == c,
            None => forall|k: int| i <= k < entries.len() ==> (#[trigger] entries[k]).0 != c,
        },
    decreases entries.len() - i,
{
    if i < entries.len() && entries[i].0 != c {
        lemma_place(entries, c, i + 1);
    }
}

/// A chunk that was fetched is the newest that is kept; when there is no more room the one that was
/// not used for longest goes. A chunk that is used again becomes the newest.
pub proof fn law_the_cache_keeps_the_recent(cache: CacheModel, c: u64, bytes: Seq<u8>)
    requires
        cache.wf(),
        cache.lookup(c) is None,
    ensures
        cache.with(c, bytes).entries.last() == (c, bytes),
        cache.entries.len() < cache.max_chunks ==> cache.with(c, bytes).entries
            == cache.entries.push((c, bytes)),
        cache.entries.len() == cache.max_chunks ==> cache.with(c, bytes).entries
            == cache.entries.drop_first().push((c, bytes)),
{
    lemma_place(cache.entries, c, 0);
    let all = cache.entries.push((c, bytes));
    if cache.entries.len() == cache.max_chunks {
        assert(all.skip(1) =~= cache.entries.drop_first().push((c, bytes)));
    }
}

/// Using a chunk keeps every chunk, and makes it the newest.
pub proof fn law_using_a_chunk_makes_it_newest(cache: CacheModel, c: u64)
    requires
        cache.wf(),
        cache.lookup(c) is Some,
    ensures
        cache.used(c).entries.len() == cache.entries.len(),
        cache.used(c).entries.last().0 == c,
        cache.used(c).entries.last().1 == cache.lookup(c)->0,
{
    lemma_place(cache.entries, c, 0);
}

// ---- requests ----------------------------------------------------------------------------------

/// Letters, digits and `-`, `.`, `_`, `~` stay as they are in a URI; a slash stays in a path; every
/// other byte is a percent sign and two capital hexadecimal digits.
pub proof fn law_uri_bytes(b: u8, s: Seq<u8>, keep_slash: bool)
    ensures
        ({
            let c = b as char;
            let plain = ('A' <= c <= 'Z') || ('a' <= c <= 'z') || ('0' <= c <= '9') || c == '-' || c
                == '.' || c == '_' || c == '~';
            &&& plain ==> uri_byte(b, keep_slash) == seq![c]
            &&& c == '/' ==> uri_byte(b, true) == seq!['/']
            &&& c == '/' ==> uri_byte(b, false) == seq!['%', '2', 'F']
            &&& !plain && c != '/' ==> uri_byte(b, keep_slash).len() == 3 && uri_byte(
                b,
                keep_slash,
            )[0] == '%'
            &&& c == ' ' ==> uri_byte(b, keep_slash) == seq!['%', '2', '0']
            &&& c == '&' ==> uri_byte(b, keep_slash) == seq!['%', '2', '6']
        }),
        uri_bytes(s.push(b), keep_slash) == uri_bytes(s, keep_slash) + uri_byte(b, keep_slash),
        uri_bytes(Seq::<u8>::empty(), keep_slash).len() == 0,
{
    assert(s.push(b).drop_last() =~= s);
}

/// What is signed of a request, and how the signature is made: the text of the request and its
/// headers, its hash in a scope, under the key of the day.
pub proof fn law_how_requests_are_signed(
    access_key: Seq<char>,
    secret_key: Seq<char>,
    region: Seq<char>,
    service: Seq<char>,
    method: Seq<char>,
    uri: Seq<char>,
    query: Seq<char>,
    headers: Seq<(Seq<char>, Seq<char>)>,
    payload_hash: Seq<char>,
    amzdate: Seq<char>,
    datestamp: Seq<char>,
)
    ensures
        ({
            let request = method + seq!['\n'] + uri + seq!['\n'] + query + seq!['\n']
                + header_lines(headers) + seq!['\n'] + header_names(headers) + seq!['\n']
                + payload_hash;
            let place = datestamp + seq!['/'] + region + seq!['/'] + service + "/aws4_request"@;
            let text = "AWS4-HMAC-SHA256\n"@ + amzdate + seq!['\n'] + place + seq!['\n'] + hex(
                sha256_of(encode_utf8(request)),
            );
            let day = hmac_of(encode_utf8("AWS4"@ + secret_key), encode_utf8(datestamp));
            let key = hmac_of(
                hmac_of(hmac_of(day, encode_utf8(region)), encode_utf8(service)),
                encode_utf8("aws4_request"@),
            );
            &&& canonical_request(method, uri, query, headers, payload_hash) == request
            &&& scope(datestamp, region, service) == place
            &&& string_to_sign(amzdate, place, sha256_of(encode_utf8(request))) == text
            &&& authorization(
                access_key,
                secret_key,
                region,
                service,
                method,
                uri,
                query,
                headers,
                payload_hash,
                amzdate,
                datestamp,
            ) == "AWS4-HMAC-SHA256 Credential="@ + access_key + seq!['/'] + place
                + ", SignedHeaders="@ + header_names(headers) + ", Signature="@ + hex(
                hmac_of(key, encode_utf8(text)),
            )
        }),
{
}

/// Headers are signed one by one, each with its name, a colon and its value without surrounding
/// space on a line; their names are listed with semicolons between them.
pub proof fn law_signed_headers(
    all: Seq<(Seq<char>, Seq<char>)>,
    name: Seq<char>,
    value: Seq<char>,
)
    ensures
        header_lines(all.push((name, value))) == header_lines(all) + name + seq![':'] + trimmed(value)
            + seq!['\n'],
        all.len() > 0 ==> header_names(all.push((name, value))) == header_names(all) + seq![';']
            + name,
        header_names(seq![(name, value)]) == name,
{
    assert(all.push((name, value)).drop_last() =~= all);
}

/// A header that is set is among the headers with its value, in the order of the names, and takes
/// the place of one of the same name.
pub proof fn law_headers_are_set(
    all: Seq<(Seq<char>, Seq<char>)>,
    name: Seq<char>,
    value: Seq<char>,
)
    ensures
        with_header(all, name, value).contains((name, value)),
    decreases all.len(),
{
    let out = with_header(all, name, value);
    if all.len() == 0 {
        assert(out[0] == (name, value));
    } else {
        match name_order(all[0].0, name) {
            Order::Less => {
                law_headers_are_set(all.drop_first(), name, value);
                let rest = with_header(all.drop_first(), name, value);
                let i = choose|i: int| 0 <= i < rest.len() && rest[i] == (name, value);
                assert(out[i + 1] == (name, value));
            },
            _ => {
                assert(out[0] == (name, value));
            },
        }
    }
}

/// The address of a request: the endpoint without its closing slashes, the path, and the query where
/// there is one.
pub proof fn law_request_addresses(endpoint: Seq<char>, path: Seq<char>, query: Seq<char>)
    requires
        endpoint.len() > 0 && endpoint.last() != '/',
    ensures
        url_of(endpoint, path, Seq::empty()) == endpoint + path,
        query.len() > 0 ==> url_of(endpoint, path, query) == endpoint + path + seq!['?'] + query,
        without_slashes(endpoint.push('/')) == endpoint,
{
    assert(endpoint.push('/').drop_last() =~= endpoint);
}

/// An object is addressed by its bucket and its key, both encoded; the slashes of the key stay.
pub proof fn law_where_objects_are(bucket: Seq<char>, key: Seq<char>)
    ensures
        key.len() > 0 ==> object_path(bucket, key) == seq!['/'] + uri_text(bucket, false) + seq!['/']
            + uri_text(key, true),
        object_path(bucket, Seq::empty()) == seq!['/'] + uri_text(bucket, false),
{
}

proof fn lemma_no_scheme(host: Seq<char>, path: Seq<char>, k: int)
    requires
        forall|k: int| 0 <= k < host.len() ==> (#[trigger] host[k]) != '/',
        forall|k: int| 0 <= k < path.len() ==> (#[trigger] path[k]) != ':',
        host.len() > 0 ==> host.last() != ':',
        0 <= k,
    ensures
        !stands_at(host + path, k, "://"@),
{
    reveal_strlit("://");
    let rest = host + path;
    if stands_at(rest, k, "://"@) {
        let cut = rest.subrange(k, k + 3);
        assert(cut[0] == rest[k] && cut[1] == rest[k + 1]);
        assert(cut[0] == ':' && cut[1] == '/');
        if k + 1 < host.len() {
            assert(host[k + 1] == '/');
        } else if k < host.len() {
            assert(host.last() == ':');
        } else {
            assert(path[k - host.len()] == ':');
        }
    }
}

proof fn lemma_scheme(scheme: Seq<char>, rest: Seq<char>)
    requires
        forall|k: int| 0 <= k < scheme.len() ==> (#[trigger] scheme[k]) != ':',
    ensures
        find_text(scheme + "://"@ + rest, "://"@, 0) == Some(scheme.len() as int),
        (scheme + "://"@ + rest).subrange(
            (scheme.len() + 3) as int,
            (scheme + "://"@ + rest).len() as int,
        ) == rest,
{
    reveal_strlit("://");
    let whole = scheme + "://"@ + rest;
    let at = scheme.len() as int;
    assert(whole.subrange(at, at + 3) =~= "://"@);
    assert(stands_at(whole, at, "://"@));
    assert forall|k: int| 0 <= k < at implies !(#[trigger] stands_at(whole, k, "://"@)) by {
        if stands_at(whole, k, "://"@) {
            assert(whole.subrange(k, k + 3)[0] == whole[k]);
            assert(whole[k] == scheme[k]);
        }
    }
    law_the_first_place_is_found(whole, "://"@, 0);
    assert(whole.subrange(at + 3, whole.len() as int) =~= rest);
}

proof fn lemma_before_the_path(host: Seq<char>, path: Seq<char>)
    requires
        forall|k: int| 0 <= k < host.len() ==> (#[trigger] host[k]) != '/',
        path.len() > 0 ==> path[0] == '/',
    ensures
        path.len() > 0 ==> (split_at_first(host + path, '/') matches Some((a, _)) && a == host),
        path.len() == 0 ==> split_at_first(host + path, '/') is None && host + path == host,
{
    let rest = host + path;
    law_splitting(rest, '/');
    if path.len() == 0 {
        assert(rest =~= host);
        if let Some((a, b)) = split_at_first(rest, '/') {
            assert(host[a.len() as int] == '/');
        }
    } else {
        assert(rest[host.len() as int] == '/');
        let (a, b) = split_at_first(rest, '/')->0;
        assert(rest[a.len() as int] == '/');
        if a.len() < host.len() {
            assert(host[a.len() as int] == '/');
        } else if a.len() > host.len() {
            assert(a[host.len() as int] == rest[host.len() as int]);
        }
        assert(a =~= host);
    }
}

/// The host of an endpoint is what stands between the scheme and the path.
pub proof fn law_hosts(scheme: Seq<char>, host: Seq<char>, path: Seq<char>)
    requires
        forall|k: int| 0 <= k < scheme.len() ==> (#[trigger] scheme[k]) != ':',
        forall|k: int| 0 <= k < host.len() ==> (#[trigger] host[k]) != '/',
        path.len() > 0 ==> path[0] == '/',
        forall|k: int| 0 <= k < path.len() ==> (#[trigger] path[k]) != ':',
        host.len() > 0 ==> host.last() != ':',
    ensures
        host_in(scheme + "://"@ + (host + path)) == host,
        host_in(host + path) == host,
{
    law_the_first_place_is_found(host + path, "://"@, 0);
    if let Some(j) = find_text(host + path, "://"@, 0) {
        lemma_no_scheme(host, path, j);
    }
    reveal_strlit("://");
    lemma_scheme(scheme, host + path);
    lemma_before_the_path(host, path);
}

/// Every request is signed over the host, the hash of its body and its time, in this order.
pub proof fn law_what_signatures_cover(host: Seq<char>, hash: Seq<char>, time: Seq<char>)
    ensures
        covered(host, hash, time) == seq![
            ("host"@, host),
            ("x-amz-content-sha256"@, hash),
            ("x-amz-date"@, time),
        ],
{
    reveal_strlit("host");
    reveal_strlit("x-amz-content-sha256");
    reveal_strlit("x-amz-date");
    let h = char_codes("host"@);
    let c = char_codes("x-amz-content-sha256"@);
    let d = char_codes("x-amz-date"@);
    assert(h[0] == 104 && c[0] == 120 && d[0] == 120);
    assert(name_order("host"@, "x-amz-content-sha256"@) == Order::Less);
    assert(name_order("host"@, "x-amz-date"@) == Order::Less);
    assert(c[0] == d[0] && c[1] == d[1] && c[2] == d[2] && c[3] == d[3] && c[4] == d[4] && c[5]
        == d[5]);
    lemma_lex_skip(c, d, 6);
    assert(c.skip(6)[0] == 99 && d.skip(6)[0] == 100);
    assert(name_order("x-amz-content-sha256"@, "x-amz-date"@) == Order::Less);
    reveal_with_fuel(with_header, 3);
    let one = with_header(Seq::empty(), "host"@, host);
    let two = with_header(one, "x-amz-content-sha256"@, hash);
    assert(one.drop_first() =~= Seq::<(Seq<char>, Seq<char>)>::empty());
    assert(two =~= seq![("host"@, host), ("x-amz-content-sha256"@, hash)]);
    let tail = two.drop_first();
    assert(tail =~= seq![("x-amz-content-sha256"@, hash)]);
    assert(tail.drop_first() =~= Seq::<(Seq<char>, Seq<char>)>::empty());
    assert(with_header(tail, "x-amz-date"@, time) =~= seq![
        ("x-amz-content-sha256"@, hash),
        ("x-amz-date"@, time),
    ]);
}

/// A request goes to the address of its object, carries the hash of its body and the time it was made
/// at, and is signed with the keys of the configuration, over the object, the query, the host, the
/// hash and the time.
pub proof fn law_requests_are_signed(
    cfg: S3Config,
    method: Seq<char>,
    key: Seq<char>,
    query: Seq<char>,
    body: Seq<u8>,
    secs: nat,
    r: SignedRequest,
)
    requires
        signed(cfg, method, key, query, body, secs, r),
    ensures
        r.method@ == method,
        r.url@ == url_of(cfg.endpoint@, object_path(cfg.bucket@, key), query),
        r.payload_hash@ == hex(sha256_of(body)),
        exists|day: Seq<char>|
            #![trigger stamps(secs, r.amzdate@, day)]
            stamps(secs, r.amzdate@, day) && r.authorization@ == authorization(
                cfg.access_key@,
                cfg.secret_key@,
                cfg.region@,
                "s3"@,
                method,
                object_path(cfg.bucket@, key),
                query,
                seq![
                    ("host"@, host_in(cfg.endpoint@)),
                    ("x-amz-content-sha256"@, hex(sha256_of(body))),
                    ("x-amz-date"@, r.amzdate@),
                ],
                hex(sha256_of(body)),
                r.amzdate@,
                day,
            ),
{
    law_what_signatures_cover(host_in(cfg.endpoint@), r.payload_hash@, r.amzdate@);
    let day = choose|day: Seq<char>| #[trigger] signed_on(day, cfg, method, key, query, body, secs, r);
    assert(stamps(secs, r.amzdate@, day));
}

// ---- dates -------------------------------------------------------------------------------------

/// The calendar: months have the days they have, a year the sum of them, and a day is one after the
/// day before.
pub proof fn law_the_calendar(y: nat, m: nat, d: nat)
    ensures
        month_days(y, 1) == 31 && month_days(y, 3) == 31 && month_days(y, 5) == 31 && month_days(y, 7)
            == 31 && month_days(y, 8) == 31 && month_days(y, 10) == 31 && month_days(y, 12) == 31,
        month_days(y, 4) == 30 && month_days(y, 6) == 30 && month_days(y, 9) == 30 && month_days(
            y,
            11,
        ) == 30,
        y % 4 == 0 && y % 100 != 0 ==> month_days(y, 2) == 29 && year_days(y) == 366,
        y % 400 == 0 ==> month_days(y, 2) == 29 && year_days(y) == 366,
        y % 4 != 0 || (y % 100 == 0 && y % 400 != 0) ==> month_days(y, 2) == 28 && year_days(y)
            == 365,
        day_number(1970, 1, 1) == 0,
        day_number(y, m, d + 1) == day_number(y, m, d) + 1,
        1 <= m ==> day_number(y, m + 1, 1) == day_number(y, m, 1) + month_days(y, m),
        day_number(y + 1, 1, 1) == day_number(y, 1, 1) + year_days(y),
{
    reveal_with_fuel(days_before_month, 2);
    assert(days_before_year(y + 1) == days_before_year(y) + year_days(y));
}

/// A number that is padded to a width is as long as that, ends in its own digits, and has zeros
/// before them.
pub proof fn law_padding(n: nat, width: nat, i: int)
    ensures
        decimal(n).len() <= width ==> padded(n, width).len() == width,
        decimal(n).len() >= width ==> padded(n, width) == decimal(n),
        decimal(n).len() <= width && 0 <= i < width - decimal(n).len() ==> padded(n, width)[i] == '0',
        decimal(n).len() <= width && width - decimal(n).len() <= i < width ==> padded(n, width)[i]
            == decimal(n)[i - (width - decimal(n).len())],
{
}

/// A moment is stamped with the year, the month, the day, the hour, the minute and the second, in
/// that order, of the day that it falls on.
pub proof fn law_stamps(secs: nat, full: Seq<char>, day: Seq<char>)
    requires
        stamps(secs, full, day),
    ensures
        exists|date: Date| #[trigger]
            date.of_day(secs / 86_400) && day == padded(date.year as nat, 4) + padded(
                date.month as nat,
                2,
            ) + padded(date.day as nat, 2) && full == day + seq!['T'] + padded(
                (secs % 86_400) / 3600,
                2,
            ) + padded(((secs % 86_400) % 3600) / 60, 2) + padded((secs % 86_400) % 60, 2) + seq![
                'Z',
            ],
{
    let date = choose|date: Date| #[trigger]
        date.of_day(secs / 86_400) && day == day_stamp(date) && full == day_stamp(date) + seq!['T']
            + time_stamp(secs % 86_400) + seq!['Z'];
    let rest = secs % 86_400;
    assert(full =~= day + seq!['T'] + padded(rest / 3600, 2) + padded((rest % 3600) / 60, 2)
        + padded(rest % 60, 2) + seq!['Z']);
    assert(date.of_day(secs / 86_400));
}

// ---- listings ----------------------------------------------------------------------------------

/// A text is found at the first place where it stands.
pub proof fn law_the_first_place_is_found(s: Seq<char>, word: Seq<char>, i: int)
    requires
        0 <= i,
    ensures
        find_text(s, word, i) matches Some(j) ==> i <= j && stands_at(s, j, word) && forall|k: int|
            i <= k < j ==> !(#[trigger] stands_at(s, k, word)),
        find_text(s, word, i) is None ==> forall|k: int| i <= k ==> !(#[trigger] stands_at(s, k, word)),
    decreases s.len() + 1 - i,
{
    if i + word.len() <= s.len() && !stands_at(s, i, word) {
        law_the_first_place_is_found(s, word, i + 1);
    }
}

/// What stands between two tags is what is after the first opening one and before the first closing
/// one behind it; the search goes on behind that.
pub proof fn law_between_tags(s: Seq<char>, open: Seq<char>, close: Seq<char>, i: int)
    requires
        0 <= i,
    ensures
        between_from(s, open, close, i) matches Some((inner, next)) ==> exists|at: int, end: int|
            #![trigger stands_at(s, at, open), stands_at(s, end, close)]
            i <= at && stands_at(s, at, open) && at + open.len() <= end && stands_at(s, end, close)
                && inner == s.subrange(at + open.len(), end) && next == end + close.len(),
        between_from(s, open, close, i) matches Some((inner, next)) ==> (i < next <= s.len()
            ==> all_between(s, open, close, i) == seq![inner] + all_between(s, open, close, next)),
        between_from(s, open, close, i) is None ==> all_between(s, open, close, i).len() == 0,
{
    law_the_first_place_is_found(s, open, i);
    if let Some(at) = find_text(s, open, i) {
        law_the_first_place_is_found(s, close, at + open.len());
        if let Some(end) = find_text(s, close, at + open.len()) {
            assert(stands_at(s, at, open) && stands_at(s, end, close));
        }
    }
}

/// The keys of a page are what stands between its key tags, and a listing goes on from what stands
/// between its continuation tags, where there is any.
pub proof fn law_pages_of_a_listing(xml: Seq<char>, i: int)
    ensures
        page_keys(xml).len() == all_between(xml, "<Key>"@, "</Key>"@, 0).len(),
        0 <= i < page_keys(xml).len() ==> page_keys(xml)[i] == unescaped(
            all_between(xml, "<Key>"@, "</Key>"@, 0)[i],
        ),
        page_token(xml) is Some <==> between_from(
            xml,
            "<NextContinuationToken>"@,
            "</NextContinuationToken>"@,
            0,
        ) is Some,
{
}

/// A listing asks for the second version of listings, under its prefix, from where the last page
/// stopped.
pub proof fn law_listing_queries(prefix: Seq<char>, token: Seq<char>)
    requires
        prefix.len() > 0,
    ensures
        list_query_of(prefix, None) == uri_text("list-type"@, false) + seq!['='] + uri_text(
            "2"@,
            false,
        ) + seq!['&'] + (uri_text("prefix"@, false) + seq!['='] + uri_text(prefix, false)),
        list_query_of(prefix, Some(token)) == (uri_text("continuation-token"@, false) + seq!['=']
            + uri_text(token, false)) + seq!['&'] + (uri_text("list-type"@, false) + seq!['=']
            + uri_text("2"@, false)) + seq!['&'] + (uri_text("prefix"@, false) + seq!['=']
            + uri_text(prefix, false)),
{
}

/// A change-log that goes on in a later epoch than the snapshot is not replayed, and not read.
pub proof fn law_later_epochs_are_refused(
    logs: LogReads,
    keys: Seq<Seq<char>>,
    shard: ShardId,
    epoch: u64,
    lsn: u64,
    r: Result<Option<PageOverlay>, Error>,
    i: int,
)
    requires
        overlay_built(logs, keys, shard, epoch, lsn, r),
        0 <= i < keys.len(),
        key_position(keys[i]) matches Some(at) && at.0 > epoch,
    ensures
        r is Err,
        logs.len() == 0,
{
}

proof fn lemma_logs_read(
    logs: LogReads,
    keys: Seq<Seq<char>>,
    epoch: u64,
    lsn: u64,
    i: int,
    so_far: Seq<StreamTxnModel>,
    r: Result<Seq<StreamTxnModel>, Error>,
    k: int,
    j: int,
)
    requires
        gathered(logs, keys, epoch, lsn, i, so_far, r),
        0 <= i,
    ensures
        0 <= k < logs.len() ==> keys.contains(logs[k].0@) && (key_position(logs[k].0@) matches Some(at)
            && at.0 == epoch),
        r is Ok && i <= j < keys.len() && (key_position(keys[j]) matches Some(at) && at.0 == epoch)
            ==> exists|n: int| 0 <= n < logs.len() && (#[trigger] logs[n]).0@ == keys[j],
        0 <= k < logs.len() && r is Ok ==> logs[k].1 is Ok,
    decreases keys.len() - i,
{
    if i < keys.len() {
        if !in_epoch(keys[i], epoch) {
            lemma_logs_read(logs, keys, epoch, lsn, i + 1, so_far, r, k, j);
        } else {
            assert(keys.contains(keys[i]));
            assert(logs[0].0@ == keys[i]);
            if let Ok(txns) = logs[0].1 {
                let rest = logs.skip(1);
                let more = so_far + after_position(stream_model(txns@), lsn);
                lemma_logs_read(rest, keys, epoch, lsn, i + 1, more, r, k - 1, j);
                if 1 <= k < logs.len() {
                    assert(rest[k - 1] == logs[k]);
                }
                if r is Ok && i < j < keys.len() && in_epoch(keys[j], epoch) {
                    let n = choose|n: int| 0 <= n < rest.len() && (#[trigger] rest[n]).0@ == keys[j];
                    assert(logs[n + 1] == rest[n]);
                }
            }
        }
    }
}

/// Of a change-log exactly the objects of the snapshot's epoch are read; where one of them cannot be
/// read nothing is replayed.
pub proof fn law_the_logs_of_the_epoch_are_read(
    logs: LogReads,
    keys: Seq<Seq<char>>,
    epoch: u64,
    lsn: u64,
    r: Result<Seq<StreamTxnModel>, Error>,
    k: int,
    j: int,
)
    requires
        gathered(logs, keys, epoch, lsn, 0, Seq::empty(), r),
    ensures
        0 <= k < logs.len() ==> keys.contains(logs[k].0@) && (key_position(logs[k].0@) matches Some(at)
            && at.0 == epoch),
        r is Ok && 0 <= j < keys.len() && (key_position(keys[j]) matches Some(at) && at.0 == epoch)
            ==> exists|n: int| 0 <= n < logs.len() && (#[trigger] logs[n]).0@ == keys[j],
        0 <= k < logs.len() && logs[k].1 is Err ==> r is Err,
{
    lemma_logs_read(logs, keys, epoch, lsn, 0, Seq::empty(), r, k, j);
}

/// Where the snapshots cannot be listed, or the newest cannot be downloaded, nothing is recovered and
/// nothing more is read.
pub proof fn law_nothing_is_recovered_from_a_broken_bucket(
    lists: Lists,
    gets: Downloads,
    logs: LogReads,
    prefix: Seq<char>,
    shard: ShardId,
    r: Result<Option<Recovered>, Error>,
)
    requires
        recovered(lists, gets, logs, prefix, shard, r),
    ensures
        lists[0].1 is Err ==> r is Err && gets.len() == 0 && logs.len() == 0 && lists.len() == 1,
        lists[0].1 is Ok && gets.len() > 0 && gets[0].1 is Err ==> r is Err && logs.len() == 0,
        lists[0].1 matches Ok(keys) ==> (keys@.len() == 0 ==> r is Err && gets.len() == 0),
{
}

/// What is laid over a snapshot is the replay of what was read of its change-log, and an error where
/// that could not be read.
pub proof fn law_the_change_log_is_replayed(
    logs: LogReads,
    keys: Seq<Seq<char>>,
    shard: ShardId,
    epoch: u64,
    lsn: u64,
    r: Result<Option<PageOverlay>, Error>,
)
    requires
        overlay_built(logs, keys, shard, epoch, lsn, r),
        !goes_past(keys, epoch),
    ensures
        exists|found: Result<Seq<StreamTxnModel>, Error>| #[trigger]
            gathered(logs, keys_sorted(keys), epoch, lsn, 0, Seq::empty(), found) && (found
                matches Ok(txns) ==> match r {
                Ok(Some(o)) => replay(shard, lsn, txns) == Ok::<Option<OverlayModel>, ErrorModel>(
                    Some(o@),
                ),
                Ok(None) => replay(shard, lsn, txns) == Ok::<Option<OverlayModel>, ErrorModel>(None),
                Err(e) => replay(shard, lsn, txns) == Err::<Option<OverlayModel>, ErrorModel>(e@),
            }) && (found is Err ==> r is Err),
{
}

proof fn lemma_key_placed(keys: Seq<Seq<char>>, key: Seq<char>, x: Seq<char>)
    ensures
        key_placed(keys, key).len() == keys.len() + 1,
        key_placed(keys, key).contains(x) <==> keys.contains(x) || x == key,
    decreases keys.len(),
{
    let out = key_placed(keys, key);
    if keys.len() == 0 || name_order(keys.last(), key) != Order::Greater {
        assert(out[keys.len() as int] == key);
        if keys.contains(x) {
            let k = choose|k: int| 0 <= k < keys.len() && keys[k] == x;
            assert(out[k] == x);
        }
        if out.contains(x) && x != key {
            let k = choose|k: int| 0 <= k < out.len() && out[k] == x;
            assert(keys[k] == x);
        }
    } else {
        let before = keys.drop_last();
        let inner = key_placed(before, key);
        lemma_key_placed(before, key, x);
        assert(out[inner.len() as int] == keys.last());
        if keys.contains(x) || x == key {
            if x != keys.last() && x != key {
                let k = choose|k: int| 0 <= k < keys.len() && keys[k] == x;
                assert(before[k] == x);
            }
            if inner.contains(x) {
                let k = choose|k: int| 0 <= k < inner.len() && inner[k] == x;
                assert(out[k] == x);
            }
        }
        if out.contains(x) {
            let k = choose|k: int| 0 <= k < out.len() && out[k] == x;
            if k < inner.len() {
                assert(inner[k] == x);
                if before.contains(x) {
                    let n = choose|n: int| 0 <= n < before.len() && before[n] == x;
                    assert(keys[n] == x);
                }
            } else {
                assert(keys[keys.len() - 1] == x);
            }
        }
    }
}

/// No object of a change-log is lost or made up by putting them in order.
pub proof fn law_every_log_is_kept(keys: Seq<Seq<char>>, x: Seq<char>)
    ensures
        keys_sorted(keys).len() == keys.len(),
        keys_sorted(keys).contains(x) <==> keys.contains(x),
    decreases keys.len(),
{
    if keys.len() > 0 {
        let before = keys.drop_last();
        law_every_log_is_kept(before, x);
        lemma_key_placed(keys_sorted(before), keys.last(), x);
        assert(keys[keys.len() - 1] == keys.last());
        if keys.contains(x) && x != keys.last() {
            let k = choose|k: int| 0 <= k < keys.len() && keys[k] == x;
            assert(before[k] == x);
        }
        if before.contains(x) {
            let k = choose|k: int| 0 <= k < before.len() && before[k] == x;
            assert(keys[k] == x);
        }
    }
}

// ---- entities ----------------------------------------------------------------------------------

/// Whether a text holds nothing of an entity.
pub open spec fn plain_text(s: Seq<char>) -> bool {
    forall|k: int| 0 <= k < s.len() ==> (#[trigger] s[k]) != '&' && s[k] != ';'
}

/// Whether a text is an entity: it begins with `&`, and nothing else in it does; it ends in `;`.
pub open spec fn is_entity(w: Seq<char>) -> bool {
    w.len() > 2 && w[0] == '&' && w.last() == ';' && forall|k: int|
        1 <= k < w.len() ==> (#[trigger] w[k]) != '&'
}

proof fn lemma_unreplaced(s: Seq<char>, word: Seq<char>, by: Seq<char>, i: int)
    requires
        0 <= i <= s.len(),
        forall|k: int| i <= k ==> !(#[trigger] stands_at(s, k, word)),
    ensures
        replaced(s, word, by, i) == s.skip(i),
    decreases s.len() - i,
{
    if i < s.len() {
        lemma_unreplaced(s, word, by, i + 1);
        assert(!stands_at(s, i, word));
        assert(s.skip(i) =~= seq![s[i]] + s.skip(i + 1));
    } else {
        assert(s.skip(i) =~= Seq::<char>::empty());
    }
}

proof fn lemma_no_word(s: Seq<char>, word: Seq<char>, by: Seq<char>)
    requires
        word.len() > 0,
        word[0] == '&',
        forall|k: int| 0 <= k < s.len() ==> (#[trigger] s[k]) != '&',
    ensures
        replaced(s, word, by, 0) == s,
{
    assert forall|k: int| 0 <= k implies !(#[trigger] stands_at(s, k, word)) by {
        if stands_at(s, k, word) {
            assert(s.subrange(k, k + word.len())[0] == s[k]);
        }
    }
    lemma_unreplaced(s, word, by, 0);
    assert(s.skip(0) =~= s);
}

proof fn lemma_other_word(
    a: Seq<char>,
    w: Seq<char>,
    b: Seq<char>,
    word: Seq<char>,
    by: Seq<char>,
    d: int,
)
    requires
        plain_text(a),
        plain_text(b),
        is_entity(w),
        is_entity(word),
        0 < d < w.len(),
        d < word.len(),
        w[d] != word[d],
    ensures
        replaced(a + w + b, word, by, 0) == a + w + b,
{
    let s = a + w + b;
    assert forall|k: int| 0 <= k implies !(#[trigger] stands_at(s, k, word)) by {
        if stands_at(s, k, word) {
            let cut = s.subrange(k, k + word.len());
            assert(cut[0] == s[k] && cut[d] == s[k + d]);
            if k < a.len() {
                assert(s[k] == a[k]);
            } else if k >= a.len() + w.len() {
                assert(s[k] == b[k - a.len() - w.len()]);
            } else {
                assert(s[k] == w[k - a.len()]);
                assert(s[k + d] == w[d]);
            }
        }
    }
    lemma_unreplaced(s, word, by, 0);
    assert(s.skip(0) =~= s);
}

proof fn lemma_up_to_the_word(a: Seq<char>, w: Seq<char>, b: Seq<char>, by: Seq<char>, i: int)
    requires
        plain_text(a),
        plain_text(b),
        is_entity(w),
        0 <= i <= a.len(),
    ensures
        replaced(a + w + b, w, by, i) == a.skip(i) + by + b,
    decreases a.len() - i,
{
    let s = a + w + b;
    let at = a.len() as int;
    if i < at {
        assert(s[i] == a[i]);
        if stands_at(s, i, w) {
            assert(s.subrange(i, i + w.len())[0] == s[i]);
        }
        lemma_up_to_the_word(a, w, b, by, i + 1);
        assert(a.skip(i) + by + b =~= seq![s[i]] + (a.skip(i + 1) + by + b));
    } else {
        assert(s.subrange(at, at + w.len()) =~= w);
        assert(stands_at(s, at, w));
        let behind = at + w.len();
        assert forall|k: int| behind <= k implies !(#[trigger] stands_at(s, k, w)) by {
            if stands_at(s, k, w) {
                assert(s.subrange(k, k + w.len())[0] == s[k]);
                assert(s[k] == b[k - behind]);
            }
        }
        lemma_unreplaced(s, w, by, behind);
        assert(s.skip(behind) =~= b);
        assert(a.skip(i) + by + b =~= by + b);
    }
}

proof fn lemma_word(a: Seq<char>, w: Seq<char>, b: Seq<char>, by: Seq<char>)
    requires
        plain_text(a),
        plain_text(b),
        is_entity(w),
    ensures
        replaced(a + w + b, w, by, 0) == a + by + b,
{
    lemma_up_to_the_word(a, w, b, by, 0);
    assert(a.skip(0) =~= a);
}

proof fn lemma_ended_word(a: Seq<char>, b: Seq<char>, word: Seq<char>, by: Seq<char>)
    requires
        plain_text(a),
        plain_text(b),
        is_entity(word),
    ensures
        replaced(a + "&"@ + b, word, by, 0) == a + "&"@ + b,
{
    reveal_strlit("&");
    let s = a + "&"@ + b;
    assert("&"@.len() == 1 && "&"@[0] == '&');
    assert forall|k: int| 0 <= k implies !(#[trigger] stands_at(s, k, word)) by {
        if stands_at(s, k, word) {
            let n = word.len() as int;
            assert(s.subrange(k, k + n)[n - 1] == s[k + n - 1]);
            assert(s[k + n - 1] == ';');
            if k + n - 1 < a.len() {
                assert(a[k + n - 1] == ';');
            } else if k + n - 1 > a.len() {
                assert(b[k + n - 1 - a.len() - 1] == ';');
            }
        }
    }
    lemma_unreplaced(s, word, by, 0);
    assert(s.skip(0) =~= s);
}

proof fn lemma_entities()
    ensures
        is_entity("&amp;"@) && is_entity("&lt;"@) && is_entity("&gt;"@) && is_entity("&quot;"@)
            && is_entity("&apos;"@),
        "&lt;"@[1] == 'l' && "&gt;"@[1] == 'g' && "&quot;"@[1] == 'q' && "&amp;"@[1] == 'a'
            && "&apos;"@[1] == 'a',
        "&amp;"@[2] == 'm' && "&apos;"@[2] == 'p',
        "<"@ == seq!['<'] && ">"@ == seq!['>'] && "\""@ == seq!['"'] && "'"@ == seq!['\''],
{
    reveal_strlit("&amp;");
    reveal_strlit("&lt;");
    reveal_strlit("&gt;");
    reveal_strlit("&quot;");
    reveal_strlit("&apos;");
    reveal_strlit("&");
    reveal_strlit("<");
    reveal_strlit(">");
    reveal_strlit("\"");
    reveal_strlit("'");
    assert("<"@ =~= seq!['<'] && ">"@ =~= seq!['>'] && "\""@ =~= seq!['"'] && "'"@ =~= seq!['\'']);
}

proof fn lemma_entity_amp(a: Seq<char>, b: Seq<char>)
    requires
        plain_text(a),
        plain_text(b),
    ensures
        unescaped(a + "&amp;"@ + b) == a + "&"@ + b,
{
    lemma_entities();
    lemma_word(a, "&amp;"@, b, "&"@);
    lemma_ended_word(a, b, "&lt;"@, "<"@);
    lemma_ended_word(a, b, "&gt;"@, ">"@);
    lemma_ended_word(a, b, "&quot;"@, "\""@);
    lemma_ended_word(a, b, "&apos;"@, "'"@);
}

proof fn lemma_entity_lt(a: Seq<char>, b: Seq<char>)
    requires
        plain_text(a),
        plain_text(b),
    ensures
        unescaped(a + "&lt;"@ + b) == a + "<"@ + b,
{
    lemma_entities();
    lemma_other_word(a, "&lt;"@, b, "&amp;"@, "&"@, 1);
    lemma_word(a, "&lt;"@, b, "<"@);
    let t = a + "<"@ + b;
    lemma_no_word(t, "&gt;"@, ">"@);
    lemma_no_word(t, "&quot;"@, "\""@);
    lemma_no_word(t, "&apos;"@, "'"@);
}

proof fn lemma_entity_gt(a: Seq<char>, b: Seq<char>)
    requires
        plain_text(a),
        plain_text(b),
    ensures
        unescaped(a + "&gt;"@ + b) == a + ">"@ + b,
{
    lemma_entities();
    lemma_other_word(a, "&gt;"@, b, "&amp;"@, "&"@, 1);
    lemma_other_word(a, "&gt;"@, b, "&lt;"@, "<"@, 1);
    lemma_word(a, "&gt;"@, b, ">"@);
    let t = a + ">"@ + b;
    lemma_no_word(t, "&quot;"@, "\""@);
    lemma_no_word(t, "&apos;"@, "'"@);
}

proof fn lemma_entity_quot(a: Seq<char>, b: Seq<char>)
    requires
        plain_text(a),
        plain_text(b),
    ensures
        unescaped(a + "&quot;"@ + b) == a + "\""@ + b,
{
    lemma_entities();
    lemma_other_word(a, "&quot;"@, b, "&amp;"@, "&"@, 1);
    lemma_other_word(a, "&quot;"@, b, "&lt;"@, "<"@, 1);
    lemma_other_word(a, "&quot;"@, b, "&gt;"@, ">"@, 1);
    lemma_word(a, "&quot;"@, b, "\""@);
    let t = a + "\""@ + b;
    lemma_no_word(t, "&apos;"@, "'"@);
}

proof fn lemma_entity_apos(a: Seq<char>, b: Seq<char>)
    requires
        plain_text(a),
        plain_text(b),
    ensures
        unescaped(a + "&apos;"@ + b) == a + "'"@ + b,
{
    lemma_entities();
    lemma_other_word(a, "&apos;"@, b, "&amp;"@, "&"@, 2);
    lemma_other_word(a, "&apos;"@, b, "&lt;"@, "<"@, 1);
    lemma_other_word(a, "&apos;"@, b, "&gt;"@, ">"@, 1);
    lemma_other_word(a, "&apos;"@, b, "&quot;"@, "\""@, 1);
    lemma_word(a, "&apos;"@, b, "'"@);
}

/// The text of an element is read with its entities as the characters that they stand for; a text
/// without one is read as it is.
pub proof fn law_entities(a: Seq<char>, b: Seq<char>)
    requires
        plain_text(a),
        plain_text(b),
    ensures
        unescaped(a) == a,
        unescaped(a + "&amp;"@ + b) == a + "&"@ + b,
        unescaped(a + "&lt;"@ + b) == a + "<"@ + b,
        unescaped(a + "&gt;"@ + b) == a + ">"@ + b,
        unescaped(a + "&quot;"@ + b) == a + "\""@ + b,
        unescaped(a + "&apos;"@ + b) == a + "'"@ + b,
{
    lemma_entities();
    lemma_no_word(a, "&amp;"@, "&"@);
    lemma_no_word(a, "&lt;"@, "<"@);
    lemma_no_word(a, "&gt;"@, ">"@);
    lemma_no_word(a, "&quot;"@, "\""@);
    lemma_no_word(a, "&apos;"@, "'"@);
    lemma_entity_amp(a, b);
    lemma_entity_lt(a, b);
    lemma_entity_gt(a, b);
    lemma_entity_quot(a, b);
    lemma_entity_apos(a, b);
}

/// A recovery looks for the snapshots of the shard first, and then for its change-log.
pub proof fn law_where_a_recovery_looks(
    lists: Lists,
    gets: Downloads,
    logs: LogReads,
    prefix: Seq<char>,
    shard: ShardId,
    r: Result<Option<Recovered>, Error>,
)
    requires
        recovered(lists, gets, logs, prefix, shard, r),
    ensures
        1 <= lists.len() <= 2,
        lists[0].0@ == prefix + "/shard_"@ + decimal(shard.0 as nat) + "/snapshot/"@,
        lists.len() == 2 ==> lists[1].0@ == prefix + "/shard_"@ + decimal(shard.0 as nat) + "/wal/"@,
{
    if let Ok(keys) = lists[0].1 {
        let rest = lists.skip(1);
        if rest.len() > 0 {
            assert(rest[0] == lists[1]);
        }
    }
}

/// A change-log of this epoch and earlier ones goes past none of it.
pub proof fn law_earlier_epochs_go_past_nothing(keys: Seq<Seq<char>>, epoch: u64)
    ensures
        goes_past(keys, epoch) <==> exists|i: int|
            0 <= i < keys.len() && (key_position(#[trigger] keys[i]) is Some && (key_position(
                keys[i],
            )->0).0 > epoch),
{
}

/// An overlay can be laid over a snapshot where its pages have numbers from 1 on and are no longer
/// than a page.
pub proof fn law_sound_overlays(o: OverlayModel, n: u32)
    requires
        o.sound(),
    ensures
        o.pages.dom().contains(n) ==> n > 0 && o.pages[n].len() <= o.page_size,
        o.db_size > 0 ==> o.page_size > 0,
{
}

} // verus!
