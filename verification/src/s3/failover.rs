//! Recovering a shard from its archive.
//!
//! A shard is recovered from its newest snapshot, with everything replayed on top that was
//! committed after it, so it is current as of the last archived transaction. An archive with a gap,
//! or one that goes on in a later epoch than the snapshot, cannot be replayed faithfully, and is
//! refused.

use vstd::prelude::*;

use super::clock::{padded, zeros};
use super::config::S3Error;
use super::sink::{image_key, log_key, object_key, to_err};
use crate::calls::{goes_on, lemma_added, lemma_goes_on, lemma_nothing_added, since, Line};
use crate::error::{Error, ErrorModel};
use crate::lines::{find_from, lemma_split_pair, split_at_first, split_once};
use crate::net::auth::name_order;
use crate::query::order::{char_codes, lex_order, order_texts};
use crate::replication::stream::{stream_model, StreamTxn, StreamTxnModel};
use crate::shard::id::ShardId;
use crate::shard::map::ShardMap;
use crate::storage::doubles::{int_order, Order};
use crate::storage::exec::copy_bytes;
use crate::text::{
    all_digits, decimal, digits_value, is_digit, lemma_decimal_reads_back, parse_u64, push_decimal,
    push_decimal_wide, unsigned_text, views,
};
use crate::vfs::FrameModel;

verus! {

// ---- keys --------------------------------------------------------------------------------------

/// Where the objects of a kind of a shard are.
pub open spec fn kind_prefix(prefix: Seq<char>, shard: ShardId, kind: Seq<char>) -> Seq<char> {
    prefix + "/shard_"@ + decimal(shard.0 as nat) + kind
}

/// Where the snapshots of a shard are.
pub fn snapshot_prefix(prefix: &str, shard: ShardId) -> (r: String)
    ensures
        r@ == kind_prefix(prefix@, shard, "/snapshot/"@),
{
    let mut out = prefix.to_owned();
    out.append("/shard_");
    push_decimal(&mut out, shard.0 as u64);
    out.append("/snapshot/");
    out
}

/// Where the change-log of a shard is.
pub fn wal_prefix(prefix: &str, shard: ShardId) -> (r: String)
    ensures
        r@ == kind_prefix(prefix@, shard, "/wal/"@),
{
    let mut out = prefix.to_owned();
    out.append("/shard_");
    push_decimal(&mut out, shard.0 as u64);
    out.append("/wal/");
    out
}

/// What follows the last slash of a key.
pub open spec fn last_part(s: Seq<char>) -> Seq<char>
    decreases s.len(),
{
    match split_at_first(s, '/') {
        None => s,
        Some((_, rest)) => if rest.len() < s.len() {
            last_part(rest)
        } else {
            s
        },
    }
}

pub open spec fn number(s: Seq<char>) -> Option<u64> {
    match unsigned_text(s) {
        Some(n) => if n <= u64::MAX {
            Some(n as u64)
        } else {
            None
        },
        None => None,
    }
}

/// The epoch and position that a key ends with.
pub open spec fn key_position(key: Seq<char>) -> Option<(u64, u64)> {
    match split_at_first(last_part(key), '_') {
        None => None,
        Some((e, l)) => match (number(e), number(l)) {
            (Some(epoch), Some(lsn)) => Some((epoch, lsn)),
            _ => None,
        },
    }
}

/// Reads the epoch and position that a key ends with.
pub fn parse_epoch_lsn(key: &str) -> (r: Option<(u64, u64)>)
    ensures
        r == key_position(key@),
{
    let mut name = key.to_owned();
    loop
        invariant
            last_part(key@) == last_part(name@),
        decreases name@.len(),
    {
        match split_once(name.as_str(), '/') {
            Some((_, rest)) => {
                assert(rest@.len() < name@.len());
                name = rest;
            },
            None => {
                assert(last_part(name@) == name@);
                return match split_once(name.as_str(), '_') {
                    None => None,
                    Some((e, l)) => match (parse_u64(e.as_str()), parse_u64(l.as_str())) {
                        (Some(epoch), Some(lsn)) => Some((epoch, lsn)),
                        _ => None,
                    },
                };
            },
        }
    }
}

/// Whether a key is the last one in dictionary order.
pub open spec fn is_latest(keys: Seq<Seq<char>>, key: Seq<char>) -> bool {
    keys.contains(key) && forall|i: int|
        0 <= i < keys.len() ==> name_order(#[trigger] keys[i], key) != Order::Greater
}

/// The newest of some snapshots: the last key in dictionary order, since keys sort by epoch and
/// position.
pub fn latest_snapshot(keys: &Vec<String>) -> (r: Option<String>)
    ensures
        match r {
            Some(k) => is_latest(views(keys@), k@),
            None => keys@.len() == 0,
        },
{
    if keys.len() == 0 {
        return None;
    }
    let ghost model = views(keys@);
    let mut best: usize = 0;
    let mut i: usize = 1;
    proof {
        lemma_order_same(model[0]);
        assert(model[0] == keys@[0]@);
    }
    while i < keys.len()
        invariant
            1 <= i <= keys@.len(),
            best < i,
            model == views(keys@),
            forall|k: int|
                0 <= k < i ==> name_order(#[trigger] model[k], model[best as int])
                    != Order::Greater,
        decreases keys@.len() - i,
    {
        let ghost was = best;
        proof {
            assert(model[i as int] == keys@[i as int]@);
            assert(model[best as int] == keys@[best as int]@);
        }
        match order_texts(keys[i].as_str(), keys[best].as_str()) {
            Order::Greater => {
                best = i;
            },
            _ => {},
        }
        proof {
            if best != was {
                assert forall|k: int| 0 <= k <= i implies name_order(
                    #[trigger] model[k],
                    model[best as int],
                ) != Order::Greater by {
                    if k < i {
                        lemma_order_chain(model[k], model[was as int], model[i as int]);
                    } else {
                        lemma_order_same(model[i as int]);
                    }
                }
            }
        }
        i = i + 1;
    }
    assert(model[best as int] == keys@[best as int]@);
    assert(model.contains(model[best as int]));
    Some(keys[best].clone())
}

proof fn lemma_order_same(a: Seq<char>)
    ensures
        name_order(a, a) == Order::Equal,
{
    crate::query::laws::lemma_lex_flips(char_codes(a), char_codes(a));
}

proof fn lemma_order_chain(a: Seq<char>, b: Seq<char>, c: Seq<char>)
    requires
        name_order(a, b) != Order::Greater,
        name_order(c, b) == Order::Greater,
    ensures
        name_order(a, c) != Order::Greater,
{
    crate::query::laws::lemma_lex_flips(char_codes(c), char_codes(b));
    crate::query::laws::lemma_lex_transitive(char_codes(a), char_codes(b), char_codes(c));
}

pub open spec fn no_snapshot(shard: ShardId) -> ErrorModel {
    ErrorModel::Protocol("no S3 snapshot archived for shard "@ + decimal(shard.0 as nat))
}

pub open spec fn unreadable_key(key: Seq<char>) -> ErrorModel {
    ErrorModel::Protocol("unparseable snapshot key: "@ + key)
}

/// Picks the snapshot to recover a shard from: its key, and the epoch and position it is of.
pub fn choose_snapshot(keys: &Vec<String>, shard: ShardId) -> (r: Result<(String, u64, u64), Error>)
    ensures
        match r {
            Ok((key, epoch, lsn)) => is_latest(views(keys@), key@) && key_position(key@) == Some(
                (epoch, lsn),
            ),
            Err(e) => if keys@.len() == 0 {
                e@ == no_snapshot(shard)
            } else {
                exists|key: Seq<char>| #[trigger]
                    is_latest(views(keys@), key) && key_position(key) is None && e@
                        == unreadable_key(key)
            },
        },
{
    let key = match latest_snapshot(keys) {
        Some(key) => key,
        None => {
            let mut m = "no S3 snapshot archived for shard ".to_owned();
            push_decimal(&mut m, shard.0 as u64);
            return Err(Error::Protocol(m));
        },
    };
    match parse_epoch_lsn(key.as_str()) {
        Some((epoch, lsn)) => Ok((key, epoch, lsn)),
        None => {
            let mut m = "unparseable snapshot key: ".to_owned();
            m.append(key.as_str());
            assert(is_latest(views(keys@), key@));
            Err(Error::Protocol(m))
        },
    }
}

// ---- the change-log ----------------------------------------------------------------------------

/// Whether the change-log of a shard goes on past an epoch.
pub open spec fn goes_past(keys: Seq<Seq<char>>, epoch: u64) -> bool {
    exists|i: int|
        0 <= i < keys.len() && (key_position(#[trigger] keys[i]) matches Some(p) && p.0 > epoch)
}

pub open spec fn in_epoch(key: Seq<char>, epoch: u64) -> bool {
    key_position(key) matches Some(p) && p.0 == epoch
}

pub open spec fn past_epoch(shard: ShardId, epoch: u64) -> ErrorModel {
    ErrorModel::Protocol(
        "shard "@ + decimal(shard.0 as nat) + " change-log continues past the snapshot's epoch "@
            + decimal(epoch as nat)
            + "; the archive spans a WAL reset and needs a fresh snapshot"@,
    )
}

pub open spec fn log_gap(shard: ShardId, expected: nat, found: u64) -> ErrorModel {
    ErrorModel::Protocol(
        "shard "@ + decimal(shard.0 as nat) + " change-log has a gap: expected lsn "@ + decimal(
            expected,
        ) + ", found "@ + decimal(found as nat),
    )
}

/// Checks that the change-log of a shard ends in the epoch of its snapshot.
pub fn check_epoch(keys: &Vec<String>, shard: ShardId, epoch: u64) -> (r: Result<(), Error>)
    ensures
        if goes_past(views(keys@), epoch) {
            r matches Err(e) && e@ == past_epoch(shard, epoch)
        } else {
            r is Ok
        },
{
    let ghost model = views(keys@);
    let mut i: usize = 0;
    while i < keys.len()
        invariant
            i <= keys@.len(),
            model == views(keys@),
            forall|k: int|
                0 <= k < i ==> !(key_position(#[trigger] model[k]) matches Some(p) && p.0 > epoch),
        decreases keys@.len() - i,
    {
        assert(model[i as int] == keys@[i as int]@);
        if let Some((e, _)) = parse_epoch_lsn(keys[i].as_str()) {
            if e > epoch {
                let mut m = "shard ".to_owned();
                push_decimal(&mut m, shard.0 as u64);
                m.append(" change-log continues past the snapshot's epoch ");
                push_decimal(&mut m, epoch);
                m.append("; the archive spans a WAL reset and needs a fresh snapshot");
                assert(goes_past(model, epoch));
                return Err(Error::Protocol(m));
            }
        }
        i = i + 1;
    }
    Ok(())
}

/// The transactions after a position.
pub open spec fn after_position(txns: Seq<StreamTxnModel>, lsn: u64) -> Seq<StreamTxnModel>
    decreases txns.len(),
{
    if txns.len() == 0 {
        Seq::empty()
    } else {
        let before = after_position(txns.drop_last(), lsn);
        if txns.last().lsn > lsn {
            before.push(txns.last())
        } else {
            before
        }
    }
}

/// The transactions by position, those at one position in the order they were.
pub open spec fn placed(txns: Seq<StreamTxnModel>, t: StreamTxnModel) -> Seq<StreamTxnModel>
    decreases txns.len(),
{
    if txns.len() == 0 || txns.last().lsn <= t.lsn {
        txns.push(t)
    } else {
        placed(txns.drop_last(), t).push(txns.last())
    }
}

pub open spec fn by_position(txns: Seq<StreamTxnModel>) -> Seq<StreamTxnModel>
    decreases txns.len(),
{
    if txns.len() == 0 {
        Seq::empty()
    } else {
        placed(by_position(txns.drop_last()), txns.last())
    }
}

fn place(txns: &mut Vec<StreamTxn>, t: StreamTxn)
    ensures
        stream_model(final(txns)@) == placed(stream_model(old(txns)@), t@),
{
    let ghost before = stream_model(txns@);
    let ghost model = t@;
    let mut at: usize = txns.len();
    assert(before.take(at as int) =~= before);
    assert(before.skip(at as int) =~= Seq::empty());
    assert(placed(before, model) =~= placed(before.take(at as int), model) + before.skip(at as int));
    while at > 0 && txns[at - 1].lsn > t.lsn
        invariant
            at <= txns@.len(),
            before == stream_model(txns@),
            model == t@,
            placed(before, model) == placed(before.take(at as int), model) + before.skip(at as int),
        decreases at,
    {
        proof {
            let here = before.take(at as int);
            assert(here.last() == txns@[at - 1]@);
            assert(here.drop_last() =~= before.take(at - 1));
            assert(before.skip(at - 1) =~= seq![here.last()] + before.skip(at as int));
            assert(placed(here, model) + before.skip(at as int) =~= placed(
                before.take(at - 1),
                model,
            ) + before.skip(at - 1));
        }
        at = at - 1;
    }
    proof {
        let here = before.take(at as int);
        if at > 0 {
            assert(here.last() == txns@[at - 1]@);
        }
        assert(placed(here, model) == here.push(model));
    }
    txns.insert(at, t);
    assert(stream_model(txns@) =~= before.take(at as int).push(model) + before.skip(at as int));
}

/// The first transaction that does not follow on from a position, from a place on.
pub open spec fn first_gap(txns: Seq<StreamTxnModel>, lsn: u64, i: int) -> Option<int>
    decreases txns.len() - i,
{
    if i < 0 || i >= txns.len() {
        None
    } else if txns[i].lsn != lsn + 1 + i {
        Some(i)
    } else {
        first_gap(txns, lsn, i + 1)
    }
}

// ---- the overlay -------------------------------------------------------------------------------

/// What was committed after a snapshot, collapsed to the pages as they are in the end.
#[derive(Debug)]
pub struct PageOverlay {
    /// The contents of a page, by its number.
    pub pages: ShardMap<Vec<u8>>,
    pub page_size: u32,
    /// The bytes of the database in the end.
    pub db_size: u64,
}

/// What a [`PageOverlay`] holds.
pub ghost struct OverlayModel {
    pub pages: Map<u32, Seq<u8>>,
    pub page_size: u32,
    pub db_size: u64,
}

pub open spec fn pages_model(m: Map<u32, Vec<u8>>) -> Map<u32, Seq<u8>> {
    m.map_values(|v: Vec<u8>| v@)
}

impl View for PageOverlay {
    type V = OverlayModel;

    open spec fn view(&self) -> OverlayModel {
        OverlayModel {
            pages: pages_model(self.pages@),
            page_size: self.page_size,
            db_size: self.db_size,
        }
    }
}

/// Pages with some frames written over them, in order.
pub open spec fn written(pages: Map<u32, Seq<u8>>, frames: Seq<FrameModel>) -> Map<u32, Seq<u8>>
    decreases frames.len(),
{
    if frames.len() == 0 {
        pages
    } else {
        written(pages, frames.drop_last()).insert(frames.last().page_no, frames.last().data)
    }
}

/// The pages as some transactions leave them: of two that write a page the later counts.
pub open spec fn collapsed(txns: Seq<StreamTxnModel>) -> Map<u32, Seq<u8>>
    decreases txns.len(),
{
    if txns.len() == 0 {
        Map::empty()
    } else {
        written(collapsed(txns.drop_last()), txns.last().txn.frames)
    }
}

/// The overlay of some transactions; the last one says how large the database is in the end.
pub open spec fn overlay_of(txns: Seq<StreamTxnModel>) -> OverlayModel {
    OverlayModel {
        pages: collapsed(txns),
        page_size: txns.last().txn.page_size,
        db_size: (txns.last().txn.db_size_pages * txns.last().txn.page_size) as u64,
    }
}

/// What replaying the transactions after a snapshot comes to.
pub open spec fn replay(shard: ShardId, lsn: u64, txns: Seq<StreamTxnModel>) -> Result<
    Option<OverlayModel>,
    ErrorModel,
> {
    let sorted = by_position(txns);
    if txns.len() == 0 {
        Ok(None)
    } else {
        match first_gap(sorted, lsn, 0) {
            Some(i) => Err(log_gap(shard, (lsn + 1 + i) as nat, sorted[i].lsn)),
            None => Ok(Some(overlay_of(sorted))),
        }
    }
}

pub open spec fn overlay_view(r: Result<Option<PageOverlay>, Error>) -> Result<
    Option<OverlayModel>,
    ErrorModel,
> {
    match r {
        Ok(Some(o)) => Ok(Some(o@)),
        Ok(None) => Ok(None),
        Err(e) => Err(e@),
    }
}

proof fn lemma_placed_len(txns: Seq<StreamTxnModel>, t: StreamTxnModel)
    ensures
        placed(txns, t).len() == txns.len() + 1,
    decreases txns.len(),
{
    if !(txns.len() == 0 || txns.last().lsn <= t.lsn) {
        lemma_placed_len(txns.drop_last(), t);
    }
}

proof fn lemma_sorted_len(txns: Seq<StreamTxnModel>)
    ensures
        by_position(txns).len() == txns.len(),
    decreases txns.len(),
{
    if txns.len() > 0 {
        lemma_sorted_len(txns.drop_last());
        lemma_placed_len(by_position(txns.drop_last()), txns.last());
    }
}

/// Sorts the transactions after a snapshot by position and collapses them, where they follow on
/// from it without a gap: a hole is a lost transaction.
pub fn replay_log(shard: ShardId, lsn: u64, txns: Vec<StreamTxn>) -> (r: Result<
    Option<PageOverlay>,
    Error,
>)
    ensures
        overlay_view(r) == replay(shard, lsn, stream_model(txns@)),
        r matches Ok(Some(o)) ==> o.pages.wf(),
{
    let ghost model = stream_model(txns@);
    assert(model.len() == txns@.len());
    if txns.len() == 0 {
        return Ok(None);
    }
    let mut sorted: Vec<StreamTxn> = Vec::new();
    let mut i: usize = 0;
    assert(model.take(0) =~= Seq::empty());
    assert(stream_model(sorted@) =~= by_position(model.take(0)));
    while i < txns.len()
        invariant
            i <= txns@.len(),
            model == stream_model(txns@),
            stream_model(sorted@) == by_position(model.take(i as int)),
        decreases txns@.len() - i,
    {
        proof {
            let next = model.take(i as int + 1);
            assert(next.drop_last() =~= model.take(i as int));
            assert(next.last() == txns@[i as int]@);
        }
        place(&mut sorted, txns[i].copy());
        i = i + 1;
    }
    let ghost all = by_position(model);
    proof {
        assert(model.take(txns@.len() as int) =~= model);
        lemma_sorted_len(model);
        assert(all.len() == sorted@.len());
    }
    let mut k: usize = 0;
    while k < sorted.len()
        invariant
            k <= sorted@.len(),
            all == stream_model(sorted@),
            first_gap(all, lsn, 0) == first_gap(all, lsn, k as int),
            model.len() > 0,
            all == by_position(model),
            model == stream_model(txns@),
        decreases sorted@.len() - k,
    {
        assert(all[k as int] == sorted@[k as int]@);
        let found: u64 = sorted[k].lsn;
        let expected: u128 = lsn as u128 + 1 + k as u128;
        if found as u128 != expected {
            let mut m = "shard ".to_owned();
            push_decimal(&mut m, shard.0 as u64);
            m.append(" change-log has a gap: expected lsn ");
            push_decimal_wide(&mut m, expected);
            m.append(", found ");
            push_decimal(&mut m, found);
            return Err(Error::Protocol(m));
        }
        k = k + 1;
    }
    let last: usize = sorted.len() - 1;
    assert(all.last() == sorted@[last as int]@);
    let page_size: u32 = sorted[last].txn.page_size;
    let size_pages: u32 = sorted[last].txn.db_size_pages;
    assert(size_pages as int * page_size as int <= 4_294_967_295 * 4_294_967_295)
        by (nonlinear_arith)
        requires
            size_pages <= 4_294_967_295,
            page_size <= 4_294_967_295,
    ;
    let db_size: u64 = size_pages as u64 * page_size as u64;
    let pages = collapse(&sorted);
    Ok(Some(PageOverlay { pages, page_size, db_size }))
}

fn collapse(txns: &Vec<StreamTxn>) -> (r: ShardMap<Vec<u8>>)
    ensures
        r.wf(),
        pages_model(r@) == collapsed(stream_model(txns@)),
{
    let ghost model = stream_model(txns@);
    let mut pages: ShardMap<Vec<u8>> = ShardMap::new();
    let mut i: usize = 0;
    assert(model.take(0) =~= Seq::empty());
    assert(pages_model(pages@) =~= collapsed(model.take(0)));
    while i < txns.len()
        invariant
            i <= txns@.len(),
            model == stream_model(txns@),
            pages.wf(),
            pages_model(pages@) == collapsed(model.take(i as int)),
        decreases txns@.len() - i,
    {
        let ghost before = pages_model(pages@);
        let t = &txns[i].txn;
        let ghost frames = t@.frames;
        assert(frames.len() == t.frames@.len());
        let mut k: usize = 0;
        assert(frames.take(0) =~= Seq::empty());
        while k < t.frames.len()
            invariant
                k <= t.frames@.len(),
                frames == t@.frames,
                frames.len() == t.frames@.len(),
                pages.wf(),
                pages_model(pages@) == written(before, frames.take(k as int)),
            decreases t.frames@.len() - k,
        {
            let ghost held = pages@;
            let copy = copy_bytes(&t.frames[k].data);
            let ghost page = copy;
            pages.insert(t.frames[k].page_no, copy);
            proof {
                let next = frames.take(k as int + 1);
                assert(next.drop_last() =~= frames.take(k as int));
                assert(next.last() == t.frames@[k as int]@);
                assert(pages_model(pages@) =~= pages_model(held).insert(
                    t.frames@[k as int].page_no,
                    page@,
                ));
            }
            k = k + 1;
        }
        proof {
            assert(frames.take(t.frames@.len() as int) =~= frames);
            let next = model.take(i as int + 1);
            assert(next.drop_last() =~= model.take(i as int));
            assert(next.last() == txns@[i as int]@);
        }
        i = i + 1;
    }
    assert(model.take(txns@.len() as int) =~= model);
    pages
}

// ---- gathering ---------------------------------------------------------------------------------

/// A key put where it belongs among some in dictionary order, after those equal to it.
pub open spec fn key_placed(keys: Seq<Seq<char>>, key: Seq<char>) -> Seq<Seq<char>>
    decreases keys.len(),
{
    if keys.len() == 0 || name_order(keys.last(), key) != Order::Greater {
        keys.push(key)
    } else {
        key_placed(keys.drop_last(), key).push(keys.last())
    }
}

/// Some keys in dictionary order.
pub open spec fn keys_sorted(keys: Seq<Seq<char>>) -> Seq<Seq<char>>
    decreases keys.len(),
{
    if keys.len() == 0 {
        Seq::empty()
    } else {
        key_placed(keys_sorted(keys.drop_last()), keys.last())
    }
}

fn place_key(keys: &mut Vec<String>, key: String)
    ensures
        views(final(keys)@) == key_placed(views(old(keys)@), key@),
{
    let ghost before = views(keys@);
    let ghost model = key@;
    let mut at: usize = keys.len();
    assert(before.take(at as int) =~= before);
    assert(before.skip(at as int) =~= Seq::empty());
    assert(key_placed(before, model) =~= key_placed(before.take(at as int), model) + before.skip(
        at as int,
    ));
    while at > 0
        invariant
            at <= keys@.len(),
            before == views(keys@),
            before == views(old(keys)@),
            model == key@,
            key_placed(before, model) == key_placed(before.take(at as int), model) + before.skip(
                at as int,
            ),
        decreases at,
    {
        let ghost here = before.take(at as int);
        proof {
            assert(here.last() == keys@[at - 1]@);
            assert(here.drop_last() =~= before.take(at - 1));
            assert(before.skip(at - 1) =~= seq![here.last()] + before.skip(at as int));
        }
        match order_texts(keys[at - 1].as_str(), key.as_str()) {
            Order::Greater => {
                assert(key_placed(here, model) + before.skip(at as int) =~= key_placed(
                    before.take(at - 1),
                    model,
                ) + before.skip(at - 1));
                at = at - 1;
            },
            _ => {
                keys.insert(at, key);
                assert(views(keys@) =~= here.push(model) + before.skip(at as int));
                return;
            },
        }
    }
    keys.insert(0, key);
    assert(before.take(0) =~= Seq::empty());
    assert(views(keys@) =~= seq![model] + before.skip(0));
    assert(key_placed(before.take(0), model) =~= seq![model]);
}

/// Sorts keys in dictionary order.
pub fn sort_keys(keys: &Vec<String>) -> (r: Vec<String>)
    ensures
        views(r@) == keys_sorted(views(keys@)),
{
    let ghost model = views(keys@);
    let mut out: Vec<String> = Vec::new();
    let mut i: usize = 0;
    assert(model.take(0) =~= Seq::empty());
    assert(views(out@) =~= keys_sorted(model.take(0)));
    while i < keys.len()
        invariant
            i <= keys@.len(),
            model == views(keys@),
            views(out@) == keys_sorted(model.take(i as int)),
        decreases keys@.len() - i,
    {
        proof {
            let next = model.take(i as int + 1);
            assert(next.drop_last() =~= model.take(i as int));
            assert(next.last() == keys@[i as int]@);
        }
        place_key(&mut out, keys[i].clone());
        i = i + 1;
    }
    assert(model.take(keys@.len() as int) =~= model);
    out
}

/// What was read of the change-log: keys, each with what its object held.
pub type LogReads = Seq<(String, Result<Vec<StreamTxn>, Error>)>;

/// Whether reading the objects of an epoch, from a place on, adds up to this with what was found
/// before: the transactions after a position, in the order they were found. Each object is read
/// once, and no other.
pub open spec fn gathered(
    logs: LogReads,
    keys: Seq<Seq<char>>,
    epoch: u64,
    lsn: u64,
    i: int,
    so_far: Seq<StreamTxnModel>,
    r: Result<Seq<StreamTxnModel>, Error>,
) -> bool
    decreases keys.len() - i,
{
    if i < 0 || i >= keys.len() {
        logs.len() == 0 && r == Ok::<Seq<StreamTxnModel>, Error>(so_far)
    } else if !in_epoch(keys[i], epoch) {
        gathered(logs, keys, epoch, lsn, i + 1, so_far, r)
    } else {
        logs.len() >= 1 && logs[0].0@ == keys[i] && match logs[0].1 {
            Err(e) => logs.len() == 1 && r == Err::<Seq<StreamTxnModel>, Error>(e),
            Ok(txns) => gathered(
                logs.skip(1),
                keys,
                epoch,
                lsn,
                i + 1,
                so_far + after_position(stream_model(txns@), lsn),
                r,
            ),
        }
    }
}

fn keep_after(txns: Vec<StreamTxn>, lsn: u64, out: &mut Vec<StreamTxn>)
    ensures
        stream_model(final(out)@) == stream_model(old(out)@) + after_position(
            stream_model(txns@),
            lsn,
        ),
{
    let ghost model = stream_model(txns@);
    let ghost before = stream_model(out@);
    let mut i: usize = 0;
    assert(model.take(0) =~= Seq::empty());
    assert(stream_model(out@) =~= before + after_position(model.take(0), lsn));
    while i < txns.len()
        invariant
            i <= txns@.len(),
            model == stream_model(txns@),
            before == stream_model(old(out)@),
            stream_model(out@) == before + after_position(model.take(i as int), lsn),
        decreases txns@.len() - i,
    {
        let ghost here = out@;
        proof {
            let next = model.take(i as int + 1);
            assert(next.drop_last() =~= model.take(i as int));
            assert(next.last() == txns@[i as int]@);
        }
        if txns[i].lsn > lsn {
            let copy = txns[i].copy();
            let ghost t = copy@;
            out.push(copy);
            assert(stream_model(out@) =~= stream_model(here).push(t));
            assert(stream_model(out@) =~= before + after_position(model.take(i as int + 1), lsn));
        }
        i = i + 1;
    }
    assert(model.take(txns@.len() as int) =~= model);
}

pub open spec fn txns_result(r: Result<Vec<StreamTxn>, Error>) -> Result<Seq<StreamTxnModel>, Error> {
    match r {
        Ok(txns) => Ok(stream_model(txns@)),
        Err(e) => Err(e),
    }
}

#[verifier::loop_isolation(false)]
fn gather<F: Fn(String) -> Result<Vec<StreamTxn>, Error>>(
    keys: &Vec<String>,
    epoch: u64,
    lsn: u64,
    log: &mut Line<String, Result<Vec<StreamTxn>, Error>, F>,
) -> (r: Result<Vec<StreamTxn>, Error>)
    requires
        forall|k: String| #[trigger] call_requires(old(log).far(), (k,)),
    ensures
        final(log).far() == old(log).far(),
        goes_on(old(log).record(), final(log).record()),
        gathered(
            since(old(log).record(), final(log).record()),
            views(keys@),
            epoch,
            lsn,
            0,
            Seq::empty(),
            txns_result(r),
        ),
{
    let ghost model = views(keys@);
    let ghost first = log.record();
    let ghost far = log.far();
    let ghost mut made: LogReads = Seq::empty();
    let mut out: Vec<StreamTxn> = Vec::new();
    let mut i: usize = 0;
    proof {
        assert(stream_model(out@) =~= Seq::empty());
        assert(first + made =~= first);
        assert forall|more: LogReads, g: Result<Seq<StreamTxnModel>, Error>| #[trigger]
            gathered(more, model, epoch, lsn, 0, stream_model(out@), g) implies gathered(
            made + more,
            model,
            epoch,
            lsn,
            0,
            Seq::empty(),
            g,
        ) by {
            assert(made + more =~= more);
        }
    }
    while i < keys.len()
        invariant
            i <= keys@.len(),
            log.far() == far,
            log.record() == first + made,
            forall|more: LogReads, g: Result<Seq<StreamTxnModel>, Error>| #[trigger]
                gathered(more, model, epoch, lsn, i as int, stream_model(out@), g) ==> gathered(
                    made + more,
                    model,
                    epoch,
                    lsn,
                    0,
                    Seq::empty(),
                    g,
                ),
        decreases keys@.len() - i,
    {
        let ghost at = i as int;
        let ghost so_far = stream_model(out@);
        assert(model[at] == keys@[at]@);
        let wanted = match parse_epoch_lsn(keys[i].as_str()) {
            Some((e, _)) => e == epoch,
            None => false,
        };
        if wanted {
            let key = keys[i].clone();
            let ghost handed = key;
            let found = log.ask(key);
            let ghost one = seq![(handed, found)];
            assert(log.record() =~= first + (made + one));
            match found {
                Ok(txns) => {
                    let ghost more = after_position(stream_model(txns@), lsn);
                    keep_after(txns, lsn, &mut out);
                    assert forall|more: LogReads, g: Result<Seq<StreamTxnModel>, Error>| #[trigger]
                        gathered(
                            more,
                            model,
                            epoch,
                            lsn,
                            at + 1,
                            stream_model(out@),
                            g,
                        ) implies gathered(
                        (made + one) + more,
                        model,
                        epoch,
                        lsn,
                        0,
                        Seq::empty(),
                        g,
                    ) by {
                        let all = one + more;
                        assert(all.skip(1) =~= more);
                        assert(all[0] == one[0]);
                        assert(gathered(all, model, epoch, lsn, at, so_far, g));
                        assert((made + one) + more =~= made + all);
                    }
                    proof {
                        made = made + one;
                    }
                },
                Err(e) => {
                    proof {
                        let g = Err::<Seq<StreamTxnModel>, Error>(e);
                        assert(gathered(one, model, epoch, lsn, at, so_far, g));
                        lemma_added(first, made + one);
                    }
                    return Err(e);
                },
            }
        } else {
            assert forall|more: LogReads, g: Result<Seq<StreamTxnModel>, Error>| #[trigger]
                gathered(more, model, epoch, lsn, at + 1, stream_model(out@), g) implies gathered(
                made + more,
                model,
                epoch,
                lsn,
                0,
                Seq::empty(),
                g,
            ) by {
                assert(gathered(more, model, epoch, lsn, at, so_far, g));
            }
        }
        i = i + 1;
    }
    proof {
        let g = Ok::<Seq<StreamTxnModel>, Error>(stream_model(out@));
        let none: LogReads = Seq::empty();
        assert(gathered(none, model, epoch, lsn, i as int, stream_model(out@), g));
        assert(made + none =~= made);
        lemma_added(first, made);
    }
    Ok(out)
}

/// Whether building the overlay of a shard reads this and comes to this.
pub open spec fn overlay_built(
    logs: LogReads,
    keys: Seq<Seq<char>>,
    shard: ShardId,
    epoch: u64,
    lsn: u64,
    r: Result<Option<PageOverlay>, Error>,
) -> bool {
    if goes_past(keys, epoch) {
        logs.len() == 0 && (r matches Err(e) && e@ == past_epoch(shard, epoch))
    } else {
        exists|found: Result<Seq<StreamTxnModel>, Error>| #[trigger]
            gathered(logs, keys_sorted(keys), epoch, lsn, 0, Seq::empty(), found) && match found {
                Err(e) => r == Err::<Option<PageOverlay>, Error>(e),
                Ok(txns) => overlay_view(r) == replay(shard, lsn, txns),
            }
    }
}

/// Collapses what a shard's change-log holds after a snapshot into an overlay of pages; there is
/// none where nothing was committed since. `keys` are those of the change-log, and `log` reads one
/// of its objects: those of the snapshot's epoch, once each.
pub fn build_overlay<F: Fn(String) -> Result<Vec<StreamTxn>, Error>>(
    keys: &Vec<String>,
    shard: ShardId,
    snap_epoch: u64,
    snap_lsn: u64,
    log: &mut Line<String, Result<Vec<StreamTxn>, Error>, F>,
) -> (r: Result<Option<PageOverlay>, Error>)
    requires
        forall|k: String| #[trigger] call_requires(old(log).far(), (k,)),
    ensures
        final(log).far() == old(log).far(),
        goes_on(old(log).record(), final(log).record()),
        overlay_built(
            since(old(log).record(), final(log).record()),
            views(keys@),
            shard,
            snap_epoch,
            snap_lsn,
            r,
        ),
        r matches Ok(Some(o)) ==> o.pages.wf(),
{
    match check_epoch(keys, shard, snap_epoch) {
        Ok(_) => {},
        Err(e) => {
            proof {
                lemma_nothing_added(log.record());
            }
            return Err(e);
        },
    }
    let sorted = sort_keys(keys);
    let found = gather(&sorted, snap_epoch, snap_lsn, log);
    let ghost model = txns_result(found);
    match found {
        Ok(txns) => {
            assert(model == Ok::<Seq<StreamTxnModel>, Error>(stream_model(txns@)));
            replay_log(shard, snap_lsn, txns)
        },
        Err(e) => {
            assert(model == Err::<Seq<StreamTxnModel>, Error>(e));
            Err(e)
        },
    }
}

// ---- applying the overlay ----------------------------------------------------------------------

impl OverlayModel {
    /// Whether every page has a number, starting from 1, and holds no more than a page's bytes, and
    /// the database is no larger than a machine can hold.
    pub open spec fn sound(self) -> bool {
        &&& self.db_size <= usize::MAX
        &&& self.page_size > 0 || self.db_size == 0
        &&& forall|n: u32| #[trigger]
            self.pages.dom().contains(n) ==> n > 0 && self.pages[n].len() <= self.page_size
    }
}

/// The byte of a database with an overlay on it: of the page that covers it, or else as it was, or
/// zero past the old end.
pub open spec fn byte_over(db: Seq<u8>, o: OverlayModel, i: int) -> u8 {
    let n = i / o.page_size as int + 1;
    let at = i % o.page_size as int;
    if n <= u32::MAX && o.pages.dom().contains(n as u32) && at < o.pages[n as u32].len() {
        o.pages[n as u32][at]
    } else if i < db.len() {
        db[i]
    } else {
        0
    }
}

/// A database with an overlay on it.
pub open spec fn image(db: Seq<u8>, o: OverlayModel) -> Seq<u8> {
    Seq::new(o.db_size as nat, |i: int| byte_over(db, o, i))
}

impl PageOverlay {
    /// Whether every page has a number, starting from 1, and holds no more than a page's bytes.
    pub fn is_sound(&self) -> (r: bool)
        requires
            self.pages.wf(),
        ensures
            r == self@.sound(),
    {
        if self.db_size > usize::MAX as u64 || (self.page_size == 0 && self.db_size != 0) {
            return false;
        }
        let ghost list = self.pages.list();
        let mut i: usize = 0;
        while i < self.pages.len()
            invariant
                i <= list.len(),
                list == self.pages.list(),
                self.pages.wf(),
                forall|k: int|
                    0 <= k < i ==> (#[trigger] list[k]).0 > 0 && list[k].1@.len()
                        <= self.page_size,
            decreases list.len() - i,
        {
            if self.pages.key_at(i) == 0 || self.pages.value_at(i).len() > self.page_size as usize {
                proof {
                    self.pages.lemma_listed(i as int);
                    let n = list[i as int].0;
                    assert(self@.pages.dom().contains(n));
                    assert(self@.pages[n] == list[i as int].1@);
                }
                return false;
            }
            i = i + 1;
        }
        assert forall|n: u32| #[trigger] self@.pages.dom().contains(n) implies n > 0
            && self@.pages[n].len() <= self.page_size by {
            self.pages.lemma_all_listed(n);
            let k = choose|k: int| 0 <= k < list.len() && (#[trigger] list[k]).0 == n;
            self.pages.lemma_listed(k);
        }
        true
    }
}

/// Splices an overlay into a database in place: the pages it holds are overwritten, and the result
/// has the size that the overlay says.
#[verifier::loop_isolation(false)]
pub fn apply_overlay(db: &mut Vec<u8>, o: &PageOverlay)
    requires
        o.pages.wf(),
        o@.sound(),
    ensures
        final(db)@ == image(old(db)@, o@),
{
    let size: usize = o.db_size as usize;
    let page_size: usize = o.page_size as usize;
    let ghost model = image(db@, o@);
    let mut out: Vec<u8> = Vec::new();
    let mut n: usize = 0;
    assert(model.take(0) =~= out@);
    while out.len() < size
        invariant
            out@.len() <= size,
            out@ == model.take(out@.len() as int),
            out@.len() == size || out@.len() == n * page_size,
            n <= out@.len(),
        decreases size - out@.len(),
    {
        let page: Option<&Vec<u8>> = if n < u32::MAX as usize {
            o.pages.get((n + 1) as u32)
        } else {
            None
        };
        let start: usize = out.len();
        let mut at: usize = 0;
        while at < page_size && out.len() < size
            invariant
                at <= page_size,
                start == n * page_size,
                out@.len() == start + at,
                out@.len() <= size,
                out@ == model.take(out@.len() as int),
            decreases page_size - at,
        {
            let i: usize = out.len();
            let byte: u8 = match page {
                Some(data) if at < data.len() => data[at],
                _ => if i < db.len() {
                    db[i]
                } else {
                    0
                },
            };
            proof {
                vstd::arithmetic::div_mod::lemma_fundamental_div_mod_converse(
                    i as int,
                    page_size as int,
                    n as int,
                    at as int,
                );
                assert(byte == byte_over(db@, o@, i as int));
                assert(model.take(i as int + 1) =~= model.take(i as int).push(byte));
            }
            out.push(byte);
            at = at + 1;
        }
        proof {
            assert(start + page_size == (n + 1) * page_size) by (nonlinear_arith)
                requires
                    start == n * page_size,
            ;
            if out@.len() != size {
                assert(at == page_size);
            }
            assert(n + 1 <= out@.len());
        }
        n = n + 1;
    }
    assert(model.take(size as int) =~= model);
    *db = out;
}

// ---- reading through the overlay ----------------------------------------------------------------

/// As many bytes from a place on as there are, up to a length.
pub open spec fn span(bytes: Seq<u8>, offset: int, len: int) -> Seq<u8> {
    let from = if offset <= bytes.len() {
        offset
    } else {
        bytes.len() as int
    };
    let to = if offset + len <= bytes.len() {
        offset + len
    } else {
        bytes.len() as int
    };
    bytes.subrange(from, to)
}

/// Reads a database with an overlay on it: given the bytes of the database from a place on, those
/// that it has there with the overlay.
#[verifier::loop_isolation(false)]
pub fn read_over(base: &Vec<u8>, o: &PageOverlay, offset: u64, len: usize) -> (r: Vec<u8>)
    requires
        o.pages.wf(),
        o@.sound(),
        offset + len <= u64::MAX,
    ensures
        forall|db: Seq<u8>|
            base@ == #[trigger] span(db, offset as int, len as int) ==> r@ == span(
                image(db, o@),
                offset as int,
                len as int,
            ),
{
    let mut out: Vec<u8> = Vec::new();
    let end: u64 = if offset + len as u64 <= o.db_size {
        offset + len as u64
    } else {
        o.db_size
    };
    let mut at: u64 = offset;
    while at < end
        invariant
            at == offset + out@.len(),
            end <= o.db_size,
            end <= offset + len,
            at <= end || out@.len() == 0,
            forall|db: Seq<u8>, k: int|
                base@ == #[trigger] span(db, offset as int, len as int) && 0 <= k < out@.len()
                    ==> #[trigger] out@[k] == byte_over(db, o@, offset + k),
        decreases end - at,
    {
        let page_size: u64 = o.page_size as u64;
        let n: u64 = at / page_size;
        let within: usize = (at % page_size) as usize;
        let place: usize = (at - offset) as usize;
        let page: Option<&Vec<u8>> = if n < u32::MAX as u64 {
            o.pages.get((n + 1) as u32)
        } else {
            None
        };
        let byte: u8 = match page {
            Some(data) if within < data.len() => data[within],
            _ => if place < base.len() {
                base[place]
            } else {
                0
            },
        };
        let ghost before = out@;
        out.push(byte);
        assert forall|db: Seq<u8>, k: int|
            base@ == #[trigger] span(db, offset as int, len as int) && 0 <= k < out@.len() implies #[trigger] out@[k]
            == byte_over(db, o@, offset + k) by {
            if k < before.len() {
                assert(out@[k] == before[k]);
            } else {
                assert(offset + k == at);
                if at < db.len() {
                    assert(base@[place as int] == db[at as int]);
                }
            }
        }
        at = at + 1;
    }
    assert forall|db: Seq<u8>|
        base@ == #[trigger] span(db, offset as int, len as int) implies out@ == span(
        image(db, o@),
        offset as int,
        len as int,
    ) by {
        let whole = image(db, o@);
        assert(out@ =~= span(whole, offset as int, len as int));
    }
    out
}

// ---- recovery ----------------------------------------------------------------------------------

/// What was listed in the bucket: prefixes, each with the keys under it.
pub type Lists = Seq<(String, Result<Vec<String>, S3Error>)>;

/// What was downloaded: keys, each with its object.
pub type Downloads = Seq<(String, Result<Vec<u8>, S3Error>)>;

/// A recovered shard: its database, the epoch and position of the snapshot, and how many pages were
/// replayed over it.
pub type Recovered = (Vec<u8>, u64, u64, usize);

pub open spec fn recovered_is(r: Recovered, db: Seq<u8>, epoch: u64, lsn: u64, pages: nat) -> bool {
    r.0@ == db && r.1 == epoch && r.2 == lsn && r.3 == pages
}

pub open spec fn bucket_failed(r: Result<Option<Recovered>, Error>, e: S3Error) -> bool {
    r matches Err(x) && x@ == ErrorModel::Protocol("s3: "@ + e.message())
}

/// Whether putting an overlay on a snapshot gives this. There is no image where the overlay is not
/// sound.
pub open spec fn laid_over(
    db: Seq<u8>,
    epoch: u64,
    lsn: u64,
    overlay: Result<Option<PageOverlay>, Error>,
    r: Result<Option<Recovered>, Error>,
) -> bool {
    match overlay {
        Err(e) => r == Err::<Option<Recovered>, Error>(e),
        Ok(None) => r matches Ok(Some(x)) && recovered_is(x, db, epoch, lsn, 0),
        Ok(Some(o)) => if o@.sound() {
            r matches Ok(Some(x)) && recovered_is(
                x,
                image(db, o@),
                epoch,
                lsn,
                o@.pages.dom().len(),
            )
        } else {
            r matches Ok(None)
        },
    }
}

/// Whether replaying a shard's change-log over a snapshot reads this and gives this.
pub open spec fn brought_up(
    lists: Lists,
    logs: LogReads,
    prefix: Seq<char>,
    shard: ShardId,
    db: Seq<u8>,
    epoch: u64,
    lsn: u64,
    r: Result<Option<Recovered>, Error>,
) -> bool {
    lists.len() == 1 && lists[0].0@ == kind_prefix(prefix, shard, "/wal/"@) && match lists[0].1 {
        Err(e) => logs.len() == 0 && bucket_failed(r, e),
        Ok(keys) => exists|o: Result<Option<PageOverlay>, Error>| #[trigger]
            overlay_built(logs, views(keys@), shard, epoch, lsn, o) && laid_over(
                db,
                epoch,
                lsn,
                o,
                r,
            ),
    }
}

/// Whether recovering a shard from its snapshots reads this and gives this: from the newest of
/// them.
pub open spec fn recovered_from(
    lists: Lists,
    gets: Downloads,
    logs: LogReads,
    prefix: Seq<char>,
    shard: ShardId,
    snapshots: Seq<Seq<char>>,
    r: Result<Option<Recovered>, Error>,
) -> bool {
    if snapshots.len() == 0 {
        lists.len() == 0 && gets.len() == 0 && logs.len() == 0 && (r matches Err(e) && e@
            == no_snapshot(shard))
    } else {
        exists|key: Seq<char>| #[trigger]
            is_latest(snapshots, key) && match key_position(key) {
                None => lists.len() == 0 && gets.len() == 0 && logs.len() == 0 && (r matches Err(e)
                    && e@ == unreadable_key(key)),
                Some(at) => gets.len() == 1 && gets[0].0@ == key && match gets[0].1 {
                    Err(e) => lists.len() == 0 && logs.len() == 0 && bucket_failed(r, e),
                    Ok(db) => brought_up(lists, logs, prefix, shard, db@, at.0, at.1, r),
                },
            }
    }
}

/// Whether recovering a shard reads this and gives this.
pub open spec fn recovered(
    lists: Lists,
    gets: Downloads,
    logs: LogReads,
    prefix: Seq<char>,
    shard: ShardId,
    r: Result<Option<Recovered>, Error>,
) -> bool {
    lists.len() >= 1 && lists[0].0@ == kind_prefix(prefix, shard, "/snapshot/"@)
        && match lists[0].1 {
        Err(e) => lists.len() == 1 && gets.len() == 0 && logs.len() == 0 && bucket_failed(r, e),
        Ok(keys) => recovered_from(lists.skip(1), gets, logs, prefix, shard, views(keys@), r),
    }
}

/// Replays a shard's change-log over one of its snapshots.
fn bring_up<
    L: Fn(String) -> Result<Vec<String>, S3Error>,
    F: Fn(String) -> Result<Vec<StreamTxn>, Error>,
>(
    list: &mut Line<String, Result<Vec<String>, S3Error>, L>,
    log: &mut Line<String, Result<Vec<StreamTxn>, Error>, F>,
    prefix: &str,
    shard: ShardId,
    snapshot: Vec<u8>,
    epoch: u64,
    lsn: u64,
) -> (r: Result<Option<Recovered>, Error>)
    requires
        forall|p: String| #[trigger] call_requires(old(list).far(), (p,)),
        forall|k: String| #[trigger] call_requires(old(log).far(), (k,)),
    ensures
        final(list).far() == old(list).far(),
        goes_on(old(list).record(), final(list).record()),
        final(log).far() == old(log).far(),
        goes_on(old(log).record(), final(log).record()),
        brought_up(
            since(old(list).record(), final(list).record()),
            since(old(log).record(), final(log).record()),
            prefix@,
            shard,
            snapshot@,
            epoch,
            lsn,
            r,
        ),
{
    let place = wal_prefix(prefix, shard);
    let ghost first = list.record();
    let ghost handed = place;
    let logs = list.ask(place);
    proof {
        assert(list.record() =~= first + seq![(handed, logs)]);
        lemma_added(first, seq![(handed, logs)]);
        lemma_nothing_added(log.record());
    }
    let keys = match logs {
        Ok(keys) => keys,
        Err(e) => {
            return Err(to_err(&e));
        },
    };
    let built = build_overlay(&keys, shard, epoch, lsn, log);
    let ghost o = built;
    assert(overlay_built(
        since(old(log).record(), log.record()),
        views(keys@),
        shard,
        epoch,
        lsn,
        o,
    ));
    let mut db = snapshot;
    match built {
        Err(e) => Err(e),
        Ok(None) => Ok(Some((db, epoch, lsn, 0))),
        Ok(Some(overlay)) => {
            if !overlay.is_sound() {
                return Ok(None);
            }
            apply_overlay(&mut db, &overlay);
            proof {
                overlay.pages.lemma_counted();
                assert(overlay@.pages.dom() =~= overlay.pages@.dom());
            }
            Ok(Some((db, epoch, lsn, overlay.pages.len())))
        },
    }
}

/// Recovers a shard: its newest snapshot, with everything replayed over it that was committed after
/// it. `list` lists the keys under a prefix, `get` downloads an object, and `log` reads one of the
/// change-log. There is no database where a page of the change-log has no number, or holds more than
/// a page.
pub fn recover_bytes<
    L: Fn(String) -> Result<Vec<String>, S3Error>,
    G: Fn(String) -> Result<Vec<u8>, S3Error>,
    F: Fn(String) -> Result<Vec<StreamTxn>, Error>,
>(
    prefix: &str,
    shard: ShardId,
    list: &mut Line<String, Result<Vec<String>, S3Error>, L>,
    get: &mut Line<String, Result<Vec<u8>, S3Error>, G>,
    log: &mut Line<String, Result<Vec<StreamTxn>, Error>, F>,
) -> (r: Result<Option<Recovered>, Error>)
    requires
        forall|p: String| #[trigger] call_requires(old(list).far(), (p,)),
        forall|k: String| #[trigger] call_requires(old(get).far(), (k,)),
        forall|k: String| #[trigger] call_requires(old(log).far(), (k,)),
    ensures
        final(list).far() == old(list).far(),
        goes_on(old(list).record(), final(list).record()),
        final(get).far() == old(get).far(),
        goes_on(old(get).record(), final(get).record()),
        final(log).far() == old(log).far(),
        goes_on(old(log).record(), final(log).record()),
        recovered(
            since(old(list).record(), final(list).record()),
            since(old(get).record(), final(get).record()),
            since(old(log).record(), final(log).record()),
            prefix@,
            shard,
            r,
        ),
{
    let ghost listed = list.record();
    let ghost got = get.record();
    let place = snapshot_prefix(prefix, shard);
    let ghost handed = place;
    let snapshots = list.ask(place);
    let ghost one = seq![(handed, snapshots)];
    proof {
        assert(list.record() =~= listed + one);
        lemma_added(listed, one);
        assert(one.skip(1).len() == 0);
        lemma_nothing_added(get.record());
        lemma_nothing_added(log.record());
    }
    let keys = match snapshots {
        Ok(keys) => keys,
        Err(e) => {
            return Err(to_err(&e));
        },
    };
    let (key, epoch, lsn) = match choose_snapshot(&keys, shard) {
        Ok(chosen) => chosen,
        Err(e) => {
            return Err(e);
        },
    };
    assert(is_latest(views(keys@), key@));
    let ghost wanted = key;
    let object = get.ask(key);
    proof {
        assert(get.record() =~= got + seq![(wanted, object)]);
        lemma_added(got, seq![(wanted, object)]);
    }
    match object {
        Ok(db) => {
            let ghost before = list.record();
            let r = bring_up(list, log, prefix, shard, db, epoch, lsn);
            proof {
                let more = since(before, list.record());
                lemma_goes_on(before, list.record());
                assert(list.record() =~= listed + (one + more));
                lemma_added(listed, one + more);
                assert((one + more).skip(1) =~= more);
                assert((one + more)[0] == one[0]);
            }
            r
        },
        Err(e) => Err(to_err(&e)),
    }
}

// ---- laws --------------------------------------------------------------------------------------

proof fn lemma_lex_prefix(p: Seq<int>, a: Seq<int>, b: Seq<int>)
    ensures
        lex_order(p + a, p + b) == lex_order(a, b),
    decreases p.len(),
{
    if p.len() == 0 {
        assert(p + a =~= a);
        assert(p + b =~= b);
    } else {
        assert((p + a).drop_first() =~= p.drop_first() + a);
        assert((p + b).drop_first() =~= p.drop_first() + b);
        lemma_lex_prefix(p.drop_first(), a, b);
    }
}

/// Of two texts whose first parts are as long as each other, those decide where they differ.
proof fn lemma_lex_parts(a: Seq<int>, b: Seq<int>, x: Seq<int>, y: Seq<int>)
    requires
        a.len() == b.len(),
    ensures
        lex_order(a + x, b + y) == (if a == b {
            lex_order(x, y)
        } else {
            lex_order(a, b)
        }),
        a != b ==> lex_order(a, b) != Order::Equal,
    decreases a.len(),
{
    if a.len() == 0 {
        assert(a =~= b);
        assert(a + x =~= x);
        assert(b + y =~= y);
    } else {
        assert((a + x).drop_first() =~= a.drop_first() + x);
        assert((b + y).drop_first() =~= b.drop_first() + y);
        if a[0] == b[0] {
            lemma_lex_parts(a.drop_first(), b.drop_first(), x, y);
            if a.drop_first() == b.drop_first() {
                assert(a =~= seq![a[0]] + a.drop_first());
                assert(b =~= seq![b[0]] + b.drop_first());
            }
        }
    }
}

/// Rows of digits as long as each other stand in the order of their numbers.
proof fn lemma_digits_order(a: Seq<char>, b: Seq<char>)
    requires
        a.len() == b.len(),
        forall|i: int| 0 <= i < a.len() ==> is_digit(#[trigger] a[i]),
        forall|i: int| 0 <= i < b.len() ==> is_digit(#[trigger] b[i]),
    ensures
        lex_order(char_codes(a), char_codes(b)) == int_order(
            digits_value(a) as int,
            digits_value(b) as int,
        ),
        digits_value(a) == digits_value(b) ==> a == b,
    decreases a.len(),
{
    if a.len() == 0 {
        assert(a =~= b);
        assert(char_codes(a).len() == 0);
        assert(char_codes(b).len() == 0);
    } else {
        let (p, q) = (a.drop_last(), b.drop_last());
        lemma_digits_order(p, q);
        let (x, y) = (seq![a.last() as int], seq![b.last() as int]);
        assert(char_codes(a) =~= char_codes(p) + x);
        assert(char_codes(b) =~= char_codes(q) + y);
        lemma_lex_parts(char_codes(p), char_codes(q), x, y);
        assert(is_digit(a[a.len() - 1]) && is_digit(b[b.len() - 1]));
        lemma_codes_tell(p, q);
        assert(lex_order(x, y) == int_order(x[0], y[0])) by {
            let (u, v) = (x.drop_first(), y.drop_first());
            assert(u.len() == 0 && v.len() == 0);
            assert(lex_order(u, v) == Order::Equal);
        }
        assert(digits_value(a) == digits_value(p) * 10 + (x[0] - 48));
        assert(digits_value(b) == digits_value(q) * 10 + (y[0] - 48));
        assert(48 <= x[0] <= 57 && 48 <= y[0] <= 57);
        if digits_value(a) == digits_value(b) {
            assert(digits_value(p) == digits_value(q));
            assert(a =~= p.push(a.last()));
            assert(b =~= q.push(b.last()));
        }
    }
}

proof fn lemma_codes_tell(a: Seq<char>, b: Seq<char>)
    ensures
        char_codes(a) == char_codes(b) ==> a == b,
{
    if char_codes(a) == char_codes(b) {
        assert(char_codes(a).len() == a.len());
        assert(char_codes(b).len() == b.len());
        assert forall|i: int| 0 <= i < a.len() implies a[i] == b[i] by {
            assert(char_codes(a)[i] == a[i] as int);
            assert(char_codes(b)[i] == b[i] as int);
        }
        assert(a =~= b);
    }
}

proof fn lemma_zeros_add_nothing(k: nat, s: Seq<char>)
    ensures
        digits_value(zeros(k) + s) == digits_value(s),
    decreases k + s.len(),
{
    let all = zeros(k) + s;
    if s.len() > 0 {
        lemma_zeros_add_nothing(k, s.drop_last());
        assert(all.drop_last() =~= zeros(k) + s.drop_last());
    } else if k > 0 {
        lemma_zeros_add_nothing((k - 1) as nat, s);
        assert(all.drop_last() =~= zeros((k - 1) as nat) + s);
    } else {
        assert(all =~= s);
    }
}

proof fn lemma_decimal_width(n: nat, width: nat)
    requires
        width > 0,
        n < ten_to(width),
    ensures
        decimal(n).len() <= width,
    decreases width,
{
    if n >= 10 {
        if width == 1 {
            reveal_with_fuel(ten_to, 2);
        } else {
            lemma_decimal_width(n / 10, (width - 1) as nat);
        }
    }
}

pub open spec fn ten_to(k: nat) -> nat
    decreases k,
{
    if k == 0 {
        1
    } else {
        10 * ten_to((k - 1) as nat)
    }
}

/// A 64-bit number, padded to twenty digits.
proof fn lemma_padded(n: u64)
    ensures
        padded(n as nat, 20).len() == 20,
        forall|i: int| 0 <= i < 20 ==> is_digit(#[trigger] padded(n as nat, 20)[i]),
        digits_value(padded(n as nat, 20)) == n,
        number(padded(n as nat, 20)) == Some(n),
{
    reveal_with_fuel(ten_to, 21);
    lemma_decimal_width(n as nat, 20);
    lemma_decimal_reads_back(n as nat);
    let digits = decimal(n as nat);
    let s = padded(n as nat, 20);
    lemma_zeros_add_nothing((20 - digits.len()) as nat, digits);
    assert(s =~= zeros((20 - digits.len()) as nat) + digits);
    assert(is_digit(s[0]));
    assert(all_digits(s));
}

pub open spec fn position_order(e: u64, l: u64, e2: u64, l2: u64) -> Order {
    if e == e2 {
        int_order(l as int, l2 as int)
    } else {
        int_order(e as int, e2 as int)
    }
}

/// The keys of a shard's objects of one kind sort by epoch and position, so the last of its
/// snapshots in dictionary order is the newest one.
pub proof fn law_keys_sort_by_position(
    prefix: Seq<char>,
    shard: ShardId,
    kind: Seq<char>,
    e: u64,
    l: u64,
    e2: u64,
    l2: u64,
)
    ensures
        name_order(object_key(prefix, shard, kind, e, l), object_key(prefix, shard, kind, e2, l2))
            == position_order(e, l, e2, l2),
{
    lemma_padded(e);
    lemma_padded(l);
    lemma_padded(e2);
    lemma_padded(l2);
    let head = kind_prefix(prefix, shard, kind);
    let (a, b) = (padded(e as nat, 20), padded(e2 as nat, 20));
    let (x, y) = (seq!['_'] + padded(l as nat, 20), seq!['_'] + padded(l2 as nat, 20));
    let (one, two) = (
        object_key(prefix, shard, kind, e, l),
        object_key(prefix, shard, kind, e2, l2),
    );
    assert(char_codes(one) =~= char_codes(head) + (char_codes(a) + char_codes(x)));
    assert(char_codes(two) =~= char_codes(head) + (char_codes(b) + char_codes(y)));
    lemma_lex_prefix(
        char_codes(head),
        char_codes(a) + char_codes(x),
        char_codes(b) + char_codes(y),
    );
    lemma_lex_parts(char_codes(a), char_codes(b), char_codes(x), char_codes(y));
    lemma_digits_order(a, b);
    lemma_codes_tell(a, b);
    let mark = char_codes(seq!['_']);
    assert(char_codes(x) =~= mark + char_codes(padded(l as nat, 20)));
    assert(char_codes(y) =~= mark + char_codes(padded(l2 as nat, 20)));
    lemma_lex_prefix(mark, char_codes(padded(l as nat, 20)), char_codes(padded(l2 as nat, 20)));
    lemma_digits_order(padded(l as nat, 20), padded(l2 as nat, 20));
}

proof fn lemma_last_part(s: Seq<char>, t: Seq<char>)
    requires
        forall|i: int| 0 <= i < t.len() ==> #[trigger] t[i] != '/',
    ensures
        last_part(s + seq!['/'] + t) == t,
    decreases s.len(),
{
    let all = s + seq!['/'] + t;
    match split_at_first(s, '/') {
        None => {
            lemma_no_split(s, '/');
            lemma_split_pair(s, t, '/');
            lemma_never_splits(t, '/');
            assert(last_part(t) == t);
            assert(last_part(all) == last_part(t));
        },
        Some((head, rest)) => {
            lemma_split_found(s, '/');
            assert(all =~= head + seq!['/'] + (rest + seq!['/'] + t));
            lemma_split_pair(head, rest + seq!['/'] + t, '/');
            lemma_last_part(rest, t);
            assert(last_part(all) == last_part(rest + seq!['/'] + t));
        },
    }
}

proof fn lemma_find_stops(s: Seq<char>, c: char, i: int)
    requires
        0 <= i <= s.len(),
    ensures
        i <= find_from(s, c, i) <= s.len(),
        forall|k: int| i <= k < find_from(s, c, i) ==> #[trigger] s[k] != c,
        find_from(s, c, i) < s.len() ==> s[find_from(s, c, i)] == c,
    decreases s.len() - i,
{
    if i < s.len() && s[i] != c {
        lemma_find_stops(s, c, i + 1);
    }
}

proof fn lemma_no_split(s: Seq<char>, c: char)
    requires
        split_at_first(s, c) is None,
    ensures
        forall|i: int| 0 <= i < s.len() ==> #[trigger] s[i] != c,
{
    lemma_find_stops(s, c, 0);
}

proof fn lemma_never_splits(s: Seq<char>, c: char)
    requires
        forall|i: int| 0 <= i < s.len() ==> #[trigger] s[i] != c,
    ensures
        split_at_first(s, c) is None,
{
    lemma_find_stops(s, c, 0);
}

proof fn lemma_split_found(s: Seq<char>, c: char)
    requires
        split_at_first(s, c) is Some,
    ensures
        ({
            let (head, rest) = split_at_first(s, c)->0;
            &&& s == head + seq![c] + rest
            &&& rest.len() < s.len()
            &&& forall|i: int| 0 <= i < head.len() ==> #[trigger] head[i] != c
        }),
{
    lemma_find_stops(s, c, 0);
    let (head, rest) = split_at_first(s, c)->0;
    assert(s =~= head + seq![c] + rest);
    assert forall|i: int| 0 <= i < head.len() implies #[trigger] head[i] != c by {
        assert(head[i] == s[i]);
    }
}

/// The epoch and position that a key was made of are read back from it.
pub proof fn law_keys_read_back(prefix: Seq<char>, shard: ShardId, epoch: u64, lsn: u64)
    ensures
        key_position(log_key(prefix, shard, epoch, lsn)) == Some((epoch, lsn)),
        key_position(image_key(prefix, shard, epoch, lsn)) == Some((epoch, lsn)),
{
    reveal_strlit("/wal/");
    reveal_strlit("/wal");
    reveal_strlit("/snapshot/");
    reveal_strlit("/snapshot");
    assert("/wal/"@ =~= "/wal"@ + seq!['/']);
    assert("/snapshot/"@ =~= "/snapshot"@ + seq!['/']);
    lemma_key_reads_back(prefix, shard, "/wal"@, epoch, lsn);
    lemma_key_reads_back(prefix, shard, "/snapshot"@, epoch, lsn);
}

proof fn lemma_key_reads_back(
    prefix: Seq<char>,
    shard: ShardId,
    folder: Seq<char>,
    epoch: u64,
    lsn: u64,
)
    ensures
        key_position(object_key(prefix, shard, folder + seq!['/'], epoch, lsn)) == Some(
            (epoch, lsn),
        ),
{
    lemma_padded(epoch);
    lemma_padded(lsn);
    let (e, l) = (padded(epoch as nat, 20), padded(lsn as nat, 20));
    let name = e + seq!['_'] + l;
    let head = prefix + "/shard_"@ + decimal(shard.0 as nat) + folder;
    assert(object_key(prefix, shard, folder + seq!['/'], epoch, lsn) =~= head + seq!['/'] + name);
    assert forall|i: int| 0 <= i < name.len() implies #[trigger] name[i] != '/' by {
        if i < 20 {
            assert(name[i] == e[i]);
            assert(is_digit(e[i]));
        } else if i > 20 {
            assert(name[i] == l[i - 21]);
            assert(is_digit(l[i - 21]));
        }
    }
    lemma_last_part(head, name);
    assert forall|i: int| 0 <= i < e.len() implies #[trigger] e[i] != '_' by {
        assert(is_digit(e[i]));
    }
    lemma_split_pair(e, l, '_');
}

/// Replaying loses nothing: a page that the last transaction wrote is as it wrote it, and a page it
/// did not write is as the transactions before it left it.
pub proof fn law_the_last_write_of_a_page_counts(
    before: Map<u32, Seq<u8>>,
    frames: Seq<FrameModel>,
    page: u32,
    i: int,
)
    requires
        0 <= i < frames.len(),
        frames[i].page_no == page,
        forall|k: int| i < k < frames.len() ==> (#[trigger] frames[k]).page_no != page,
    ensures
        written(before, frames).dom().contains(page),
        written(before, frames)[page] == frames[i].data,
    decreases frames.len(),
{
    if i + 1 < frames.len() {
        let rest = frames.drop_last();
        assert forall|k: int| i < k < rest.len() implies (#[trigger] rest[k]).page_no != page by {
            assert(rest[k] == frames[k]);
        }
        assert(rest[i] == frames[i]);
        assert(frames[frames.len() - 1].page_no != page);
        law_the_last_write_of_a_page_counts(before, rest, page, i);
    }
}

/// Only an unbroken change-log is replayed: what is replayed holds exactly the positions that
/// follow the snapshot's.
pub proof fn law_only_whole_logs_are_replayed(shard: ShardId, lsn: u64, txns: Seq<StreamTxnModel>, i: int)
    requires
        replay(shard, lsn, txns) matches Ok(Some(_)),
        0 <= i < by_position(txns).len(),
    ensures
        by_position(txns)[i].lsn == lsn + 1 + i,
{
    lemma_no_gap(by_position(txns), lsn, 0, i);
}

proof fn lemma_no_gap(txns: Seq<StreamTxnModel>, lsn: u64, from: int, i: int)
    requires
        0 <= from <= i < txns.len(),
        first_gap(txns, lsn, from) is None,
    ensures
        txns[i].lsn == lsn + 1 + i,
    decreases i - from,
{
    if from < i {
        lemma_no_gap(txns, lsn, from + 1, i);
    }
}

} // verus!
