//! Applying a replication stream to a local copy.
//!
//! A follower writes pages; it never executes SQL. Pages are durable before the position moves: a
//! crash in between replays them, which is harmless, because writing the same page twice yields the
//! same page. The other order would skip transactions after a crash.

use vstd::prelude::*;

use super::log::{answer, dense, law_served_frames_have_no_gap, ServedModel};
use super::stream::{stream_model, Lsn, StreamTxn, StreamTxnModel};
use super::words::lemma_words;
use crate::calls::{goes_on, lemma_added, lemma_nothing_added, since, Line};
use crate::error::{Error, ErrorModel};
use crate::lines::{
    after_prefix, before_suffix, lemma_decimal_plain, lemma_pair_line, lines, lines_of,
    split_at_first, split_once, strip_prefix, strip_suffix, trim, trimmed,
};
use crate::shard::map::ShardMap;
use crate::shard::ShardId;
use crate::text::{
    decimal, lemma_decimal_reads_back, parse_u32, parse_u64, push_decimal, same, unsigned_text,
    views,
};

verus! {

/// Where a follower has reached in one shard's stream.
#[derive(Clone, Copy, Debug, PartialEq, Eq, Structural)]
pub struct Position {
    pub epoch: u64,
    pub applied_lsn: Lsn,
}

impl Position {
    /// The position of a follower that has nothing.
    pub open spec fn origin() -> Position {
        Position { epoch: 0, applied_lsn: 0 }
    }

    pub open spec fn is_fresh(self) -> bool {
        self.epoch == 0 && self.applied_lsn == 0
    }
}

/// What a follower needs before it can accept more frames.
#[derive(Debug)]
pub enum Need {
    /// Ready for this position.
    Next(Lsn),
    /// The shard must be seeded from a snapshot.
    Bootstrap { reason: String },
}

/// What a [`Need`] holds.
pub ghost enum NeedModel {
    Next(Lsn),
    Bootstrap { reason: Seq<char> },
}

impl View for Need {
    type V = NeedModel;

    open spec fn view(&self) -> NeedModel {
        match self {
            Need::Next(lsn) => NeedModel::Next(*lsn),
            Need::Bootstrap { reason } => NeedModel::Bootstrap { reason: reason@ },
        }
    }
}

/// What a follower at a position needs to follow a primary in `epoch`. One that has never seen the
/// shard asks for a snapshot: it cannot know whether the primary still has the stream's beginning.
pub open spec fn needs(pos: Position, epoch: u64) -> NeedModel {
    if pos.is_fresh() {
        NeedModel::Bootstrap { reason: "this follower has no copy of the shard"@ }
    } else if pos.epoch != epoch {
        NeedModel::Bootstrap {
            reason: "follower is on epoch "@ + decimal(pos.epoch as nat)
                + " but the primary is on "@ + decimal(epoch as nat)
                + "; a new epoch is a new stream and its LSNs cannot be compared to the old ones"@,
        }
    } else {
        NeedModel::Next((pos.applied_lsn + 1) as u64)
    }
}

pub open spec fn gap(shard: ShardId, expected: int, got: Lsn, detail: Seq<char>) -> ErrorModel {
    ErrorModel::ReplicationGap { shard: shard.shown(), expected: expected as u64, got, detail }
}

/// The first transaction, from `i` on, that does not stand where it should.
pub open spec fn first_misplaced(txns: Seq<StreamTxnModel>, start: Lsn, i: int) -> Option<int>
    decreases txns.len() - i,
{
    if i < 0 || i >= txns.len() {
        None
    } else if txns[i].lsn != start + 1 + i {
        Some(i)
    } else {
        first_misplaced(txns, start, i + 1)
    }
}

/// Why transactions cannot be applied at a position: `None` where they continue it without a gap.
pub open spec fn apply_refusal(
    pos: Position,
    shard: ShardId,
    epoch: u64,
    txns: Seq<StreamTxnModel>,
) -> Option<ErrorModel> {
    if txns.len() == 0 {
        None
    } else if !pos.is_fresh() && pos.epoch != epoch {
        Some(
            gap(
                shard,
                pos.applied_lsn + 1,
                txns[0].lsn,
                "epoch "@ + decimal(pos.epoch as nat) + " does not match the primary's "@ + decimal(
                    epoch as nat,
                ),
            ),
        )
    } else if pos.is_fresh() && txns[0].lsn != 1 {
        Some(
            gap(
                shard,
                1,
                txns[0].lsn,
                "an uninitialised follower can only join a stream at LSN 1"@,
            ),
        )
    } else {
        match first_misplaced(txns, pos.applied_lsn, 0) {
            Some(i) => Some(
                gap(
                    shard,
                    pos.applied_lsn + 1 + i,
                    txns[i].lsn,
                    "the stream is not contiguous"@,
                ),
            ),
            None => None,
        }
    }
}

// ---- the position file -------------------------------------------------------------------------

/// The file that a position is written to.
pub open spec fn position_text(pos: Position) -> Seq<char> {
    ("epoch"@ + seq!['='] + decimal(pos.epoch as nat)) + seq!['\n'] + (("lsn"@ + seq!['='] + decimal(
        pos.applied_lsn as nat,
    )) + seq!['\n'] + Seq::empty())
}

pub open spec fn number_or_zero(text: Seq<char>) -> u64 {
    match unsigned_text(trimmed(text)) {
        Some(n) => if n <= u64::MAX {
            n as u64
        } else {
            0
        },
        None => 0,
    }
}

/// What one line of the file says.
pub open spec fn with_position_line(pos: Position, line: Seq<char>) -> Position {
    match split_at_first(line, '=') {
        None => pos,
        Some((k, v)) => if k == "epoch"@ {
            Position { epoch: number_or_zero(v), ..pos }
        } else if k == "lsn"@ {
            Position { applied_lsn: number_or_zero(v), ..pos }
        } else {
            pos
        },
    }
}

pub open spec fn with_position_lines(all: Seq<Seq<char>>, n: nat) -> Position
    decreases n,
{
    if n == 0 || n > all.len() {
        Position::origin()
    } else {
        with_position_line(with_position_lines(all, (n - 1) as nat), all[n - 1])
    }
}

/// What a position file says.
pub open spec fn read_position(text: Seq<char>) -> Position {
    with_position_lines(lines(text), lines(text).len())
}

/// The shard that a file of a follower's directory has the position of.
pub open spec fn position_file_shard(name: Seq<char>) -> Option<u32> {
    match after_prefix(name, "shard_"@) {
        None => None,
        Some(rest) => match before_suffix(rest, ".position"@) {
            None => None,
            Some(id) => match unsigned_text(id) {
                Some(n) => if n <= u32::MAX {
                    Some(n as u32)
                } else {
                    None
                },
                None => None,
            },
        },
    }
}

/// The text of a position file.
pub fn write_position(pos: &Position) -> (r: String)
    ensures
        r@ == position_text(*pos),
{
    let mut out = "epoch".to_owned();
    out.push('=');
    push_decimal(&mut out, pos.epoch);
    out.push('\n');
    out.append("lsn");
    out.push('=');
    push_decimal(&mut out, pos.applied_lsn);
    out.push('\n');
    assert(out@ =~= position_text(*pos));
    out
}

fn number_in(text: &str) -> (r: u64)
    ensures
        r == number_or_zero(text@),
{
    let value = trim(text);
    match parse_u64(value.as_str()) {
        Some(n) => n,
        None => 0,
    }
}

/// Reads a position file.
pub fn parse_position(text: &str) -> (r: Position)
    ensures
        r == read_position(text@),
{
    let all = lines_of(text);
    let ghost model = lines(text@);
    let mut pos = Position { epoch: 0, applied_lsn: 0 };
    let mut i: usize = 0;
    assert(views(all@).len() == all@.len());
    while i < all.len()
        invariant
            i <= all@.len(),
            model == views(all@),
            pos == with_position_lines(model, i as nat),
        decreases all@.len() - i,
    {
        assert(model[i as int] == all@[i as int]@);
        match split_once(all[i].as_str(), '=') {
            None => {},
            Some((k, v)) => {
                if same(k.as_str(), "epoch") {
                    pos.epoch = number_in(v.as_str());
                } else if same(k.as_str(), "lsn") {
                    pos.applied_lsn = number_in(v.as_str());
                }
            },
        }
        i = i + 1;
    }
    pos
}

/// The shard whose position a file holds, by the file's name.
pub fn shard_of_position_file(name: &str) -> (r: Option<ShardId>)
    ensures
        position_file_shard(name@) == (match r {
            Some(s) => Some(s.0),
            None => None,
        }),
{
    match strip_prefix(name, "shard_") {
        None => None,
        Some(rest) => match strip_suffix(rest.as_str(), ".position") {
            None => None,
            Some(id) => match parse_u32(id.as_str()) {
                Some(n) => Some(ShardId(n)),
                None => None,
            },
        },
    }
}

// ---- the follower ------------------------------------------------------------------------------

/// A follower's positions in the streams of its shards.
#[derive(Debug)]
pub struct Follower {
    dir: String,
    positions: ShardMap<Position>,
}

impl View for Follower {
    type V = Map<u32, Position>;

    closed spec fn view(&self) -> Map<u32, Position> {
        self.positions@
    }
}

/// Where a follower stands in a shard's stream.
pub open spec fn position_in(m: Map<u32, Position>, shard: ShardId) -> Position {
    if m.dom().contains(shard.0) {
        m[shard.0]
    } else {
        Position::origin()
    }
}

pub open spec fn files_model(files: Seq<(String, String)>) -> Seq<(Seq<char>, Seq<char>)> {
    files.map_values(|f: (String, String)| (f.0@, f.1@))
}

/// The positions that the first `n` files of a directory hold.
pub open spec fn positions_in(files: Seq<(Seq<char>, Seq<char>)>, n: nat) -> Map<u32, Position>
    decreases n,
{
    if n == 0 || n > files.len() {
        Map::empty()
    } else {
        let before = positions_in(files, (n - 1) as nat);
        match position_file_shard(files[n - 1].0) {
            Some(shard) => before.insert(shard, read_position(files[n - 1].1)),
            None => before,
        }
    }
}

impl Follower {
    pub closed spec fn wf(&self) -> bool {
        self.positions.wf()
    }

    pub closed spec fn directory(&self) -> Seq<char> {
        self.dir@
    }

    /// A follower over the files of its directory, each with its name and text.
    pub fn open(dir: String, files: &Vec<(String, String)>) -> (r: Follower)
        ensures
            r.wf(),
            r.directory() == dir@,
            r@ == positions_in(files_model(files@), files@.len()),
    {
        let ghost model = files_model(files@);
        let mut positions: ShardMap<Position> = ShardMap::new();
        let mut i: usize = 0;
        while i < files.len()
            invariant
                i <= files@.len(),
                model == files_model(files@),
                positions.wf(),
                positions@ == positions_in(model, i as nat),
            decreases files@.len() - i,
        {
            assert(model[i as int] == (files@[i as int].0@, files@[i as int].1@));
            match shard_of_position_file(files[i].0.as_str()) {
                Some(shard) => {
                    let pos = parse_position(files[i].1.as_str());
                    positions.insert(shard.0, pos);
                },
                None => {},
            }
            i = i + 1;
        }
        Follower { dir, positions }
    }

    pub fn dir(&self) -> (r: &String)
        ensures
            r@ == self.directory(),
    {
        &self.dir
    }

    /// Every shard this follower holds a position for, in ascending order.
    pub fn positions(&self) -> (r: Vec<(u32, Position)>)
        requires
            self.wf(),
        ensures
            crate::shard::map::ascending(r@),
            self@ == crate::shard::map::entry_map(r@),
    {
        let ghost list = self.positions.list();
        let mut out: Vec<(u32, Position)> = Vec::new();
        let mut i: usize = 0;
        while i < self.positions.len()
            invariant
                list == self.positions.list(),
                i <= list.len(),
                out@ == list.take(i as int),
            decreases list.len() - i,
        {
            out.push((self.positions.key_at(i), *self.positions.value_at(i)));
            assert(list.take(i as int + 1) =~= list.take(i as int).push(list[i as int]));
            i = i + 1;
        }
        assert(list.take(list.len() as int) =~= list);
        out
    }

    pub fn position(&self, shard: ShardId) -> (r: Position)
        requires
            self.wf(),
        ensures
            r == position_in(self@, shard),
    {
        match self.positions.get(shard.0) {
            Some(p) => *p,
            None => Position { epoch: 0, applied_lsn: 0 },
        }
    }

    /// What this follower needs next for `shard` in `epoch`.
    pub fn need(&self, shard: ShardId, epoch: u64) -> (r: Need)
        requires
            self.wf(),
            position_in(self@, shard).applied_lsn < u64::MAX,
        ensures
            r@ == needs(position_in(self@, shard), epoch),
    {
        let pos = self.position(shard);
        if pos.epoch == 0 && pos.applied_lsn == 0 {
            return Need::Bootstrap { reason: "this follower has no copy of the shard".to_owned() };
        }
        if pos.epoch != epoch {
            let mut reason = "follower is on epoch ".to_owned();
            push_decimal(&mut reason, pos.epoch);
            reason.append(" but the primary is on ");
            push_decimal(&mut reason, epoch);
            reason.append("; a new epoch is a new stream and its LSNs cannot be compared to the old ones");
            return Need::Bootstrap { reason };
        }
        Need::Next(pos.applied_lsn + 1)
    }

    /// Applies transactions to the copy of `shard`, through `disk`. They must continue its stream
    /// without a gap. The answer is the position reached, `None` for no transactions.
    pub fn apply<'a, F: Fn(Durable<'a>) -> Result<(), Error>>(
        &mut self,
        shard: ShardId,
        epoch: u64,
        txns: &'a Vec<StreamTxn>,
        disk: &mut Line<Durable<'a>, Result<(), Error>, F>,
    ) -> (r: Result<Option<Position>, Error>)
        requires
            old(self).wf(),
            position_in(old(self)@, shard).applied_lsn + txns@.len() < u64::MAX,
            forall|d: Durable<'a>| #[trigger] call_requires(old(disk).far(), (d,)),
        ensures
            final(self).wf(),
            final(self).directory() == old(self).directory(),
            final(disk).far() == old(disk).far(),
            goes_on(old(disk).record(), final(disk).record()),
            applied_as(
                position_in(old(self)@, shard),
                shard,
                epoch,
                stream_model(txns@),
                since(old(disk).record(), final(disk).record()),
                r,
            ),
            final(self)@ == (match r {
                Ok(Some(pos)) => old(self)@.insert(shard.0, pos),
                _ => old(self)@,
            }),
    {
        let pos = self.position(shard);
        let r = apply_at(pos, shard, epoch, txns, disk);
        if let Ok(Some(reached)) = &r {
            self.record(shard, *reached);
        }
        r
    }

    /// Installs a snapshot of `shard` that was taken at a position, through `disk`, in the place of
    /// whatever is there.
    pub fn install_snapshot<'a, F: Fn(Durable<'a>) -> Result<(), Error>>(
        &mut self,
        shard: ShardId,
        pos: Position,
        disk: &mut Line<Durable<'a>, Result<(), Error>, F>,
    ) -> (r: Result<(), Error>)
        requires
            old(self).wf(),
            forall|d: Durable<'a>| #[trigger] call_requires(old(disk).far(), (d,)),
        ensures
            final(self).wf(),
            final(self).directory() == old(self).directory(),
            final(disk).far() == old(disk).far(),
            goes_on(old(disk).record(), final(disk).record()),
            installed_as(shard, pos, since(old(disk).record(), final(disk).record()), r),
            final(self)@ == (match r {
                Ok(_) => old(self)@.insert(shard.0, pos),
                Err(_) => old(self)@,
            }),
    {
        let r = install_at(shard, pos, disk);
        if r.is_ok() {
            self.record(shard, pos);
        }
        r
    }

    /// Records a position, once what it stands for is durable: after applying, or after installing
    /// a snapshot taken there.
    pub fn record(&mut self, shard: ShardId, pos: Position)
        requires
            old(self).wf(),
        ensures
            final(self).wf(),
            final(self)@ == old(self)@.insert(shard.0, pos),
            final(self).directory() == old(self).directory(),
    {
        self.positions.insert(shard.0, pos);
    }
}

// ---- applying ----------------------------------------------------------------------------------

/// What is done to the files of a copy. Each is durable once it is done.
pub enum Durable<'a> {
    /// The pages of some transactions are written.
    Write(ShardId, &'a Vec<StreamTxn>),
    /// A snapshot is looked at, apart from the live files.
    Check(ShardId),
    /// The snapshot takes the place of the live files.
    Swap(ShardId),
    /// The position file says this.
    Place(ShardId, Position),
}

/// What was done to the files of a copy, each with how it went.
pub type Deeds<'a> = Seq<(Durable<'a>, Result<(), Error>)>;

/// The position after some transactions.
pub open spec fn reached(epoch: u64, txns: Seq<StreamTxnModel>) -> Position {
    Position { epoch, applied_lsn: txns.last().lsn }
}

/// Whether applying transactions at a position does this to the files and comes to this. Nothing is
/// done where they do not continue the stream. Otherwise their pages are written, and only where
/// that went well is the position placed.
pub open spec fn applied_as(
    pos: Position,
    shard: ShardId,
    epoch: u64,
    txns: Seq<StreamTxnModel>,
    deeds: Deeds,
    r: Result<Option<Position>, Error>,
) -> bool {
    match apply_refusal(pos, shard, epoch, txns) {
        Some(e) => deeds.len() == 0 && (r matches Err(x) && x@ == e),
        None => if txns.len() == 0 {
            deeds.len() == 0 && r == Ok::<Option<Position>, Error>(None)
        } else {
            deeds.len() >= 1 && writes(deeds[0].0, shard, txns) && match deeds[0].1 {
                Err(e) => deeds.len() == 1 && r == Err::<Option<Position>, Error>(e),
                Ok(_) => deeds.len() == 2 && deeds[1].0 == Durable::Place(
                    shard,
                    reached(epoch, txns),
                ) && r == (match deeds[1].1 {
                    Ok(_) => Ok::<Option<Position>, Error>(Some(reached(epoch, txns))),
                    Err(e) => Err(e),
                }),
            }
        },
    }
}

pub open spec fn writes(d: Durable, shard: ShardId, txns: Seq<StreamTxnModel>) -> bool {
    d matches Durable::Write(of, list) && of == shard && stream_model(list@) == txns
}

/// Whether installing a snapshot does this to the files and comes to this: it is checked, then it
/// takes the place of the live files, and then the position is placed. The first failure is the
/// last that is done.
pub open spec fn installed_as(
    shard: ShardId,
    pos: Position,
    deeds: Deeds,
    r: Result<(), Error>,
) -> bool {
    &&& 1 <= deeds.len() <= 3
    &&& deeds[0].0 == Durable::Check(shard)
    &&& deeds.len() >= 2 ==> deeds[1].0 == Durable::Swap(shard)
    &&& deeds.len() >= 3 ==> deeds[2].0 == Durable::Place(shard, pos)
    &&& forall|i: int| 0 <= i < deeds.len() - 1 ==> (#[trigger] deeds[i]).1 is Ok
    &&& r == deeds.last().1
    &&& r is Ok ==> deeds.len() == 3
}

/// Whether transactions may be applied at a position: they must continue the stream without a gap.
/// The answer is the position to place once their pages are durable, `None` for no transactions.
fn continues(pos: Position, shard: ShardId, epoch: u64, txns: &Vec<StreamTxn>) -> (r: Result<
    Option<Position>,
    Error,
>)
    requires
        pos.applied_lsn + txns@.len() < u64::MAX,
    ensures
        match apply_refusal(pos, shard, epoch, stream_model(txns@)) {
            Some(e) => r matches Err(x) && x@ == e,
            None => r == Ok::<Option<Position>, Error>(
                if txns@.len() == 0 {
                    None
                } else {
                    Some(reached(epoch, stream_model(txns@)))
                },
            ),
        },
{
    let ghost model = stream_model(txns@);
    if txns.len() == 0 {
        return Ok(None);
    }
    assert(model[0] == txns@[0]@);
    let fresh = pos.epoch == 0 && pos.applied_lsn == 0;
    if !fresh && pos.epoch != epoch {
        let mut detail = "epoch ".to_owned();
        push_decimal(&mut detail, pos.epoch);
        detail.append(" does not match the primary's ");
        push_decimal(&mut detail, epoch);
        return Err(
            Error::ReplicationGap {
                shard: shard.name(),
                expected: pos.applied_lsn + 1,
                got: txns[0].lsn,
                detail,
            },
        );
    }
    if fresh && txns[0].lsn != 1 {
        return Err(
            Error::ReplicationGap {
                shard: shard.name(),
                expected: 1,
                got: txns[0].lsn,
                detail: "an uninitialised follower can only join a stream at LSN 1".to_owned(),
            },
        );
    }
    let mut i: usize = 0;
    while i < txns.len()
        invariant
            i <= txns@.len(),
            model == stream_model(txns@),
            pos.applied_lsn + txns@.len() < u64::MAX,
            txns@.len() > 0,
            fresh == pos.is_fresh(),
            fresh || pos.epoch == epoch,
            fresh ==> model[0].lsn == 1,
            first_misplaced(model, pos.applied_lsn, i as int) == first_misplaced(
                model,
                pos.applied_lsn,
                0,
            ),
        decreases txns@.len() - i,
    {
        assert(model[i as int] == txns@[i as int]@);
        let expected: u64 = pos.applied_lsn + 1 + i as u64;
        if txns[i].lsn != expected {
            return Err(
                Error::ReplicationGap {
                    shard: shard.name(),
                    expected,
                    got: txns[i].lsn,
                    detail: "the stream is not contiguous".to_owned(),
                },
            );
        }
        i = i + 1;
    }
    assert(model.last() == txns@.last()@);
    Ok(Some(Position { epoch, applied_lsn: txns[txns.len() - 1].lsn }))
}

/// Applies transactions to a copy that has reached a position, through `disk`.
pub fn apply_at<'a, F: Fn(Durable<'a>) -> Result<(), Error>>(
    pos: Position,
    shard: ShardId,
    epoch: u64,
    txns: &'a Vec<StreamTxn>,
    disk: &mut Line<Durable<'a>, Result<(), Error>, F>,
) -> (r: Result<Option<Position>, Error>)
    requires
        pos.applied_lsn + txns@.len() < u64::MAX,
        forall|d: Durable<'a>| #[trigger] call_requires(old(disk).far(), (d,)),
    ensures
        final(disk).far() == old(disk).far(),
        goes_on(old(disk).record(), final(disk).record()),
        applied_as(
            pos,
            shard,
            epoch,
            stream_model(txns@),
            since(old(disk).record(), final(disk).record()),
            r,
        ),
{
    let ghost first = disk.record();
    proof {
        lemma_nothing_added(first);
    }
    let next = match continues(pos, shard, epoch, txns) {
        Err(e) => {
            return Err(e);
        },
        Ok(None) => {
            return Ok(None);
        },
        Ok(Some(next)) => next,
    };
    let written = disk.ask(Durable::Write(shard, txns));
    let ghost one = seq![(Durable::Write(shard, txns), written)];
    proof {
        assert(disk.record() =~= first + one);
        lemma_added(first, one);
    }
    if let Err(e) = written {
        return Err(e);
    }
    let placed = disk.ask(Durable::Place(shard, next));
    proof {
        let two = one.push((Durable::Place(shard, next), placed));
        assert(disk.record() =~= first + two);
        lemma_added(first, two);
    }
    match placed {
        Ok(_) => Ok(Some(next)),
        Err(e) => Err(e),
    }
}

/// Installs a snapshot that was taken at a position, through `disk`.
pub fn install_at<'a, F: Fn(Durable<'a>) -> Result<(), Error>>(
    shard: ShardId,
    pos: Position,
    disk: &mut Line<Durable<'a>, Result<(), Error>, F>,
) -> (r: Result<(), Error>)
    requires
        forall|d: Durable<'a>| #[trigger] call_requires(old(disk).far(), (d,)),
    ensures
        final(disk).far() == old(disk).far(),
        goes_on(old(disk).record(), final(disk).record()),
        installed_as(shard, pos, since(old(disk).record(), final(disk).record()), r),
{
    let ghost first = disk.record();
    let checked = disk.ask(Durable::Check(shard));
    let ghost one = seq![(Durable::Check(shard), checked)];
    proof {
        assert(disk.record() =~= first + one);
        lemma_added(first, one);
    }
    if checked.is_err() {
        return checked;
    }
    let swapped = disk.ask(Durable::Swap(shard));
    let ghost two = one.push((Durable::Swap(shard), swapped));
    proof {
        assert(disk.record() =~= first + two);
        lemma_added(first, two);
    }
    if swapped.is_err() {
        return swapped;
    }
    let placed = disk.ask(Durable::Place(shard, pos));
    proof {
        let three = two.push((Durable::Place(shard, pos), placed));
        assert(disk.record() =~= first + three);
        lemma_added(first, three);
    }
    placed
}

// ---- laws --------------------------------------------------------------------------------------

/// Pages are durable before the position moves: whatever position an application of transactions
/// places, it has written just before, and well, the transactions up to there.
pub proof fn law_pages_before_position(
    pos: Position,
    shard: ShardId,
    epoch: u64,
    txns: Seq<StreamTxnModel>,
    deeds: Deeds,
    r: Result<Option<Position>, Error>,
    i: int,
)
    requires
        applied_as(pos, shard, epoch, txns, deeds, r),
        0 <= i < deeds.len(),
        deeds[i].0 is Place,
    ensures
        i > 0,
        writes(deeds[i - 1].0, shard, txns),
        deeds[i - 1].1 is Ok,
        deeds[i].0 == Durable::Place(shard, reached(epoch, txns)),
{
}

/// A snapshot is checked and in its place before the position moves.
pub proof fn law_snapshot_before_position(
    shard: ShardId,
    pos: Position,
    deeds: Deeds,
    r: Result<(), Error>,
    i: int,
)
    requires
        installed_as(shard, pos, deeds, r),
        0 <= i < deeds.len(),
        deeds[i].0 is Place,
    ensures
        i == 2,
        deeds[0].0 == Durable::Check(shard) && deeds[0].1 is Ok,
        deeds[1].0 == Durable::Swap(shard) && deeds[1].1 is Ok,
{
    assert(deeds[0].1 is Ok);
    assert(deeds.len() >= 2 ==> deeds[1].0 is Swap);
    if i == 2 {
        assert(deeds[1].1 is Ok);
    }
}

/// What is written to a position file is read back from it.
pub proof fn law_position_reads_back(pos: Position)
    ensures
        read_position(position_text(pos)) == pos,
{
    lemma_words();
    lemma_decimal_plain(pos.epoch as nat);
    lemma_decimal_plain(pos.applied_lsn as nat);
    lemma_decimal_reads_back(pos.epoch as nat);
    lemma_decimal_reads_back(pos.applied_lsn as nat);
    let first = "epoch"@ + seq!['='] + decimal(pos.epoch as nat);
    let second = "lsn"@ + seq!['='] + decimal(pos.applied_lsn as nat);
    lemma_pair_line("epoch"@, decimal(pos.epoch as nat), second + seq!['\n'] + Seq::empty());
    lemma_pair_line("lsn"@, decimal(pos.applied_lsn as nat), Seq::empty());
    let all = lines(position_text(pos));
    assert(all =~= seq![first, second]);
    assert(with_position_lines(all, 0) == Position::origin());
    assert(with_position_lines(all, 1) == with_position_line(with_position_lines(all, 0), all[0]));
    assert(with_position_lines(all, 2) == with_position_line(with_position_lines(all, 1), all[1]));
}

proof fn lemma_none_misplaced(txns: Seq<StreamTxnModel>, start: Lsn, i: int)
    requires
        0 <= i,
        first_misplaced(txns, start, i) is None,
    ensures
        forall|k: int| i <= k < txns.len() ==> (#[trigger] txns[k]).lsn == start + 1 + k,
    decreases txns.len() - i,
{
    if i < txns.len() {
        lemma_none_misplaced(txns, start, i + 1);
    }
}

/// Nothing is applied across a gap: transactions that are not refused are in the follower's epoch
/// (or it has none yet) and carry on, one by one, from the position it is at.
pub proof fn law_applied_transactions_are_contiguous(
    pos: Position,
    shard: ShardId,
    epoch: u64,
    txns: Seq<StreamTxnModel>,
)
    requires
        apply_refusal(pos, shard, epoch, txns) is None,
        txns.len() > 0,
    ensures
        pos.is_fresh() || pos.epoch == epoch,
        forall|k: int| 0 <= k < txns.len() ==> (#[trigger] txns[k]).lsn == pos.applied_lsn + 1 + k,
        txns.last().lsn == pos.applied_lsn + txns.len(),
{
    lemma_none_misplaced(txns, pos.applied_lsn, 0);
}

/// A follower that needs a position accepts the stream from there: what it asks for next is what
/// it applies next.
pub proof fn law_need_matches_apply(
    pos: Position,
    shard: ShardId,
    epoch: u64,
    txns: Seq<StreamTxnModel>,
)
    requires
        needs(pos, epoch) is Next,
        pos.applied_lsn < u64::MAX,
        txns.len() > 0,
        forall|k: int| 0 <= k < txns.len() ==> (#[trigger] txns[k]).lsn == needs(
            pos,
            epoch,
        )->Next_0 + k,
    ensures
        apply_refusal(pos, shard, epoch, txns) is None,
{
    lemma_all_placed(txns, pos.applied_lsn, 0);
}

/// A follower keeps up: whatever a primary's unbroken log serves from just past a follower's
/// position, in the follower's epoch or to one that has none yet, the follower applies.
pub proof fn law_served_frames_are_applied(
    log: Seq<StreamTxnModel>,
    pos: Position,
    shard: ShardId,
    epoch: u64,
    max: usize,
    served: Seq<StreamTxnModel>,
)
    requires
        dense(log),
        max > 0,
        pos.is_fresh() || pos.epoch == epoch,
        pos.applied_lsn < u64::MAX,
        answer(Some(log), (pos.applied_lsn + 1) as u64, max) == ServedModel::Frames(served),
    ensures
        apply_refusal(pos, shard, epoch, served) is None,
        served.last().lsn == pos.applied_lsn + served.len(),
{
    law_served_frames_have_no_gap(log, (pos.applied_lsn + 1) as u64, max);
    lemma_all_placed(served, pos.applied_lsn, 0);
    assert(served[served.len() - 1].lsn == served[0].lsn + (served.len() - 1));
}

proof fn lemma_all_placed(txns: Seq<StreamTxnModel>, start: Lsn, i: int)
    requires
        0 <= i,
        forall|k: int| 0 <= k < txns.len() ==> (#[trigger] txns[k]).lsn == start + 1 + k,
    ensures
        first_misplaced(txns, start, i) is None,
    decreases txns.len() - i,
{
    if i < txns.len() {
        assert(txns[i].lsn == start + 1 + i);
        lemma_all_placed(txns, start, i + 1);
    }
}

} // verus!
