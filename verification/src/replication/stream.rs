//! Stream positions: how a follower knows it has everything, in order.
//!
//! A position is an epoch and an LSN. LSNs are dense within an epoch, so a follower that sees a
//! jump knows that frames were lost. On a clean shutdown the position is written down and the next
//! run continues the epoch; after any other end it cannot be trusted, so the epoch is bumped, which
//! forces every follower to start over from a snapshot.

use vstd::prelude::*;

use crate::error::{Error, ErrorModel};
use crate::lines::{
    after_prefix, lemma_decimal_plain, lemma_first_line, lemma_first_line_of, lemma_spaceless_join,
    lemma_split_pair, lemma_trim_spaceless, lines, lines_of, spaceless, split_at_first, split_once, strip_prefix, trim, trimmed,
};
use crate::shard::map::{ascending, entry_map, ShardMap};
use crate::shard::ShardId;
use crate::text::{
    decimal, lemma_decimal_reads_back, parse_u32, parse_u64, push_decimal,
    same, unsigned_text, views,
};
use crate::vfs::{CommittedTxn, TxnModel};

verus! {

/// Position within one shard's stream. Dense within an epoch.
pub type Lsn = u64;

/// A committed transaction with its position.
#[derive(Debug)]
pub struct StreamTxn {
    pub lsn: Lsn,
    pub txn: CommittedTxn,
}

/// What a [`StreamTxn`] holds.
pub ghost struct StreamTxnModel {
    pub lsn: Lsn,
    pub txn: TxnModel,
}

impl View for StreamTxn {
    type V = StreamTxnModel;

    open spec fn view(&self) -> StreamTxnModel {
        StreamTxnModel { lsn: self.lsn, txn: self.txn@ }
    }
}

impl StreamTxn {
    /// The same transaction again.
    pub fn copy(&self) -> (r: StreamTxn)
        ensures
            r@ == self@,
    {
        StreamTxn { lsn: self.lsn, txn: self.txn.copy() }
    }
}

pub open spec fn stream_model(txns: Seq<StreamTxn>) -> Seq<StreamTxnModel> {
    txns.map_values(|t: StreamTxn| t@)
}

/// The primary's position in every shard's stream.
#[derive(Debug)]
pub struct StreamPositions {
    epoch: u64,
    /// Next LSN to hand out, per shard.
    next: ShardMap<Lsn>,
    /// Whether the last run shut down cleanly.
    clean: bool,
}

/// What a [`StreamPositions`] holds.
pub ghost struct PositionsModel {
    pub epoch: u64,
    pub next: Map<u32, Lsn>,
    pub clean: bool,
}

impl View for StreamPositions {
    type V = PositionsModel;

    closed spec fn view(&self) -> PositionsModel {
        PositionsModel { epoch: self.epoch, next: self.next@, clean: self.clean }
    }
}

impl PositionsModel {
    /// Positions before the first run.
    pub open spec fn fresh() -> PositionsModel {
        PositionsModel { epoch: 0, next: Map::empty(), clean: false }
    }

    /// The next LSN of a shard.
    pub open spec fn next_of(self, shard: ShardId) -> Lsn {
        if self.next.dom().contains(shard.0) {
            self.next[shard.0]
        } else {
            1
        }
    }

    /// Positions as a new run starts with them: after a clean shutdown those that were written
    /// down, otherwise a new epoch without any. Either way the run is not clean until it says so.
    pub open spec fn started(self) -> PositionsModel {
        if self.clean {
            PositionsModel { clean: false, ..self }
        } else {
            PositionsModel { epoch: (self.epoch + 1) as u64, next: Map::empty(), clean: false }
        }
    }
}

// ---- the file ----------------------------------------------------------------------------------

/// The first line of the file.
pub open spec fn header() -> Seq<char> {
    "shardlite-stream 1"@
}

pub open spec fn boolean_text(b: bool) -> Seq<char> {
    if b {
        "true"@
    } else {
        "false"@
    }
}

pub open spec fn next_line(shard: u32, next: Lsn) -> Seq<char> {
    "next."@ + decimal(shard as nat) + seq!['='] + decimal(next as nat)
}

/// The lines for the shards from `i` on.
pub open spec fn next_lines(entries: Seq<(u32, Lsn)>, i: int) -> Seq<char>
    decreases entries.len() - i,
{
    if i < 0 || i >= entries.len() {
        Seq::empty()
    } else {
        next_line(entries[i].0, entries[i].1) + seq!['\n'] + next_lines(entries, i + 1)
    }
}

/// The file that positions are written to, shards in ascending order.
pub open spec fn positions_text(epoch: u64, clean: bool, entries: Seq<(u32, Lsn)>) -> Seq<char> {
    header() + seq!['\n'] + (("epoch"@ + seq!['='] + decimal(epoch as nat)) + seq!['\n'] + (("clean"@
        + seq!['='] + boolean_text(clean)) + seq!['\n'] + next_lines(entries, 0)))
}

/// What one line of the file says.
pub open spec fn with_line(p: PositionsModel, line: Seq<char>) -> PositionsModel {
    match split_at_first(line, '=') {
        None => p,
        Some((k, v)) => {
            let key = trimmed(k);
            let value = trimmed(v);
            if key == "epoch"@ {
                PositionsModel {
                    epoch: match unsigned_text(value) {
                        Some(n) => if n <= u64::MAX {
                            n as u64
                        } else {
                            0
                        },
                        None => 0,
                    },
                    ..p
                }
            } else if key == "clean"@ {
                PositionsModel { clean: value == "true"@, ..p }
            } else {
                match after_prefix(key, "next."@) {
                    None => p,
                    Some(id) => match (unsigned_text(id), unsigned_text(value)) {
                        (Some(shard), Some(next)) => if shard <= u32::MAX && next <= u64::MAX {
                            PositionsModel {
                                next: p.next.insert(shard as u32, next as u64),
                                ..p
                            }
                        } else {
                            p
                        },
                        _ => p,
                    },
                }
            }
        },
    }
}

/// What the first `n` lines of the file say, after its header.
pub open spec fn with_lines(all: Seq<Seq<char>>, n: nat) -> PositionsModel
    decreases n,
{
    if n <= 1 || n > all.len() {
        PositionsModel::fresh()
    } else {
        with_line(with_lines(all, (n - 1) as nat), all[n - 1])
    }
}

pub open spec fn first_line(all: Seq<Seq<char>>) -> Seq<char> {
    if all.len() > 0 {
        all[0]
    } else {
        ""@
    }
}

/// What the file says; `None` where it does not start with the header.
pub open spec fn read_positions(text: Seq<char>) -> Option<PositionsModel> {
    let all = lines(text);
    if first_line(all) == header() {
        Some(with_lines(all, all.len()))
    } else {
        None
    }
}

pub open spec fn header_refusal(path: Seq<char>, found: Seq<char>) -> Seq<char> {
    path + " has header `"@ + found + "`, expected `"@ + header() + "`"@
}

/// What a run finds: nothing, or a file.
pub open spec fn found(text: Option<&str>) -> Option<PositionsModel> {
    match text {
        None => Some(PositionsModel::fresh()),
        Some(t) => read_positions(t@),
    }
}

impl StreamPositions {
    pub closed spec fn wf(&self) -> bool {
        self.next.wf()
    }

    /// The shards with a position, in ascending order, and their next LSNs.
    pub closed spec fn entries(&self) -> Seq<(u32, Lsn)> {
        self.next.list()
    }

    /// Starts a run from the contents of the positions file, `None` where there is none. A run
    /// that does not follow a clean shutdown starts a new epoch.
    pub fn load_or_init(path: &str, text: Option<&str>) -> (r: Result<StreamPositions, Error>)
        requires
            found(text) matches Some(p) ==> p.clean || p.epoch < u64::MAX,
        ensures
            match found(text) {
                Some(p) => r matches Ok(me) && me.wf() && me@ == p.started(),
                None => r matches Err(e) && e@ == ErrorModel::Manifest(
                    header_refusal(path@, first_line(lines(text->0@))),
                ),
            },
    {
        let mut p = match text {
            None => StreamPositions { epoch: 0, next: ShardMap::new(), clean: false },
            Some(t) => match Self::read(path, t) {
                Ok(p) => p,
                Err(e) => {
                    return Err(e);
                },
            },
        };
        if !p.clean {
            p.epoch = p.epoch + 1;
            p.next = ShardMap::new();
        }
        p.clean = false;
        Ok(p)
    }

    /// Whether a run can be started from the contents of the positions file: not after an unclean
    /// one in the last epoch there is.
    pub fn may_start(text: Option<&str>) -> (r: bool)
        ensures
            r == (found(text) matches Some(p) ==> p.clean || p.epoch < u64::MAX),
    {
        match text {
            None => true,
            Some(t) => match Self::read("", t) {
                Ok(p) => p.clean || p.epoch < u64::MAX,
                Err(_) => true,
            },
        }
    }

    pub fn epoch(&self) -> (r: u64)
        ensures
            r == self@.epoch,
    {
        self.epoch
    }

    /// Hand out `count` consecutive positions for `shard`; the first of them is returned.
    pub fn allocate(&mut self, shard: ShardId, count: usize) -> (r: Lsn)
        requires
            old(self).wf(),
            old(self)@.next_of(shard) + count <= u64::MAX,
        ensures
            final(self).wf(),
            r == old(self)@.next_of(shard),
            final(self)@ == allocated(old(self)@, shard, count as nat),
    {
        let start: u64 = match self.next.get(shard.0) {
            Some(n) => *n,
            None => 1,
        };
        self.next.insert(shard.0, start + count as u64);
        start
    }

    /// Hand back `count` positions that were allocated and never shipped.
    pub fn rollback(&mut self, shard: ShardId, count: usize)
        requires
            old(self).wf(),
        ensures
            final(self).wf(),
            final(self)@ == returned(old(self)@, shard, count as nat),
    {
        let back: u64 = match self.next.get(shard.0) {
            None => {
                return;
            },
            Some(n) => {
                if *n > count as u64 {
                    *n - count as u64
                } else {
                    1
                }
            },
        };
        self.next.insert(shard.0, back);
    }

    /// Last position handed out for `shard`, or 0 if none.
    pub fn last_allocated(&self, shard: ShardId) -> (r: Lsn)
        requires
            self.wf(),
        ensures
            r == (if self@.next.dom().contains(shard.0) && self@.next[shard.0] > 0 {
                (self@.next[shard.0] - 1) as u64
            } else {
                0
            }),
    {
        match self.next.get(shard.0) {
            Some(n) => if *n > 0 {
                *n - 1
            } else {
                0
            },
            None => 0,
        }
    }

    /// Record a clean shutdown, so that the next run continues this epoch. The text is to be
    /// written to the positions file.
    pub fn mark_clean(&mut self) -> (r: String)
        requires
            old(self).wf(),
        ensures
            final(self).wf(),
            final(self)@ == (PositionsModel { clean: true, ..old(self)@ }),
            final(self).entries() == old(self).entries(),
            r@ == positions_text(final(self)@.epoch, true, final(self).entries()),
    {
        self.clean = true;
        self.persist()
    }

    /// The text of the positions file.
    pub fn persist(&self) -> (r: String)
        requires
            self.wf(),
        ensures
            r@ == positions_text(self@.epoch, self@.clean, self.entries()),
            ascending(self.entries()),
            self@.next == entry_map(self.entries()),
    {
        let mut out = "shardlite-stream 1".to_owned();
        out.push('\n');
        out.append("epoch");
        out.push('=');
        push_decimal(&mut out, self.epoch);
        out.push('\n');
        out.append("clean");
        out.push('=');
        if self.clean {
            out.append("true");
        } else {
            out.append("false");
        }
        out.push('\n');
        let ghost head = out@;
        let ghost all = self.next.list();
        let mut i: usize = 0;
        while i < self.next.len()
            invariant
                i <= all.len(),
                all == self.next.list(),
                out@ + next_lines(all, i as int) == head + next_lines(all, 0),
            decreases all.len() - i,
        {
            let ghost before = out@;
            out.append("next.");
            push_decimal(&mut out, self.next.key_at(i) as u64);
            out.push('=');
            push_decimal(&mut out, *self.next.value_at(i));
            out.push('\n');
            proof {
                assert(out@ + next_lines(all, i + 1) =~= before + next_lines(all, i as int));
            }
            i = i + 1;
        }
        assert(out@ + next_lines(all, i as int) =~= out@);
        assert(head + next_lines(all, 0) =~= positions_text(self.epoch, self.clean, all));
        out
    }

    /// Reads the positions file.
    #[verifier::loop_isolation(false)]
    fn read(path: &str, text: &str) -> (r: Result<StreamPositions, Error>)
        ensures
            match read_positions(text@) {
                Some(p) => r matches Ok(me) && me.wf() && me@ == p,
                None => r matches Err(e) && e@ == ErrorModel::Manifest(
                    header_refusal(path@, first_line(lines(text@))),
                ),
            },
    {
        let all = lines_of(text);
        let ghost model = lines(text@);
        assert(views(all@).len() == all@.len());
        let matches = all.len() > 0 && {
            assert(views(all@)[0] == all@[0]@);
            same(all[0].as_str(), "shardlite-stream 1")
        };
        if !matches {
            proof {
                if all@.len() == 0 {
                    reveal_strlit("");
                    reveal_strlit("shardlite-stream 1");
                    assert(""@.len() == 0);
                    assert("shardlite-stream 1"@.len() == 18);
                }
            }
            let mut m = path.to_owned();
            m.append(" has header `");
            if all.len() > 0 {
                m.append(all[0].as_str());
            } else {
                m.append("");
            }
            m.append("`, expected `");
            m.append("shardlite-stream 1");
            m.append("`");
            return Err(Error::Manifest(m));
        }
        let mut p = StreamPositions { epoch: 0, next: ShardMap::new(), clean: false };
        let mut i: usize = 1;
        while i < all.len()
            invariant
                1 <= i <= all@.len(),
                p.next.wf(),
                p@ == with_lines(model, i as nat),
            decreases all@.len() - i,
        {
            assert(model[i as int] == all@[i as int]@);
            p.read_line(all[i].as_str());
            i = i + 1;
        }
        Ok(p)
    }

    fn read_line(&mut self, line: &str)
        requires
            old(self).wf(),
        ensures
            final(self).wf(),
            final(self)@ == with_line(old(self)@, line@),
    {
        let (k, v) = match split_once(line, '=') {
            None => {
                return;
            },
            Some(p) => p,
        };
        let key = trim(k.as_str());
        let value = trim(v.as_str());
        if same(key.as_str(), "epoch") {
            self.epoch = match parse_u64(value.as_str()) {
                Some(n) => n,
                None => 0,
            };
        } else if same(key.as_str(), "clean") {
            self.clean = same(value.as_str(), "true");
        } else {
            match strip_prefix(key.as_str(), "next.") {
                None => {},
                Some(id) => match (parse_u32(id.as_str()), parse_u64(value.as_str())) {
                    (Some(shard), Some(next)) => {
                        self.next.insert(shard, next);
                    },
                    _ => {},
                },
            }
        }
    }
}

// ---- laws --------------------------------------------------------------------------------------

proof fn lemma_header_plain()
    ensures
        forall|k: int| 0 <= k < "shardlite-stream 1"@.len() ==> #[trigger] "shardlite-stream 1"@[k] != '\n' && "shardlite-stream 1"@[k]
            != '\r' && "shardlite-stream 1"@[k] != '=',
        "shardlite-stream 1"@.len() == 18,
{
    reveal_strlit("shardlite-stream 1");
    let s = "shardlite-stream 1"@;
    assert forall|k: int| 0 <= k < s.len() implies #[trigger] s[k] != '\n' && s[k] != '\r' && s[k]
        != '=' by {
        if k == 0 {
            assert(s[0] == 's');
        }
        if k == 1 {
            assert(s[1] == 'h');
        }
        if k == 2 {
            assert(s[2] == 'a');
        }
        if k == 3 {
            assert(s[3] == 'r');
        }
        if k == 4 {
            assert(s[4] == 'd');
        }
        if k == 5 {
            assert(s[5] == 'l');
        }
        if k == 6 {
            assert(s[6] == 'i');
        }
        if k == 7 {
            assert(s[7] == 't');
        }
        if k == 8 {
            assert(s[8] == 'e');
        }
        if k == 9 {
            assert(s[9] == '-');
        }
        if k == 10 {
            assert(s[10] == 's');
        }
        if k == 11 {
            assert(s[11] == 't');
        }
        if k == 12 {
            assert(s[12] == 'r');
        }
        if k == 13 {
            assert(s[13] == 'e');
        }
        if k == 14 {
            assert(s[14] == 'a');
        }
        if k == 15 {
            assert(s[15] == 'm');
        }
        if k == 16 {
            assert(s[16] == ' ');
        }
        if k == 17 {
            assert(s[17] == '1');
        }
    }
}

/// The words of the file, letter by letter.
proof fn lemma_words()
    ensures
        spaceless("epoch"@),
        spaceless("clean"@),
        spaceless("next."@),
        spaceless("true"@),
        spaceless("false"@),
        forall|k: int| 0 <= k < 5 ==> #[trigger] "epoch"@[k] != '=',
        forall|k: int| 0 <= k < 5 ==> #[trigger] "clean"@[k] != '=',
        forall|k: int| 0 <= k < 5 ==> #[trigger] "next."@[k] != '=',
        "epoch"@.len() == 5,
        "clean"@.len() == 5,
        "next."@.len() == 5,
        "epoch"@ != "clean"@,
        "true"@ != "false"@,
        "next."@[0] == 'n',
        "epoch"@[0] == 'e',
        "clean"@[0] == 'c',
{
    reveal_strlit("epoch");
    reveal_strlit("clean");
    reveal_strlit("next.");
    reveal_strlit("true");
    reveal_strlit("false");
    assert forall|k: int| 0 <= k < 5 implies !crate::lines::is_space(#[trigger] "epoch"@[k])
        && "epoch"@[k] != '=' by {
        if k == 0 {
            assert("epoch"@[0] == 'e');
        }
        if k == 1 {
            assert("epoch"@[1] == 'p');
        }
        if k == 2 {
            assert("epoch"@[2] == 'o');
        }
        if k == 3 {
            assert("epoch"@[3] == 'c');
        }
        if k == 4 {
            assert("epoch"@[4] == 'h');
        }
    }
    assert forall|k: int| 0 <= k < 5 implies !crate::lines::is_space(#[trigger] "clean"@[k])
        && "clean"@[k] != '=' by {
        if k == 0 {
            assert("clean"@[0] == 'c');
        }
        if k == 1 {
            assert("clean"@[1] == 'l');
        }
        if k == 2 {
            assert("clean"@[2] == 'e');
        }
        if k == 3 {
            assert("clean"@[3] == 'a');
        }
        if k == 4 {
            assert("clean"@[4] == 'n');
        }
    }
    assert forall|k: int| 0 <= k < 5 implies !crate::lines::is_space(#[trigger] "next."@[k])
        && "next."@[k] != '=' by {
        if k == 0 {
            assert("next."@[0] == 'n');
        }
        if k == 1 {
            assert("next."@[1] == 'e');
        }
        if k == 2 {
            assert("next."@[2] == 'x');
        }
        if k == 3 {
            assert("next."@[3] == 't');
        }
        if k == 4 {
            assert("next."@[4] == '.');
        }
    }
    assert forall|k: int| 0 <= k < 4 implies !crate::lines::is_space(
        #[trigger] "true"@[k],
    ) by {
        if k == 0 {
            assert("true"@[0] == 't');
        }
        if k == 1 {
            assert("true"@[1] == 'r');
        }
        if k == 2 {
            assert("true"@[2] == 'u');
        }
        if k == 3 {
            assert("true"@[3] == 'e');
        }
    }
    assert forall|k: int| 0 <= k < 5 implies !crate::lines::is_space(
        #[trigger] "false"@[k],
    ) by {
        if k == 0 {
            assert("false"@[0] == 'f');
        }
        if k == 1 {
            assert("false"@[1] == 'a');
        }
        if k == 2 {
            assert("false"@[2] == 'l');
        }
        if k == 3 {
            assert("false"@[3] == 's');
        }
        if k == 4 {
            assert("false"@[4] == 'e');
        }
    }
    assert("epoch"@[0] == 'e');
    assert("clean"@[0] == 'c');
    assert("next."@[0] == 'n');
    assert("true"@.len() == 4);
    assert("false"@.len() == 5);
}

proof fn lemma_next_line(p: PositionsModel, shard: u32, next: Lsn)
    ensures
        spaceless(next_line(shard, next)),
        with_line(p, next_line(shard, next)) == (PositionsModel {
            next: p.next.insert(shard, next),
            ..p
        }),
{
    lemma_words();
    lemma_decimal_plain(shard as nat);
    lemma_decimal_plain(next as nat);
    lemma_decimal_reads_back(shard as nat);
    lemma_decimal_reads_back(next as nat);
    let key = "next."@ + decimal(shard as nat);
    let value = decimal(next as nat);
    lemma_spaceless_join("next."@, decimal(shard as nat));
    lemma_spaceless_join(key, value);
    assert forall|k: int| 0 <= k < key.len() implies #[trigger] key[k] != '=' by {
        if k < 5 {
            assert(key[k] == "next."@[k]);
        } else {
            assert(key[k] == decimal(shard as nat)[k - 5]);
        }
    }
    lemma_split_pair(key, value, '=');
    lemma_trim_spaceless(key);
    lemma_trim_spaceless(value);
    assert(key[0] == 'n');
    assert(key.subrange(0, 5) =~= "next."@);
    assert(key.subrange(5, key.len() as int) =~= decimal(shard as nat));
}

proof fn lemma_reads_next_lines(
    all: Seq<Seq<char>>,
    entries: Seq<(u32, Lsn)>,
    i: int,
    at: nat,
    p: PositionsModel,
)
    requires
        0 <= i <= entries.len(),
        1 <= at <= all.len(),
        all.skip(at as int) == lines(next_lines(entries, i)),
        with_lines(all, at) == p,
        p.next == entry_map(entries.take(i)),
    ensures
        with_lines(all, all.len()) == (PositionsModel { next: entry_map(entries), ..p }),
    decreases entries.len() - i,
{
    if i == entries.len() {
        assert(all.skip(at as int).len() == 0);
        assert(entries.take(i) =~= entries);
    } else {
        let line = next_line(entries[i].0, entries[i].1);
        lemma_next_line(p, entries[i].0, entries[i].1);
        lemma_first_line(line, next_lines(entries, i + 1));
        assert(all.skip(at as int).len() == all.len() - at);
        assert((seq![line] + lines(next_lines(entries, i + 1))).len() >= 1);
        assert((seq![line] + lines(next_lines(entries, i + 1)))[0] == line);
        assert(all.skip(at as int)[0] == line);
        assert(all[at as int] == line);
        let more = with_line(p, line);
        assert(with_lines(all, at + 1) == more);
        assert(entries.take(i + 1).drop_last() =~= entries.take(i));
        assert(entries.take(i + 1).last() == entries[i]);
        assert(all.skip(at as int + 1) =~= all.skip(at as int).subrange(
            1,
            all.skip(at as int).len() as int,
        ));
        assert((seq![line] + lines(next_lines(entries, i + 1))).subrange(
            1,
            1 + lines(next_lines(entries, i + 1)).len() as int,
        ) =~= lines(next_lines(entries, i + 1)));
        lemma_reads_next_lines(all, entries, i + 1, at + 1, more);
    }
}

/// What is written to the positions file is read back from it.
pub proof fn law_positions_read_back(epoch: u64, clean: bool, entries: Seq<(u32, Lsn)>)
    ensures
        read_positions(positions_text(epoch, clean, entries)) == Some(
            PositionsModel { epoch, next: entry_map(entries), clean },
        ),
{
    lemma_words();
    lemma_header_plain();
    lemma_decimal_plain(epoch as nat);
    lemma_decimal_reads_back(epoch as nat);
    let text = positions_text(epoch, clean, entries);
    let first = "epoch"@ + seq!['='] + decimal(epoch as nat);
    let second = "clean"@ + seq!['='] + boolean_text(clean);
    let rest = next_lines(entries, 0);
    lemma_spaceless_join("epoch"@, decimal(epoch as nat));
    lemma_spaceless_join("clean"@, boolean_text(clean));
    lemma_first_line_of(header(), first + seq!['\n'] + (second + seq!['\n'] + rest));
    lemma_first_line(first, second + seq!['\n'] + rest);
    lemma_first_line(second, rest);
    let all = lines(text);
    assert(all =~= seq![header(), first, second] + lines(rest));
    assert(all[0] == header());
    assert(all[1] == first);
    assert(all[2] == second);
    lemma_split_pair("epoch"@, decimal(epoch as nat), '=');
    lemma_split_pair("clean"@, boolean_text(clean), '=');
    lemma_trim_spaceless("epoch"@);
    lemma_trim_spaceless("clean"@);
    lemma_trim_spaceless(decimal(epoch as nat));
    lemma_trim_spaceless(boolean_text(clean));
    assert(with_lines(all, 1) == PositionsModel::fresh());
    assert(with_lines(all, 2) == with_line(with_lines(all, 1), first));
    assert(with_lines(all, 3) == with_line(with_lines(all, 2), second));
    let p = PositionsModel { epoch, next: Map::empty(), clean };
    assert(with_lines(all, 3) == p);
    assert(all.skip(3) =~= lines(rest));
    assert(entries.take(0) =~= Seq::empty());
    lemma_reads_next_lines(all, entries, 0, 3, p);
}

/// A run that follows a clean shutdown continues: same epoch, same positions. A run that follows
/// anything else starts the next epoch, in which every shard's stream begins again at 1.
pub proof fn law_restart(
    epoch: u64,
    entries: Seq<(u32, Lsn)>,
    shard: ShardId,
)
    requires
        epoch < u64::MAX,
    ensures
        ({
            let p = read_positions(positions_text(epoch, true, entries))->0.started();
            p.epoch == epoch && p.next == entry_map(entries)
        }),
        ({
            let p = read_positions(positions_text(epoch, false, entries))->0.started();
            p.epoch == epoch + 1 && p.next_of(shard) == 1
        }),
{
    law_positions_read_back(epoch, true, entries);
    law_positions_read_back(epoch, false, entries);
}

/// The positions after handing out `count` for a shard.
pub open spec fn allocated(p: PositionsModel, shard: ShardId, count: nat) -> PositionsModel {
    PositionsModel { next: p.next.insert(shard.0, (p.next_of(shard) + count) as u64), ..p }
}

/// The positions after handing back `count` for a shard.
pub open spec fn returned(p: PositionsModel, shard: ShardId, count: nat) -> PositionsModel {
    if p.next.dom().contains(shard.0) {
        PositionsModel {
            next: p.next.insert(
                shard.0,
                if p.next[shard.0] > count {
                    (p.next[shard.0] - count) as u64
                } else {
                    1
                },
            ),
            ..p
        }
    } else {
        p
    }
}

/// Positions are dense: two allocations in a row hand out neighbouring ranges, and another shard's
/// stream is left alone.
pub proof fn law_allocation_is_dense(
    p: PositionsModel,
    shard: ShardId,
    other: ShardId,
    count: nat,
)
    requires
        p.next_of(shard) + count <= u64::MAX,
    ensures
        allocated(p, shard, count).next_of(shard) == p.next_of(shard) + count,
        other != shard ==> allocated(p, shard, count).next_of(other) == p.next_of(other),
{
}

/// A refused batch leaves no hole: positions that are handed back are handed out again.
pub proof fn law_rollback_undoes_allocation(p: PositionsModel, shard: ShardId, count: nat)
    requires
        p.next_of(shard) >= 1,
        p.next_of(shard) + count <= u64::MAX,
    ensures
        returned(allocated(p, shard, count), shard, count).next_of(shard) == p.next_of(shard),
{
}

} // verus!
