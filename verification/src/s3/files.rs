//! The databases in a bucket as files of SQLite.
//!
//! A snapshot is opened in place: the reads of its pages are served out of the bucket, and nothing
//! else about it can change. It is opened either for reading alone, or under a log that is a local
//! file, which takes the writes. This module says which of the files that SQLite asks for are in a
//! bucket, and what it is answered about one.

use vstd::prelude::*;

use crate::text::{decimal, digits_value, lemma_decimal_reads_back, push_decimal, same};

verus! {

/// What snapshots that are only read are opened through.
pub const READ_VFS_NAME: &'static str = "shardlite-s3-ro";

/// What snapshots that take writes are opened through.
pub const WRITE_VFS_NAME: &'static str = "meshdb-s3-rw";

/// What a connection that takes writes is set to: nobody shares the index of its log, and the log is
/// never folded into the snapshot.
pub const WRITE_SETTINGS: &'static str = "PRAGMA locking_mode=EXCLUSIVE; PRAGMA wal_autocheckpoint=0;";

// ---- names -------------------------------------------------------------------------------------

pub open spec fn token_text(n: u64) -> Seq<char> {
    "shardlite-s3-"@ + decimal(n as nat)
}

/// The name by which the `n`th snapshot that is opened for reading is found. It is no path.
pub fn snapshot_token(n: u64) -> (r: String)
    ensures
        r@ == token_text(n),
{
    let mut out = "shardlite-s3-".to_owned();
    push_decimal(&mut out, n);
    out
}

/// How SQLite is told to open the snapshot of a name: as one that never changes, so that it has no
/// log and takes no lock.
pub fn snapshot_uri(token: &str) -> (r: String)
    ensures
        r@ == "file:"@ + token@ + "?immutable=1&mode=ro"@,
{
    let mut out = "file:".to_owned();
    out.append(token);
    out.append("?immutable=1&mode=ro");
    out
}

pub open spec fn overlay_text(n: u64) -> Seq<char> {
    "failover-"@ + decimal(n as nat) + ".db"@
}

/// The file name of the `n`th snapshot that is opened for writing. Its log lies beside it.
pub fn overlay_name(n: u64) -> (r: String)
    ensures
        r@ == overlay_text(n),
{
    let mut out = "failover-".to_owned();
    push_decimal(&mut out, n);
    out.append(".db");
    out
}

// ---- the files that are served -----------------------------------------------------------------

/// Which files are served out of a bucket, each by the number of what serves it.
#[derive(Debug)]
pub struct Registry {
    entries: Vec<(String, u64)>,
}

/// The files of some entries. Of two that have a name the later counts.
pub open spec fn registered(entries: Seq<(String, u64)>) -> Map<Seq<char>, u64>
    decreases entries.len(),
{
    if entries.len() == 0 {
        Map::empty()
    } else {
        registered(entries.drop_last()).insert(entries.last().0@, entries.last().1)
    }
}

/// What serves the file of a name.
pub open spec fn server_of(files: Map<Seq<char>, u64>, name: Seq<char>) -> Option<u64> {
    if files.dom().contains(name) {
        Some(files[name])
    } else {
        None
    }
}

impl View for Registry {
    type V = Map<Seq<char>, u64>;

    closed spec fn view(&self) -> Map<Seq<char>, u64> {
        registered(self.entries@)
    }
}

impl Registry {
    pub fn new() -> (r: Registry)
        ensures
            r@ == Map::<Seq<char>, u64>::empty(),
    {
        Registry { entries: Vec::new() }
    }

    /// Has the file of a name served.
    pub fn insert(&mut self, name: String, server: u64)
        ensures
            final(self)@ == old(self)@.insert(name@, server),
    {
        let ghost before = self.entries@;
        self.entries.push((name, server));
        assert(self.entries@.drop_last() =~= before);
    }

    /// What serves the file of a name.
    pub fn find(&self, name: &str) -> (r: Option<u64>)
        ensures
            r == server_of(self@, name@),
    {
        let ghost all = self.entries@;
        let mut i: usize = self.entries.len();
        assert(all.take(i as int) =~= all);
        while i > 0
            invariant
                i <= all.len(),
                all == self.entries@,
                server_of(registered(all.take(i as int)), name@) == server_of(self@, name@),
            decreases i,
        {
            proof {
                let here = all.take(i as int);
                assert(here.drop_last() =~= all.take(i - 1));
                assert(here.last() == all[i - 1]);
            }
            i = i - 1;
            if same(self.entries[i].0.as_str(), name) {
                return Some(self.entries[i].1);
            }
        }
        None
    }

    /// Takes out what serves the file of a name.
    pub fn take(&mut self, name: &str) -> (r: Option<u64>)
        ensures
            r == server_of(old(self)@, name@),
            final(self)@ == old(self)@.remove(name@),
    {
        let found = self.find(name);
        let ghost all = self.entries@;
        let mut kept: Vec<(String, u64)> = Vec::new();
        let mut i: usize = 0;
        assert(registered(kept@) =~= registered(all.take(0)).remove(name@));
        while i < self.entries.len()
            invariant
                i <= all.len(),
                all == self.entries@,
                registered(kept@) == registered(all.take(i as int)).remove(name@),
            decreases all.len() - i,
        {
            let ghost before = kept@;
            proof {
                let next = all.take(i + 1);
                assert(next.drop_last() =~= all.take(i as int));
                assert(next.last() == all[i as int]);
            }
            if !same(self.entries[i].0.as_str(), name) {
                let copy = self.entries[i].0.clone();
                kept.push((copy, self.entries[i].1));
                assert(kept@.drop_last() =~= before);
            }
            assert(registered(kept@) =~= registered(all.take(i + 1)).remove(name@));
            i = i + 1;
        }
        assert(all.take(all.len() as int) =~= all);
        self.entries = kept;
        found
    }

    /// Opens a file for reading alone. Only what is served can be opened, once.
    pub fn open_snapshot(&mut self, name: Option<&str>) -> (r: Option<u64>)
        ensures
            match name {
                Some(n) => r == server_of(old(self)@, n@) && final(self)@ == old(self)@.remove(n@),
                None => r is None && final(self)@ == old(self)@,
            },
    {
        match name {
            Some(n) => self.take(n),
            None => None,
        }
    }

    /// Opens a file under a local log: a database that is served, or else a local file. What serves
    /// a database stays known, so that it is still there when it is looked for again.
    pub fn open_overlay(&self, is_database: bool, name: Option<&str>) -> (r: Option<u64>)
        ensures
            r == match name {
                Some(n) if is_database => server_of(self@, n@),
                _ => None,
            },
    {
        match name {
            Some(n) if is_database => self.find(n),
            _ => None,
        }
    }

    /// Whether the file of a name is served.
    pub fn serves(&self, name: &str) -> (r: bool)
        ensures
            r == self@.dom().contains(name@),
    {
        self.find(name).is_some()
    }
}

// ---- what is answered about a file in a bucket --------------------------------------------------

/// A call on a file, other than a read of it or of its size.
#[derive(Debug, Clone, Copy, PartialEq, Eq, Structural)]
pub enum FileCall {
    Write,
    Truncate,
    Sync,
    Lock,
    Unlock,
    Control,
    ShareMap,
    ShareLock,
    ShareUnmap,
}

/// What a call is answered.
#[derive(Debug, Clone, Copy, PartialEq, Eq, Structural)]
pub enum FileCode {
    Fine,
    ReadOnly,
    Unknown,
    Failed,
}

impl FileCall {
    pub open spec fn code(self) -> FileCode {
        match self {
            FileCall::Write | FileCall::Truncate => FileCode::ReadOnly,
            FileCall::Control => FileCode::Unknown,
            FileCall::ShareMap | FileCall::ShareLock => FileCode::Failed,
            FileCall::Sync | FileCall::Lock | FileCall::Unlock | FileCall::ShareUnmap => FileCode::Fine,
        }
    }

    /// What the call is answered about a file in a bucket. Such a file does not change, so there is
    /// nothing to write, to wait for or to lock; nobody shares the index of its log.
    pub fn answer(self) -> (r: FileCode)
        ensures
            r == self.code(),
    {
        match self {
            FileCall::Write | FileCall::Truncate => FileCode::ReadOnly,
            FileCall::Control => FileCode::Unknown,
            FileCall::ShareMap | FileCall::ShareLock => FileCode::Failed,
            FileCall::Sync | FileCall::Lock | FileCall::Unlock | FileCall::ShareUnmap => FileCode::Fine,
        }
    }
}

// ---- laws --------------------------------------------------------------------------------------

/// No two snapshots that are opened have a name in common.
pub proof fn law_every_open_has_its_own_name(a: u64, b: u64)
    requires
        a != b,
    ensures
        token_text(a) != token_text(b),
        overlay_text(a) != overlay_text(b),
{
    lemma_decimal_reads_back(a as nat);
    lemma_decimal_reads_back(b as nat);
    let (x, y) = (decimal(a as nat), decimal(b as nat));
    let head = "shardlite-s3-"@;
    if token_text(a) == token_text(b) {
        assert(token_text(a).skip(head.len() as int) =~= x);
        assert(token_text(b).skip(head.len() as int) =~= y);
        assert(digits_value(x) == digits_value(y));
    }
    let head = "failover-"@;
    let tail = ".db"@;
    if overlay_text(a) == overlay_text(b) {
        let n = overlay_text(a).len() - tail.len();
        assert(overlay_text(a).subrange(head.len() as int, n) =~= x);
        assert(overlay_text(b).subrange(head.len() as int, n) =~= y);
        assert(digits_value(x) == digits_value(y));
    }
}

/// A snapshot that was opened for reading is not found a second time, and what serves every other
/// file is as before.
pub proof fn law_a_snapshot_is_opened_once(files: Map<Seq<char>, u64>, name: Seq<char>, other: Seq<char>)
    requires
        other != name,
    ensures
        server_of(files.remove(name), name) is None,
        server_of(files.remove(name), other) == server_of(files, other),
{
}

} // verus!
