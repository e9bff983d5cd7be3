//! Random-access reads over an object, with a bounded cache of its chunks.
//!
//! Reads are served from chunks of a fixed size, which are fetched whole and kept until the cache is
//! full; then the one that was not used for longest goes.

use vstd::prelude::*;

use super::config::S3Error;
use crate::calls::{goes_on, lemma_added, lemma_goes_on, lemma_nothing_added, since, Line};
use crate::storage::exec::copy_bytes;

verus! {

/// The unit that is fetched and cached.
pub const DEFAULT_CHUNK: u64 = 65_536;

/// The most bytes of chunks that are kept.
pub const DEFAULT_CACHE_BYTES: u64 = 16_777_216;

// ---- the cache ---------------------------------------------------------------------------------

/// Chunks, the one that was not used for longest first.
#[derive(Debug)]
pub struct Cache {
    entries: Vec<(u64, Vec<u8>)>,
    max_chunks: usize,
}

/// What a [`Cache`] holds.
pub ghost struct CacheModel {
    pub entries: Seq<(u64, Seq<u8>)>,
    pub max_chunks: usize,
}

pub open spec fn entry_views(v: Seq<(u64, Vec<u8>)>) -> Seq<(u64, Seq<u8>)> {
    v.map_values(|e: (u64, Vec<u8>)| (e.0, e.1@))
}

impl View for Cache {
    type V = CacheModel;

    closed spec fn view(&self) -> CacheModel {
        CacheModel { entries: entry_views(self.entries@), max_chunks: self.max_chunks }
    }
}

/// The place of a chunk, from a place on.
pub open spec fn place_from(entries: Seq<(u64, Seq<u8>)>, c: u64, i: int) -> Option<int>
    decreases entries.len() - i,
{
    if i < 0 || i >= entries.len() {
        None
    } else if entries[i].0 == c {
        Some(i)
    } else {
        place_from(entries, c, i + 1)
    }
}

/// Entries without the chunk, wherever it is.
pub open spec fn without_chunk(entries: Seq<(u64, Seq<u8>)>, c: u64) -> Seq<(u64, Seq<u8>)> {
    match place_from(entries, c, 0) {
        Some(i) => entries.remove(i),
        None => entries,
    }
}

/// The newest entries, as many as fit.
pub open spec fn newest(entries: Seq<(u64, Seq<u8>)>, max: nat) -> Seq<(u64, Seq<u8>)> {
    if entries.len() <= max {
        entries
    } else {
        entries.skip(entries.len() - max)
    }
}

impl CacheModel {
    /// Whether no chunk is kept twice, and no more than fit.
    pub open spec fn wf(self) -> bool {
        &&& self.max_chunks > 0
        &&& self.entries.len() <= self.max_chunks
        &&& forall|i: int, j: int|
            0 <= i < j < self.entries.len() ==> (#[trigger] self.entries[i]).0 != (
            #[trigger] self.entries[j]).0
    }

    pub open spec fn lookup(self, c: u64) -> Option<Seq<u8>> {
        match place_from(self.entries, c, 0) {
            Some(i) => Some(self.entries[i].1),
            None => None,
        }
    }

    /// After a chunk was used.
    pub open spec fn used(self, c: u64) -> CacheModel {
        match place_from(self.entries, c, 0) {
            Some(i) => CacheModel {
                entries: self.entries.remove(i).push(self.entries[i]),
                ..self
            },
            None => self,
        }
    }

    /// After a chunk was fetched.
    pub open spec fn with(self, c: u64, bytes: Seq<u8>) -> CacheModel {
        CacheModel {
            entries: newest(
                without_chunk(self.entries, c).push((c, bytes)),
                self.max_chunks as nat,
            ),
            ..self
        }
    }
}

proof fn lemma_place(entries: Seq<(u64, Seq<u8>)>, c: u64, i: int)
    requires
        0 <= i,
    ensures
        match place_from(entries, c, i) {
            Some(k) => i <= k < entries.len() && entries[k].0 == c,
            None => forall|k: int| i <= k < entries.len() ==> (#[trigger] entries[k]).0 != c,
        },
    decreases entries.len() - i,
{
    if i < entries.len() && entries[i].0 != c {
        lemma_place(entries, c, i + 1);
    }
}

impl Cache {
    pub closed spec fn inv(&self) -> bool {
        self@.wf()
    }

    pub fn new(max_chunks: usize) -> (r: Cache)
        requires
            max_chunks > 0,
        ensures
            r.inv(),
            r@ == (CacheModel { entries: Seq::empty(), max_chunks }),
    {
        let r = Cache { entries: Vec::new(), max_chunks };
        assert(entry_views(r.entries@) =~= Seq::empty());
        r
    }

    fn position(&self, c: u64) -> (r: Option<usize>)
        ensures
            match place_from(self@.entries, c, 0) {
                Some(i) => r matches Some(k) && k == i && k < self.entries@.len(),
                None => r is None,
            },
    {
        let ghost model = self@.entries;
        let mut i: usize = 0;
        while i < self.entries.len()
            invariant
                i <= self.entries@.len(),
                model == entry_views(self.entries@),
                place_from(model, c, 0) == place_from(model, c, i as int),
            decreases self.entries@.len() - i,
        {
            assert(model[i as int].0 == self.entries@[i as int].0);
            if self.entries[i].0 == c {
                return Some(i);
            }
            i = i + 1;
        }
        None
    }

    /// A copy of a chunk, where it is kept; it counts as used.
    pub fn get(&mut self, c: u64) -> (r: Option<Vec<u8>>)
        requires
            old(self).inv(),
        ensures
            final(self).inv(),
            final(self)@ == old(self)@.used(c),
            match old(self)@.lookup(c) {
                Some(b) => r matches Some(v) && v@ == b,
                None => r is None,
            },
    {
        let ghost before = self@;
        proof {
            lemma_place(before.entries, c, 0);
        }
        match self.position(c) {
            Some(i) => {
                let entry = self.entries.remove(i);
                let copy = copy_bytes(&entry.1);
                let ghost (k, b) = (entry.0, entry.1@);
                self.entries.push(entry);
                proof {
                    assert(before.entries[i as int] == (k, b));
                    assert(self@.entries =~= before.entries.remove(i as int).push((k, b)));
                }
                Some(copy)
            },
            None => None,
        }
    }

    /// Keeps a chunk; where there are too many then, the one that was not used for longest goes.
    pub fn put(&mut self, c: u64, bytes: Vec<u8>)
        requires
            old(self).inv(),
        ensures
            final(self).inv(),
            final(self)@ == old(self)@.with(c, bytes@),
    {
        let ghost before = self@;
        let ghost b = bytes@;
        proof {
            lemma_place(before.entries, c, 0);
        }
        match self.position(c) {
            Some(i) => {
                self.entries.remove(i);
                assert(self@.entries =~= before.entries.remove(i as int));
            },
            None => {},
        }
        let ghost kept = self@.entries;
        assert(kept == without_chunk(before.entries, c));
        self.entries.push((c, bytes));
        assert(self@.entries =~= kept.push((c, b)));
        if self.entries.len() > self.max_chunks {
            let ghost all = self@.entries;
            self.entries.remove(0);
            assert(self@.entries =~= all.skip(1));
        }
        assert(self@.entries =~= newest(kept.push((c, b)), before.max_chunks as nat));
    }
}

// ---- the pager ---------------------------------------------------------------------------------

/// A read-only view of one object, with its chunks cached.
#[derive(Debug)]
pub struct S3Pager {
    size: u64,
    chunk: u64,
    cache: Cache,
}

/// The place where a chunk ends.
pub open spec fn chunk_end(size: u64, chunk: u64, c: int) -> int {
    if (c + 1) * chunk <= size {
        (c + 1) * chunk
    } else {
        size as int
    }
}

/// The bytes of a chunk of an object.
pub open spec fn chunk_bytes(object: Seq<u8>, chunk: u64, c: int) -> Seq<u8> {
    object.subrange(c * chunk, chunk_end(object.len() as u64, chunk, c))
}

/// The end of a read: as far as asked for, or the end of the object.
pub open spec fn read_end(size: u64, offset: u64, len: usize) -> int {
    if offset + len <= size {
        offset + len
    } else {
        size as int
    }
}

/// What was fetched: so many bytes from an offset, each time with what came back.
pub type Fetched = Seq<((u64, u64), Result<Vec<u8>, S3Error>)>;

/// Whether getting a chunk fetches this, gives this and leaves this cache: it comes out of the
/// cache, and nothing is fetched, or it is fetched as a whole and kept.
pub open spec fn chunk_got(
    fetched: Fetched,
    size: u64,
    chunk: u64,
    before: CacheModel,
    c: u64,
    got: Result<Seq<u8>, S3Error>,
    after: CacheModel,
) -> bool {
    match before.lookup(c) {
        Some(b) => fetched.len() == 0 && got == Ok::<Seq<u8>, S3Error>(b) && after == before.used(
            c,
        ),
        None => fetched.len() == 1 && fetched[0].0 == (
            (c * chunk) as u64,
            (chunk_end(size, chunk, c as int) - c * chunk) as u64,
        ) && match fetched[0].1 {
            Ok(b) => got == Ok::<Seq<u8>, S3Error>(b@) && after == before.with(c, b@),
            Err(e) => got == Err::<Seq<u8>, S3Error>(e) && after == before,
        },
    }
}

/// How many fetches a chunk takes.
pub open spec fn fetches(before: CacheModel, c: u64) -> int {
    if before.lookup(c) is Some {
        0
    } else {
        1
    }
}

/// Whether a read that has come to a place with some bytes fetches this, ends with this and leaves
/// this cache. It goes on with what the chunk there holds, up to the chunk's end or its own.
pub open spec fn reads(
    fetched: Fetched,
    size: u64,
    chunk: u64,
    before: CacheModel,
    pos: int,
    end: int,
    out: Seq<u8>,
    r: Result<Seq<u8>, S3Error>,
    after: CacheModel,
) -> bool
    decreases end - pos,
{
    if pos >= end || chunk == 0 {
        fetched.len() == 0 && r == Ok::<Seq<u8>, S3Error>(out) && after == before
    } else {
        let c = pos / chunk as int;
        let start = c * chunk;
        let next = if chunk_end(size, chunk, c) < end {
            chunk_end(size, chunk, c)
        } else {
            end
        };
        let n = fetches(before, c as u64);
        fetched.len() >= n && exists|got: Result<Seq<u8>, S3Error>, mid: CacheModel| #[trigger]
            chunk_got(fetched.take(n), size, chunk, before, c as u64, got, mid) && match got {
                Err(e) => fetched.len() == n && r == Err::<Seq<u8>, S3Error>(e) && after == mid,
                Ok(b) => next > pos && reads(
                    fetched.skip(n),
                    size,
                    chunk,
                    mid,
                    next,
                    end,
                    out + b.subrange(pos - start, next - start),
                    r,
                    after,
                ),
            }
    }
}

pub open spec fn bytes_view(r: Result<Vec<u8>, S3Error>) -> Result<Seq<u8>, S3Error> {
    match r {
        Ok(v) => Ok(v@),
        Err(e) => Err(e),
    }
}

/// Whether a fetch gives the bytes of an object.
pub open spec fn faithful<F: Fn((u64, u64)) -> Result<Vec<u8>, S3Error>>(fetch: F, object: Seq<u8>) -> bool {
    forall|start: u64, len: u64, v: Vec<u8>| #[trigger]
        call_ensures(fetch, ((start, len),), Ok::<Vec<u8>, S3Error>(v)) ==> start + len <= object.len()
            && v@ == object.subrange(start as int, start + len)
}

impl S3Pager {
    pub closed spec fn object_size(&self) -> u64 {
        self.size
    }

    pub closed spec fn chunk_size(&self) -> u64 {
        self.chunk
    }

    pub closed spec fn cached(&self) -> CacheModel {
        self.cache@
    }

    /// Whether every chunk that is kept is one of the object, and at least as long as it should be.
    pub closed spec fn wf(&self) -> bool {
        &&& self.chunk > 0
        &&& self.size + self.chunk <= u64::MAX
        &&& self.cache.inv()
        &&& forall|i: int|
            0 <= i < self.cache@.entries.len() ==> {
                let (c, b) = #[trigger] self.cache@.entries[i];
                &&& c * self.chunk < self.size
                &&& b.len() >= chunk_end(self.size, self.chunk, c as int) - c * self.chunk
            }
    }

    /// Whether what is kept are bytes of an object.
    pub closed spec fn holds(&self, object: Seq<u8>) -> bool {
        &&& object.len() == self.size
        &&& forall|i: int|
            0 <= i < self.cache@.entries.len() ==> {
                let (c, b) = #[trigger] self.cache@.entries[i];
                b == chunk_bytes(object, self.chunk, c as int)
            }
    }

    /// A pager for an object of a size, with the usual limits.
    pub fn open(size: u64) -> (r: S3Pager)
        requires
            size <= u64::MAX - DEFAULT_CHUNK,
        ensures
            r.wf(),
            r.object_size() == size,
            r.chunk_size() == DEFAULT_CHUNK,
            forall|object: Seq<u8>| object.len() == size ==> #[trigger] r.holds(object),
    {
        Self::with_limits(size, DEFAULT_CHUNK, DEFAULT_CACHE_BYTES)
    }

    /// A pager with its own limits. It keeps one chunk at least.
    pub fn with_limits(size: u64, chunk: u64, cache_bytes: u64) -> (r: S3Pager)
        requires
            chunk > 0,
            size <= u64::MAX - chunk,
        ensures
            r.wf(),
            r.object_size() == size,
            r.chunk_size() == chunk,
            r.cached().entries.len() == 0,
            r.cached().max_chunks == limit_chunks(chunk, cache_bytes),
            forall|object: Seq<u8>| object.len() == size ==> #[trigger] r.holds(object),
    {
        let fits: u64 = cache_bytes / chunk;
        let max: usize = if fits == 0 {
            1
        } else if fits > usize::MAX as u64 {
            usize::MAX
        } else {
            fits as usize
        };
        S3Pager { size, chunk, cache: Cache::new(max) }
    }

    pub fn size(&self) -> (r: u64)
        ensures
            r == self.object_size(),
    {
        self.size
    }

    fn fetch_chunk<F: Fn((u64, u64)) -> Result<Vec<u8>, S3Error>>(
        &mut self,
        c: u64,
        fetch: &mut Line<(u64, u64), Result<Vec<u8>, S3Error>, F>,
    ) -> (r: Result<Vec<u8>, S3Error>)
        requires
            old(self).wf(),
            c * old(self).chunk_size() < old(self).object_size(),
            forall|s: u64, n: u64| #[trigger] call_requires(old(fetch).far(), ((s, n),)),
            forall|s: u64, n: u64, v: Vec<u8>| #[trigger]
                call_ensures(old(fetch).far(), ((s, n),), Ok::<Vec<u8>, S3Error>(v)) ==> v@.len()
                    >= n,
        ensures
            final(self).wf(),
            final(self).object_size() == old(self).object_size(),
            final(self).chunk_size() == old(self).chunk_size(),
            final(fetch).far() == old(fetch).far(),
            goes_on(old(fetch).record(), final(fetch).record()),
            chunk_got(
                since(old(fetch).record(), final(fetch).record()),
                old(self).object_size(),
                old(self).chunk_size(),
                old(self).cached(),
                c,
                bytes_view(r),
                final(self).cached(),
            ),
            r matches Ok(v) ==> v@.len() >= chunk_end(
                old(self).object_size(),
                old(self).chunk_size(),
                c as int,
            ) - c * old(self).chunk_size(),
            forall|object: Seq<u8>|
                faithful(old(fetch).far(), object) && #[trigger] old(self).holds(object)
                    ==> final(self).holds(object) && (r matches Ok(v) ==> v@ == chunk_bytes(
                    object,
                    old(self).chunk_size(),
                    c as int,
                )),
    {
        let ghost before = self.cache@;
        let ghost first = fetch.record();
        proof {
            lemma_place(before.entries, c, 0);
            lemma_nothing_added(first);
        }
        if let Some(bytes) = self.cache.get(c) {
            proof {
                let i = place_from(before.entries, c, 0)->0;
                assert(before.entries[i].0 == c);
                assert forall|k: int| 0 <= k < self.cache@.entries.len() implies {
                    let e = #[trigger] self.cache@.entries[k];
                    before.entries.contains(e)
                } by {
                    if k + 1 == self.cache@.entries.len() {
                        assert(self.cache@.entries[k] == before.entries[i]);
                    } else if k < i {
                        assert(self.cache@.entries[k] == before.entries[k]);
                    } else {
                        assert(self.cache@.entries[k] == before.entries[k + 1]);
                    }
                }
            }
            return Ok(bytes);
        }
        let start: u64 = c * self.chunk;
        let end: u64 = if start + self.chunk <= self.size {
            start + self.chunk
        } else {
            self.size
        };
        proof {
            assert((c + 1) * self.chunk == start + self.chunk) by (nonlinear_arith)
                requires
                    start == c * self.chunk,
            ;
        }
        let got = fetch.ask((start, end - start));
        proof {
            let asked = seq![((start, (end - start) as u64), got)];
            assert(fetch.record() =~= first + asked);
            lemma_added(first, asked);
        }
        let bytes = match got {
            Ok(bytes) => bytes,
            Err(e) => {
                return Err(e);
            },
        };
        let ghost b = bytes@;
        self.cache.put(c, copy_bytes(&bytes));
        proof {
            assert forall|k: int| 0 <= k < self.cache@.entries.len() implies {
                let e = #[trigger] self.cache@.entries[k];
                e == (c, b) || before.entries.contains(e)
            } by {
                let kept = without_chunk(before.entries, c);
                assert(kept == before.entries);
                let all = kept.push((c, b));
                let shift = all.len() - self.cache@.entries.len();
                assert(self.cache@.entries[k] == all[k + shift]);
                if k + shift < kept.len() {
                    assert(all[k + shift] == before.entries[k + shift]);
                }
            }
        }
        Ok(bytes)
    }

    /// Reads from an offset, as many bytes as are asked for or as there are. `fetch` gets a number
    /// of bytes of the object from an offset, and is asked for the chunks that are not kept, once
    /// each.
    #[verifier::loop_isolation(false)]
    pub fn read_at<F: Fn((u64, u64)) -> Result<Vec<u8>, S3Error>>(
        &mut self,
        offset: u64,
        len: usize,
        fetch: &mut Line<(u64, u64), Result<Vec<u8>, S3Error>, F>,
    ) -> (r: Result<Vec<u8>, S3Error>)
        requires
            old(self).wf(),
            offset + len <= u64::MAX,
            forall|s: u64, n: u64| #[trigger] call_requires(old(fetch).far(), ((s, n),)),
            forall|s: u64, n: u64, v: Vec<u8>| #[trigger]
                call_ensures(old(fetch).far(), ((s, n),), Ok::<Vec<u8>, S3Error>(v)) ==> v@.len()
                    >= n,
        ensures
            final(self).wf(),
            final(self).object_size() == old(self).object_size(),
            final(self).chunk_size() == old(self).chunk_size(),
            final(fetch).far() == old(fetch).far(),
            goes_on(old(fetch).record(), final(fetch).record()),
            if offset >= old(self).object_size() || len == 0 {
                (r matches Ok(v) && v@.len() == 0) && final(self).cached() == old(self).cached()
                    && final(fetch).record() == old(fetch).record()
            } else {
                reads(
                    since(old(fetch).record(), final(fetch).record()),
                    old(self).object_size(),
                    old(self).chunk_size(),
                    old(self).cached(),
                    offset as int,
                    read_end(old(self).object_size(), offset, len),
                    Seq::empty(),
                    bytes_view(r),
                    final(self).cached(),
                )
            },
            forall|object: Seq<u8>|
                faithful(old(fetch).far(), object) && #[trigger] old(self).holds(object)
                    ==> final(self).holds(object) && (r matches Ok(v) ==> offset
                    < old(self).object_size() ==> v@ == object.subrange(
                    offset as int,
                    read_end(old(self).object_size(), offset, len),
                )),
    {
        let ghost asked = fetch.record();
        let ghost far = fetch.far();
        let ghost mut made: Fetched = Seq::empty();
        proof {
            lemma_added(asked, made);
            assert(asked + made =~= asked);
        }
        let mut out: Vec<u8> = Vec::new();
        if offset >= self.size || len == 0 {
            assert forall|object: Seq<u8>| #[trigger] self.holds(object) && offset
                < self.size implies out@ == object.subrange(
                offset as int,
                read_end(self.size, offset, len),
            ) by {
                assert(object.subrange(offset as int, offset as int) =~= out@);
            }
            return Ok(out);
        }
        let end: u64 = if offset + len as u64 <= self.size {
            offset + len as u64
        } else {
            self.size
        };
        let mut pos: u64 = offset;
        let ghost first = *self;
        let ghost chunk = self.chunk;
        let ghost size = self.size;
        let ghost whole = |fetched: Fetched, r: Result<Seq<u8>, S3Error>, after: CacheModel|
            reads(fetched, size, chunk, first.cached(), offset as int, end as int, Seq::empty(), r, after);
        assert(out@ =~= Seq::empty());
        proof {
            assert forall|more: Fetched, r: Result<Seq<u8>, S3Error>, after: CacheModel| #[trigger]
                reads(
                    more,
                    size,
                    chunk,
                    self.cached(),
                    pos as int,
                    end as int,
                    out@,
                    r,
                    after,
                ) implies whole(made + more, r, after) by {
                assert(made + more =~= more);
            }
        }
        while pos < end
            invariant
                offset <= pos <= end,
                end <= size,
                self.wf(),
                self.size == size,
                self.chunk == chunk,
                out@.len() == pos - offset,
                fetch.far() == far,
                fetch.record() == asked + made,
                forall|more: Fetched, r: Result<Seq<u8>, S3Error>, after: CacheModel| #[trigger]
                    reads(
                        more,
                        size,
                        chunk,
                        self.cached(),
                        pos as int,
                        end as int,
                        out@,
                        r,
                        after,
                    ) ==> whole(made + more, r, after),
                forall|object: Seq<u8>|
                    faithful(far, object) && #[trigger] first.holds(object) ==> self.holds(
                        object,
                    ) && out@ == object.subrange(offset as int, pos as int),
            decreases end - pos,
        {
            let c: u64 = pos / self.chunk;
            proof {
                vstd::arithmetic::div_mod::lemma_fundamental_div_mod(pos as int, chunk as int);
                assert(c * chunk == chunk * c) by (nonlinear_arith);
                assert((c + 1) * chunk == c * chunk + chunk) by (nonlinear_arith);
            }
            let start: u64 = c * self.chunk;
            let stop: u64 = if start + self.chunk <= self.size {
                start + self.chunk
            } else {
                self.size
            };
            let next: u64 = if stop < end {
                stop
            } else {
                end
            };
            let ghost held = *self;
            let ghost begin = pos;
            let ghost had = out@;
            let ghost before = fetch.record();
            let outcome = self.fetch_chunk(c, fetch);
            let ghost one = since(before, fetch.record());
            proof {
                lemma_goes_on(before, fetch.record());
                assert(fetch.record() =~= asked + (made + one));
                assert(one.len() == fetches(held.cached(), c));
            }
            let bytes = match outcome {
                Ok(bytes) => bytes,
                Err(e) => {
                    proof {
                        let r = Err::<Seq<u8>, S3Error>(e);
                        assert(one.take(one.len() as int) =~= one);
                        assert(chunk_got(one, size, chunk, held.cached(), c, r, self.cached()));
                        assert(reads(
                            one,
                            size,
                            chunk,
                            held.cached(),
                            begin as int,
                            end as int,
                            had,
                            r,
                            self.cached(),
                        ));
                        assert(whole(made + one, r, self.cached()));
                        lemma_added(asked, made + one);
                    }
                    return Err(e);
                },
            };
            assert(bytes@.len() >= chunk_end(size, chunk, c as int) - start);
            assert(stop == chunk_end(size, chunk, c as int));
            let got: usize = bytes.len();
            assert(stop - start <= got);
            let within: usize = (pos - start) as usize;
            let until: usize = (next - start) as usize;
            let mut at: usize = within;
            while at < until
                invariant
                    within <= at <= until <= bytes@.len(),
                    out@ == had + bytes@.subrange(within as int, at as int),
                decreases until - at,
            {
                out.push(bytes[at]);
                assert(bytes@.subrange(within as int, at as int + 1) =~= bytes@.subrange(
                    within as int,
                    at as int,
                ).push(bytes@[at as int]));
                assert(out@ =~= had + bytes@.subrange(within as int, at as int + 1));
                at = at + 1;
            }
            pos = next;
            proof {
                let gained = Ok::<Seq<u8>, S3Error>(bytes@);
                assert(chunk_got(one, size, chunk, held.cached(), c, gained, self.cached()));
                assert(begin as int / chunk as int == c);
                assert(out@ == had + bytes@.subrange(begin - start, next - start));
                assert forall|more: Fetched, r: Result<Seq<u8>, S3Error>, after: CacheModel|
                    #[trigger]
                    reads(
                        more,
                        size,
                        chunk,
                        self.cached(),
                        pos as int,
                        end as int,
                        out@,
                        r,
                        after,
                    ) implies whole((made + one) + more, r, after) by {
                    let all = one + more;
                    assert(all.take(one.len() as int) =~= one);
                    assert(all.skip(one.len() as int) =~= more);
                    assert((made + one) + more =~= made + all);
                    assert(reads(
                        all,
                        size,
                        chunk,
                        held.cached(),
                        begin as int,
                        end as int,
                        had,
                        r,
                        after,
                    ));
                }
                assert forall|object: Seq<u8>|
                    faithful(far, object) && #[trigger] first.holds(object) implies self.holds(
                    object,
                ) && out@ == object.subrange(offset as int, pos as int) by {
                    assert(held.holds(object));
                    let piece = chunk_bytes(object, chunk, c as int);
                    assert(bytes@ == piece);
                    assert(out@ =~= object.subrange(offset as int, pos as int));
                }
                made = made + one;
            }
        }
        proof {
            let r = Ok::<Seq<u8>, S3Error>(out@);
            let none: Fetched = Seq::empty();
            assert(reads(
                none,
                size,
                chunk,
                self.cached(),
                pos as int,
                end as int,
                out@,
                r,
                self.cached(),
            ));
            assert(whole(made + none, r, self.cached()));
            assert(made + none =~= made);
            lemma_added(asked, made);
        }
        Ok(out)
    }
}

pub open spec fn limit_chunks(chunk: u64, cache_bytes: u64) -> usize {
    let fits = cache_bytes / chunk;
    if fits == 0 {
        1
    } else if fits > usize::MAX {
        usize::MAX
    } else {
        fits as usize
    }
}

/// What a read is for a database file: as many bytes as were asked for, with zeros past the end of
/// the object, and whether none were needed.
pub fn fill_page(read: Vec<u8>, amount: usize) -> (r: (Vec<u8>, bool))
    requires
        read@.len() <= amount,
    ensures
        r.0@ == read@ + Seq::new((amount - read@.len()) as nat, |i: int| 0u8),
        r.1 == (read@.len() == amount),
{
    let ghost had = read@;
    let whole = read.len() == amount;
    let mut out = read;
    assert(out@ =~= had + Seq::new(0, |i: int| 0u8));
    while out.len() < amount
        invariant
            had.len() <= out@.len() <= amount,
            out@ == had + Seq::new((out@.len() - had.len()) as nat, |i: int| 0u8),
        decreases amount - out@.len(),
    {
        let ghost n = out@.len() - had.len();
        out.push(0);
        assert(out@ =~= had + Seq::new((n + 1) as nat, |i: int| 0u8));
    }
    (out, whole)
}

} // verus!
