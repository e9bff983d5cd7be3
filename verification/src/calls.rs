//! Calls of functions that the caller brings along.
//!
//! What such a function does is the caller's affair, but what it is handed, how often and in which
//! order is not: a line keeps a record of that, which contracts speak of.

use vstd::prelude::*;

verus! {

/// What a record holds beyond an earlier one.
pub open spec fn since<A, R>(before: Seq<(A, R)>, after: Seq<(A, R)>) -> Seq<(A, R)> {
    after.skip(before.len() as int)
}

/// Whether a record goes on where an earlier one ended.
pub open spec fn goes_on<A, R>(before: Seq<(A, R)>, after: Seq<(A, R)>) -> bool {
    before.len() <= after.len() && after.take(before.len() as int) == before
}

/// A record goes on with what is added to it.
pub proof fn lemma_added<A, R>(before: Seq<(A, R)>, more: Seq<(A, R)>)
    ensures
        goes_on(before, before + more),
        since(before, before + more) == more,
{
    assert((before + more).take(before.len() as int) =~= before);
    assert((before + more).skip(before.len() as int) =~= more);
}

/// A record goes on where nothing is added to it.
pub proof fn lemma_nothing_added<A, R>(record: Seq<(A, R)>)
    ensures
        goes_on(record, record),
        since(record, record).len() == 0,
{
    lemma_added(record, Seq::empty());
    assert(record + Seq::<(A, R)>::empty() =~= record);
}

/// What a record holds from an earlier one on, put behind that one, is the record.
pub proof fn lemma_goes_on<A, R>(before: Seq<(A, R)>, after: Seq<(A, R)>)
    requires
        goes_on(before, after),
    ensures
        after == before + since(before, after),
{
    assert(after =~= after.take(before.len() as int) + after.skip(before.len() as int));
}

/// A function, and the record of its calls: what it was handed, and what it gave.
pub struct Line<A, R, F> {
    far: F,
    record: Ghost<Seq<(A, R)>>,
}

impl<A, R, F: Fn(A) -> R> Line<A, R, F> {
    /// The function.
    pub closed spec fn far(&self) -> F {
        self.far
    }

    /// Its calls so far.
    pub closed spec fn record(&self) -> Seq<(A, R)> {
        self.record@
    }

    /// A line to a function that was not called yet.
    pub fn new(far: F) -> (r: Line<A, R, F>)
        ensures
            r.far() == far,
            r.record() == Seq::<(A, R)>::empty(),
    {
        Line { far, record: Ghost(Seq::empty()) }
    }

    /// Calls the function. There is no other way to.
    pub fn ask(&mut self, a: A) -> (r: R)
        requires
            call_requires(old(self).far(), (a,)),
        ensures
            final(self).far() == old(self).far(),
            final(self).record() == old(self).record().push((a, r)),
            call_ensures(old(self).far(), (a,), r),
    {
        let ghost handed = a;
        assert(self.far == self.far());
        let r = (self.far)(a);
        self.record = Ghost(self.record@.push((handed, r)));
        r
    }
}

} // verus!
