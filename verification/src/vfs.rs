//! Committed transactions as the storage layer captures them: the pages each one wrote.

use vstd::prelude::*;

use crate::storage::exec::copy_bytes;

verus! {

/// One page as a transaction left it.
#[derive(Debug)]
pub struct Frame {
    pub page_no: u32,
    pub data: Vec<u8>,
}

/// What a [`Frame`] holds.
pub ghost struct FrameModel {
    pub page_no: u32,
    pub data: Seq<u8>,
}

impl View for Frame {
    type V = FrameModel;

    open spec fn view(&self) -> FrameModel {
        FrameModel { page_no: self.page_no, data: self.data@ }
    }
}

pub open spec fn frames_model(frames: Seq<Frame>) -> Seq<FrameModel> {
    frames.map_values(|f: Frame| f@)
}

/// A committed transaction: its pages, and the size of the database after it.
#[derive(Debug)]
pub struct CommittedTxn {
    pub db_size_pages: u32,
    pub page_size: u32,
    pub generation: u64,
    pub frames: Vec<Frame>,
}

/// What a [`CommittedTxn`] holds.
pub ghost struct TxnModel {
    pub db_size_pages: u32,
    pub page_size: u32,
    pub generation: u64,
    pub frames: Seq<FrameModel>,
}

impl View for CommittedTxn {
    type V = TxnModel;

    open spec fn view(&self) -> TxnModel {
        TxnModel {
            db_size_pages: self.db_size_pages,
            page_size: self.page_size,
            generation: self.generation,
            frames: frames_model(self.frames@),
        }
    }
}

/// The bytes of a list of frames.
pub open spec fn frames_size(frames: Seq<FrameModel>) -> nat
    decreases frames.len(),
{
    if frames.len() == 0 {
        0
    } else {
        frames_size(frames.drop_last()) + frames.last().data.len()
    }
}

pub proof fn lemma_frames_size_grows(frames: Seq<FrameModel>, n: int)
    requires
        0 <= n <= frames.len(),
    ensures
        frames_size(frames.take(n)) <= frames_size(frames),
    decreases frames.len(),
{
    if n == frames.len() {
        assert(frames.take(n) =~= frames);
    } else {
        lemma_frames_size_grows(frames.drop_last(), n);
        assert(frames.drop_last().take(n) =~= frames.take(n));
    }
}

impl CommittedTxn {
    /// The bytes of the pages the transaction wrote.
    pub fn size(&self) -> (r: usize)
        requires
            frames_size(self@.frames) <= usize::MAX,
        ensures
            r == frames_size(self@.frames),
    {
        let ghost model = frames_model(self.frames@);
        let mut total: usize = 0;
        let mut i: usize = 0;
        while i < self.frames.len()
            invariant
                i <= self.frames@.len(),
                model == frames_model(self.frames@),
                frames_size(model) <= usize::MAX,
                total == frames_size(model.take(i as int)),
            decreases self.frames@.len() - i,
        {
            proof {
                lemma_frames_size_grows(model, i as int + 1);
                assert(model.take(i as int + 1).drop_last() =~= model.take(i as int));
                assert(model.take(i as int + 1).last() == self.frames@[i as int]@);
            }
            total = total + self.frames[i].data.len();
            i = i + 1;
        }
        assert(model.take(self.frames@.len() as int) =~= model);
        total
    }

    /// The same transaction again.
    pub fn copy(&self) -> (r: CommittedTxn)
        ensures
            r@ == self@,
    {
        let ghost model = frames_model(self.frames@);
        let mut frames: Vec<Frame> = Vec::with_capacity(self.frames.len());
        let mut i: usize = 0;
        assert(frames_model(frames@) =~= model.take(0));
        while i < self.frames.len()
            invariant
                i <= self.frames@.len(),
                model == frames_model(self.frames@),
                frames_model(frames@) == model.take(i as int),
            decreases self.frames@.len() - i,
        {
            let ghost before = frames@;
            let f = &self.frames[i];
            frames.push(Frame { page_no: f.page_no, data: copy_bytes(&f.data) });
            proof {
                assert(frames_model(frames@) =~= frames_model(before).push(f@));
                assert(model.take(i as int + 1) =~= model.take(i as int).push(model[i as int]));
            }
            i = i + 1;
        }
        assert(model.take(self.frames@.len() as int) =~= model);
        CommittedTxn {
            db_size_pages: self.db_size_pages,
            page_size: self.page_size,
            generation: self.generation,
            frames,
        }
    }
}

} // verus!
