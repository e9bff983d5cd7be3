//! The archival that is attached at run time, if any.

use vstd::prelude::*;

use super::config::S3Summary;
use super::sink::{S3Sink, S3SinkStatus};

verus! {

/// The sink that frames are archived through, and where it archives to. The secret key is not kept.
#[derive(Debug)]
pub struct S3Runtime {
    attached: Option<(S3Sink, S3Summary)>,
}

impl View for S3Summary {
    type V = (Seq<char>, Seq<char>, Seq<char>, Seq<char>);

    open spec fn view(&self) -> (Seq<char>, Seq<char>, Seq<char>, Seq<char>) {
        (self.bucket@, self.endpoint@, self.region@, self.prefix@)
    }
}

impl S3Summary {
    /// The same summary again.
    pub fn copy(&self) -> (r: S3Summary)
        ensures
            r@ == self@,
    {
        S3Summary {
            bucket: self.bucket.clone(),
            endpoint: self.endpoint.clone(),
            region: self.region.clone(),
            prefix: self.prefix.clone(),
        }
    }
}

impl S3Runtime {
    pub closed spec fn live(&self) -> Option<(S3Sink, S3Summary)> {
        self.attached
    }

    pub open spec fn wf(&self) -> bool {
        self.live() matches Some((sink, _)) ==> sink.wf()
    }

    /// Nothing is archived.
    pub fn new() -> (r: S3Runtime)
        ensures
            r.live() is None,
    {
        S3Runtime { attached: None }
    }

    /// Makes a sink the live one.
    pub fn attach(&mut self, sink: S3Sink, summary: S3Summary)
        ensures
            final(self).live() == Some((sink, summary)),
    {
        self.attached = Some((sink, summary));
    }

    /// Forgets the sink.
    pub fn detach(&mut self)
        ensures
            final(self).live() is None,
    {
        self.attached = None;
    }

    pub fn configured(&self) -> (r: bool)
        ensures
            r == (self.live() is Some),
    {
        self.attached.is_some()
    }

    /// Where frames are archived to.
    pub fn summary(&self) -> (r: Option<S3Summary>)
        ensures
            match self.live() {
                Some((_, s)) => r matches Some(x) && x@ == s@,
                None => r is None,
            },
    {
        match &self.attached {
            Some((_, s)) => Some(s.copy()),
            None => None,
        }
    }

    /// The live sink.
    pub fn sink(&self) -> (r: Option<&S3Sink>)
        ensures
            match self.live() {
                Some((s, _)) => r == Some(&s),
                None => r is None,
            },
    {
        match &self.attached {
            Some((sink, _)) => Some(sink),
            None => None,
        }
    }

    /// Takes the live sink out to be used, and leaves its summary's place to [`Self::attach`].
    pub fn take(&mut self) -> (r: Option<(S3Sink, S3Summary)>)
        ensures
            r == old(self).live(),
            final(self).live() is None,
    {
        self.attached.take()
    }

    /// Where frames are archived to, and how far that has got.
    pub fn status(&self) -> (r: Option<(S3Summary, S3SinkStatus)>)
        requires
            self.wf(),
        ensures
            match self.live() {
                Some((sink, s)) => {
                    &&& r matches Some((x, st)) && x@ == s@ && st.healthy == (sink@.failed is None)
                        && super::sink::listed(sink@.progress, st.shards@)
                        && (match st.last_error {
                        Some(m) => sink@.failed == Some(m@),
                        None => sink@.failed is None,
                    })
                },
                None => r is None,
            },
    {
        match &self.attached {
            Some((sink, s)) => Some((s.copy(), sink.status())),
            None => None,
        }
    }
}

} // verus!
