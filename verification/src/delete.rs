//! Deleting a file or a directory tree, read-only or not.

use vstd::prelude::*;
use crate::error::{Error, ErrorView};
use crate::path::FsPath;
use crate::request::{asked, Reply, ReplyView, Request, RequestView};

verus! {

/// How far a deletion has come.
#[derive(Clone, Copy, Debug, PartialEq, Eq, Structural)]
pub enum DeletePhase {
    /// Waiting to learn whether the target is read-only.
    Inspect,
    /// Waiting for the target to become writable.
    Relax,
    /// Waiting to learn whether the target is a directory.
    Classify,
    /// Waiting for the target to be removed.
    Remove,
    /// Nothing more to do.
    Done,
}

/// A deletion in progress.
///
/// A read-only target is made writable first, so that its removal does not
/// fail for want of permission; a directory is removed with all that it
/// holds.
#[derive(Debug)]
pub struct Delete {
    path: FsPath,
    phase: DeletePhase,
    failure: Option<Error>,
}

/// The mathematical value of a [`Delete`].
pub struct DeleteView {
    pub path: Seq<Seq<char>>,
    pub phase: DeletePhase,
    pub failure: Option<ErrorView>,
}

impl View for Delete {
    type V = DeleteView;

    closed spec fn view(&self) -> DeleteView {
        DeleteView {
            path: self.path@,
            phase: self.phase,
            failure: match self.failure {
                Some(e) => Some(e@),
                None => None,
            },
        }
    }
}

impl DeleteView {
    /// The deletion of `path` before anything is known of it, and the
    /// question it starts with.
    pub open spec fn start(path: Seq<Seq<char>>) -> (DeleteView, RequestView) {
        (
            DeleteView { path, phase: DeletePhase::Inspect, failure: None },
            RequestView::Metadata(path),
        )
    }

    /// The deletion in the given phase.
    pub open spec fn at(self, phase: DeletePhase) -> DeleteView {
        DeleteView { phase, ..self }
    }

    /// The deletion given up for the failure `e`.
    pub open spec fn failed(self, e: ErrorView) -> DeleteView {
        DeleteView { phase: DeletePhase::Done, failure: Some(e), ..self }
    }

    /// The request that removes the target.
    pub open spec fn removal(self, is_dir: bool) -> RequestView {
        if is_dir {
            RequestView::RemoveDirAll(self.path)
        } else {
            RequestView::RemoveFile(self.path)
        }
    }

    /// The deletion after `reply`, and what it asks next. A deletion that
    /// asks nothing more is done.
    pub open spec fn next(self, reply: ReplyView) -> (DeleteView, Option<RequestView>) {
        match self.phase {
            DeletePhase::Inspect => match reply.meta() {
                Ok(m) => if m.readonly {
                    (self.at(DeletePhase::Relax), Some(RequestView::SetReadonly(self.path, false)))
                } else {
                    (self.at(DeletePhase::Classify), Some(RequestView::IsDir(self.path)))
                },
                Err(e) => (self.failed(e), None),
            },
            DeletePhase::Relax => match reply.unit() {
                Ok(_) => (self.at(DeletePhase::Classify), Some(RequestView::IsDir(self.path))),
                Err(e) => (self.failed(e), None),
            },
            DeletePhase::Classify => match reply.flag() {
                Ok(is_dir) => (self.at(DeletePhase::Remove), Some(self.removal(is_dir))),
                Err(e) => (self.failed(e), None),
            },
            DeletePhase::Remove => match reply.unit() {
                Ok(_) => (self.at(DeletePhase::Done), None),
                Err(e) => (self.failed(e), None),
            },
            DeletePhase::Done => (self, None),
        }
    }

    /// Whether the deletion is over.
    pub open spec fn done(self) -> bool {
        self.phase == DeletePhase::Done
    }

    /// How the deletion went, once it is over.
    pub open spec fn outcome(self) -> Result<(), ErrorView> {
        match self.failure {
            Some(e) => Err(e),
            None => Ok(()),
        }
    }
}

impl Delete {
    /// Starts the deletion of what is at `path`.
    pub fn start(path: FsPath) -> (r: (Delete, Request))
        ensures
            (r.0@, r.1@) == DeleteView::start(path@),
    {
        let ask = Request::Metadata(path.clone());
        (Delete { path, phase: DeletePhase::Inspect, failure: None }, ask)
    }

    fn failed(self, e: Error) -> (r: (Delete, Option<Request>))
        ensures
            r.0@ == self@.failed(e@),
            r.1 is None,
    {
        (Delete { path: self.path, phase: DeletePhase::Done, failure: Some(e) }, None)
    }

    fn at(self, phase: DeletePhase, ask: Request) -> (r: (Delete, Option<Request>))
        ensures
            r.0@ == self@.at(phase),
            r.1 == Some(ask),
    {
        (Delete { path: self.path, phase, failure: self.failure }, Some(ask))
    }

    /// Takes the reply to the last request and gives the next request, or
    /// none when the deletion is over.
    pub fn step(self, reply: Reply) -> (r: (Delete, Option<Request>))
        ensures
            (r.0@, asked(r.1)) == self@.next(reply@),
    {
        match self.phase {
            DeletePhase::Inspect => match reply.meta() {
                Ok(m) => {
                    if m.readonly {
                        let ask = Request::SetReadonly(self.path.clone(), false);
                        self.at(DeletePhase::Relax, ask)
                    } else {
                        let ask = Request::IsDir(self.path.clone());
                        self.at(DeletePhase::Classify, ask)
                    }
                },
                Err(e) => self.failed(e),
            },
            DeletePhase::Relax => match reply.unit() {
                Ok(_) => {
                    let ask = Request::IsDir(self.path.clone());
                    self.at(DeletePhase::Classify, ask)
                },
                Err(e) => self.failed(e),
            },
            DeletePhase::Classify => match reply.flag() {
                Ok(is_dir) => {
                    let ask = if is_dir {
                        Request::RemoveDirAll(self.path.clone())
                    } else {
                        Request::RemoveFile(self.path.clone())
                    };
                    self.at(DeletePhase::Remove, ask)
                },
                Err(e) => self.failed(e),
            },
            DeletePhase::Remove => match reply.unit() {
                Ok(_) => (Delete { path: self.path, phase: DeletePhase::Done, failure: self.failure }, None),
                Err(e) => self.failed(e),
            },
            DeletePhase::Done => (self, None),
        }
    }

    /// Whether the deletion is over.
    pub fn is_done(&self) -> (r: bool)
        ensures
            r == self@.done(),
    {
        match self.phase {
            DeletePhase::Done => true,
            _ => false,
        }
    }

    /// How the deletion went, once it is over.
    pub fn outcome(&self) -> (r: Result<(), Error>)
        ensures
            match self@.outcome() {
                Ok(_) => r is Ok,
                Err(e) => r matches Err(x) && x@ == e,
            },
    {
        match &self.failure {
            Some(e) => Err(e.clone()),
            None => Ok(()),
        }
    }
}

/// A deletion that asks nothing more is over, and one that is over asks
/// nothing more.
pub proof fn lemma_delete_asks_until_done(s: DeleteView, reply: ReplyView)
    ensures
        s.next(reply).1 is None <==> s.next(reply).0.done(),
        s.next(reply).0.path == s.path,
        !s.done() && s.failure is None && s.next(reply).1 is Some ==> s.next(reply).0.failure is None,
{
}

/// What is read-only is made writable before it is removed: told that the
/// target is read-only, the deletion asks for write permission, and only
/// when that is granted does it ask what to remove, and remove it. If every
/// action succeeds, so does the deletion.
pub proof fn lemma_delete_read_only(path: Seq<Seq<char>>, len: u64, is_dir: bool)
    ensures
        ({
            let (s0, r0) = DeleteView::start(path);
            let (s1, r1) = s0.next(ReplyView::Meta(crate::request::Metadata { len, readonly: true }));
            let (s2, r2) = s1.next(ReplyView::Done);
            let (s3, r3) = s2.next(ReplyView::Flag(is_dir));
            let (s4, r4) = s3.next(ReplyView::Done);
            &&& r0 == RequestView::Metadata(path)
            &&& r1 == Some(RequestView::SetReadonly(path, false))
            &&& r2 == Some(RequestView::IsDir(path))
            &&& r3 == Some(s0.removal(is_dir))
            &&& r4 is None
            &&& s4.done()
            &&& s4.outcome() is Ok
        }),
{
}

/// Nothing is removed while the target may still be read-only: where write
/// permission is refused, the deletion ends with that failure and has asked
/// for no removal.
pub proof fn lemma_delete_refused(path: Seq<Seq<char>>, len: u64, e: ErrorView)
    ensures
        ({
            let (s0, r0) = DeleteView::start(path);
            let (s1, r1) = s0.next(ReplyView::Meta(crate::request::Metadata { len, readonly: true }));
            let (s2, r2) = s1.next(ReplyView::Failed(e));
            &&& r2 is None
            &&& s2.done()
            &&& s2.outcome() == Err::<(), ErrorView>(e)
        }),
{
}

} // verus!
