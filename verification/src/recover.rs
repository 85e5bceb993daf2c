//! The failure that knows how to be put right.
//!
//! A copy or a move that finds its destination taken fails with what it was
//! about to do. That is enough to try again over what is in the way.

use vstd::prelude::*;
use vstd::std_specs::convert::FromSpecImpl;
use crate::dir::{DirTransfer, DirTransferView, DirectoryInfo};
use crate::entity::Info;
use crate::error::{Error, ErrorKind, ErrorView};
use crate::file::{FileInfo, FileTransfer, FileTransferView};
use crate::normalize::{home_dir, owned_view};
use crate::path::FsPath;
use crate::request::{asked, Reply, ReplyView, Request, RequestView};

verus! {

/// What was being done when the destination turned out to be taken: the
/// entity, and the destination.
#[derive(Debug)]
pub enum Status {
    CopyFile(FileInfo, FsPath),
    CopyDirectory(DirectoryInfo, FsPath),
    MoveFile(FileInfo, FsPath),
    MoveDirectory(DirectoryInfo, FsPath),
}

/// The mathematical value of a [`Status`].
pub enum StatusView {
    CopyFile(Seq<Seq<char>>, Seq<Seq<char>>),
    CopyDirectory(Seq<Seq<char>>, Seq<Seq<char>>),
    MoveFile(Seq<Seq<char>>, Seq<Seq<char>>),
    MoveDirectory(Seq<Seq<char>>, Seq<Seq<char>>),
}

impl View for Status {
    type V = StatusView;

    open spec fn view(&self) -> StatusView {
        match self {
            Status::CopyFile(f, to) => StatusView::CopyFile(f@, to@),
            Status::CopyDirectory(d, to) => StatusView::CopyDirectory(d@, to@),
            Status::MoveFile(f, to) => StatusView::MoveFile(f@, to@),
            Status::MoveDirectory(d, to) => StatusView::MoveDirectory(d@, to@),
        }
    }
}

impl Clone for Status {
    fn clone(&self) -> (s: Status)
        ensures
            s@ == self@,
    {
        match self {
            Status::CopyFile(f, to) => Status::CopyFile(f.clone(), to.clone()),
            Status::CopyDirectory(d, to) => Status::CopyDirectory(d.clone(), to.clone()),
            Status::MoveFile(f, to) => Status::MoveFile(f.clone(), to.clone()),
            Status::MoveDirectory(d, to) => Status::MoveDirectory(d.clone(), to.clone()),
        }
    }
}

/// A failure, with what was being done where that can be tried again.
#[derive(Debug)]
pub struct TryRecover {
    pub error: Error,
    pub status: Option<Status>,
}

/// The mathematical value of a [`TryRecover`].
pub struct TryRecoverView {
    pub error: ErrorView,
    pub status: Option<StatusView>,
}

impl View for TryRecover {
    type V = TryRecoverView;

    open spec fn view(&self) -> TryRecoverView {
        TryRecoverView {
            error: self.error@,
            status: match self.status {
                Some(s) => Some(s@),
                None => None,
            },
        }
    }
}

impl Clone for TryRecover {
    fn clone(&self) -> (t: TryRecover)
        ensures
            t@ == self@,
    {
        TryRecover {
            error: self.error.clone(),
            status: match &self.status {
                Some(s) => Some(s.clone()),
                None => None,
            },
        }
    }
}

impl TryRecoverView {
    /// A failure that nothing can be done about.
    pub open spec fn terminal(error: ErrorView) -> TryRecoverView {
        TryRecoverView { error, status: None }
    }

    /// Whether the failure can be put right: the destination was taken, and
    /// what was being done is known.
    pub open spec fn recoverable(self) -> bool {
        self.error.kind == ErrorKind::AlreadyExists && self.status is Some
    }
}

/// An attempt to put a failure right, in progress.
#[derive(Debug)]
pub enum Recovery {
    /// Nothing can be done about the failure.
    Refused(Error),
    /// A file is transferred again over what was in its way.
    File(FileTransfer),
    /// A directory is transferred again into what was in its way.
    Directory(DirTransfer),
}

/// The mathematical value of a [`Recovery`].
pub enum RecoveryView {
    Refused(ErrorView),
    File(FileTransferView),
    Directory(DirTransferView),
}

impl View for Recovery {
    type V = RecoveryView;

    open spec fn view(&self) -> RecoveryView {
        match self {
            Recovery::Refused(e) => RecoveryView::Refused(e@),
            Recovery::File(t) => RecoveryView::File(t@),
            Recovery::Directory(t) => RecoveryView::Directory(t@),
        }
    }
}

impl RecoveryView {
    /// The attempt after `reply`, and what it asks next. An attempt that
    /// asks nothing more is over.
    pub open spec fn next(self, reply: ReplyView) -> (RecoveryView, Option<RequestView>) {
        match self {
            RecoveryView::Refused(e) => (self, None),
            RecoveryView::File(t) => (RecoveryView::File(t.next(reply).0), t.next(reply).1),
            RecoveryView::Directory(t) => (
                RecoveryView::Directory(t.next(reply).0),
                t.next(reply).1,
            ),
        }
    }

    /// Whether the attempt is over.
    pub open spec fn done(self) -> bool {
        match self {
            RecoveryView::Refused(_) => true,
            RecoveryView::File(t) => t.done(),
            RecoveryView::Directory(t) => t.done(),
        }
    }

    /// How the attempt went, once it is over. A failure of the attempt is
    /// final: it says no more what was being done.
    pub open spec fn outcome(self) -> Result<(), ErrorView> {
        match self {
            RecoveryView::Refused(e) => Err(e),
            RecoveryView::File(t) => match t.outcome() {
                Ok(_) => Ok(()),
                Err(f) => Err(f.error),
            },
            RecoveryView::Directory(t) => match t.outcome() {
                Ok(_) => Ok(()),
                Err(f) => Err(f.error),
            },
        }
    }

    /// Where the entity is, once the attempt is over: after a move that went
    /// well, at the destination.
    pub open spec fn entity(self) -> Option<Seq<Seq<char>>> {
        match self {
            RecoveryView::Refused(_) => None,
            RecoveryView::File(t) => Some(t.source),
            RecoveryView::Directory(t) => Some(t.source),
        }
    }
}

impl Recovery {
    /// Takes the reply to the last request and gives the next request, or
    /// none when the attempt is over.
    pub fn step(self, reply: Reply) -> (r: (Recovery, Option<Request>))
        ensures
            (r.0@, asked(r.1)) == self@.next(reply@),
    {
        match self {
            Recovery::Refused(e) => (Recovery::Refused(e), None),
            Recovery::File(t) => {
                let (t, ask) = t.step(reply);
                (Recovery::File(t), ask)
            },
            Recovery::Directory(t) => {
                let (t, ask) = t.step(reply);
                (Recovery::Directory(t), ask)
            },
        }
    }

    /// Whether the attempt is over.
    pub fn is_done(&self) -> (r: bool)
        ensures
            r == self@.done(),
    {
        match self {
            Recovery::Refused(_) => true,
            Recovery::File(t) => t.is_done(),
            Recovery::Directory(t) => t.is_done(),
        }
    }

    /// How the attempt went, once it is over.
    pub fn outcome(&self) -> (r: Result<(), Error>)
        ensures
            match self@.outcome() {
                Ok(_) => r is Ok,
                Err(e) => r matches Err(x) && x@ == e,
            },
    {
        match self {
            Recovery::Refused(e) => Err(e.clone()),
            Recovery::File(t) => match t.outcome() {
                Ok(_) => Ok(()),
                Err(f) => Err(f.into_error()),
            },
            Recovery::Directory(t) => match t.outcome() {
                Ok(_) => Ok(()),
                Err(f) => Err(f.into_error()),
            },
        }
    }

    /// Where the entity is, once the attempt is over.
    pub fn entity(&self) -> (r: Option<FsPath>)
        ensures
            owned_view(r) == self@.entity(),
    {
        match self {
            Recovery::Refused(_) => None,
            Recovery::File(t) => Some(t.entity().as_path().clone()),
            Recovery::Directory(t) => Some(t.entity().as_path().clone()),
        }
    }
}

impl TryRecoverView {
    /// The attempt to put the failure right, and the question it starts
    /// with. Only a taken destination can be put right, and only where what
    /// was being done is known: any other failure is handed back. A file is
    /// transferred again after what is in its way was deleted. A directory
    /// is copied into the directory that is in its way, or moved onto it.
    pub open spec fn try_recover(self, home: Option<Seq<Seq<char>>>) -> (
        RecoveryView,
        Option<RequestView>,
    ) {
        if self.error.kind == ErrorKind::AlreadyExists {
            match self.status {
                Some(StatusView::CopyFile(f, to)) => (
                    RecoveryView::File(FileTransferView::recover(f, to, true).0),
                    FileTransferView::recover(f, to, true).1,
                ),
                Some(StatusView::MoveFile(f, to)) => (
                    RecoveryView::File(FileTransferView::recover(f, to, false).0),
                    FileTransferView::recover(f, to, false).1,
                ),
                Some(StatusView::CopyDirectory(d, to)) => (
                    RecoveryView::Directory(DirTransferView::recover(d, to, home, true).0),
                    DirTransferView::recover(d, to, home, true).1,
                ),
                Some(StatusView::MoveDirectory(d, to)) => (
                    RecoveryView::Directory(DirTransferView::recover(d, to, home, false).0),
                    DirTransferView::recover(d, to, home, false).1,
                ),
                None => (RecoveryView::Refused(self.error), None),
            }
        } else {
            (RecoveryView::Refused(self.error), None)
        }
    }

    /// Whether putting the failure right walks a tree, which is where the
    /// home directory can matter.
    pub open spec fn walks(self) -> bool {
        self.error.kind == ErrorKind::AlreadyExists && (self.status matches Some(
            StatusView::CopyDirectory(_, _),
        ) || self.status matches Some(StatusView::MoveDirectory(_, _)))
    }
}

impl TryRecover {
    /// Starts the attempt to put the failure right; `home` is what `~`
    /// stands for.
    pub fn try_recover_with(self, home: Option<FsPath>) -> (r: (Recovery, Option<Request>))
        ensures
            (r.0@, asked(r.1)) == self@.try_recover(owned_view(home)),
    {
        match self.error.kind() {
            ErrorKind::AlreadyExists => match self.status {
                Some(Status::CopyFile(f, to)) => {
                    let (t, ask) = FileTransfer::recover(f, to, true);
                    (Recovery::File(t), ask)
                },
                Some(Status::MoveFile(f, to)) => {
                    let (t, ask) = FileTransfer::recover(f, to, false);
                    (Recovery::File(t), ask)
                },
                Some(Status::CopyDirectory(d, to)) => {
                    let (t, ask) = DirTransfer::recover(d, to, home, true);
                    (Recovery::Directory(t), ask)
                },
                Some(Status::MoveDirectory(d, to)) => {
                    let (t, ask) = DirTransfer::recover(d, to, home, false);
                    (Recovery::Directory(t), ask)
                },
                None => (Recovery::Refused(self.error), None),
            },
            _ => (Recovery::Refused(self.error), None),
        }
    }

    /// Starts the attempt to put the failure right. The home directory is
    /// looked up where a tree is to be walked.
    pub fn try_recover(self) -> (r: (Recovery, Option<Request>))
        ensures
            exists|home: Option<Seq<Seq<char>>>|
                (!self@.walks() ==> home is None) && #[trigger] self@.try_recover(home) == (
                    r.0@,
                    asked(r.1),
                ),
    {
        let walks = match self.error.kind() {
            ErrorKind::AlreadyExists => match &self.status {
                Some(Status::CopyDirectory(_, _)) => true,
                Some(Status::MoveDirectory(_, _)) => true,
                _ => false,
            },
            _ => false,
        };
        let home = if walks {
            home_dir()
        } else {
            None
        };
        let ghost h = owned_view(home);
        let ghost before = self@;
        let r = self.try_recover_with(home);
        assert(before.try_recover(h) == (r.0@, asked(r.1)));
        r
    }

    /// The failure `error`, met while doing `status`.
    pub fn new(error: Error, status: Status) -> (t: TryRecover)
        ensures
            t@ == (TryRecoverView { error: error@, status: Some(status@) }),
    {
        TryRecover { error, status: Some(status) }
    }

    /// The failure alone, without what was being done.
    pub fn into_error(self) -> (e: Error)
        ensures
            e@ == self@.error,
    {
        self.error
    }
}

impl From<Error> for TryRecover {
    fn from(value: Error) -> (t: TryRecover) {
        TryRecover { error: value, status: None }
    }
}

impl FromSpecImpl<Error> for TryRecover {
    open spec fn obeys_from_spec() -> bool {
        true
    }

    open spec fn from_spec(value: Error) -> TryRecover {
        TryRecover { error: value, status: None }
    }
}

impl From<TryRecover> for Error {
    fn from(value: TryRecover) -> (e: Error) {
        value.error
    }
}

impl FromSpecImpl<TryRecover> for Error {
    open spec fn obeys_from_spec() -> bool {
        true
    }

    open spec fn from_spec(value: TryRecover) -> Error {
        value.error
    }
}

} // verus!
