//! What an operation asks of the file system, and what it is told in return.
//!
//! The library decides; whoever drives it acts. An operation hands out one
//! [`Request`] at a time and takes the [`Reply`] to it before it hands out
//! the next.

use vstd::prelude::*;
use crate::error::{Error, ErrorKind, ErrorView};
use crate::path::FsPath;

verus! {

/// One action on the file system.
#[derive(Debug)]
pub enum Request {
    /// The working directory of the process. Answered by [`Reply::Path`].
    CurrentDir,
    /// Whether anything exists at the path. Answered by [`Reply::Flag`].
    Exists(FsPath),
    /// Whether a directory exists at the path. Answered by [`Reply::Flag`].
    IsDir(FsPath),
    /// Size and permissions of what is at the path. Answered by
    /// [`Reply::Meta`].
    Metadata(FsPath),
    /// Make what is at the path read-only, or writable again.
    SetReadonly(FsPath, bool),
    /// Remove the file at the path.
    RemoveFile(FsPath),
    /// Remove the directory at the path with all that it holds.
    RemoveDirAll(FsPath),
    /// Copy the bytes of the first file to the second path.
    Copy(FsPath, FsPath),
    /// Rename what is at the first path to the second.
    Rename(FsPath, FsPath),
    /// Create the directory at the path, and those above it that are missing.
    CreateDirAll(FsPath),
    /// The entries of the directory at the path. Answered by
    /// [`Reply::Entries`].
    ReadDir(FsPath),
    /// Create an empty file at the path, or empty the one that is there.
    CreateFile(FsPath),
    /// Open the file at the path and report where the system says it is.
    /// Answered by [`Reply::Path`].
    OpenFile(FsPath),
    /// The bytes of the file at the path. Answered by [`Reply::Bytes`].
    ReadFile(FsPath),
}

/// The mathematical value of a [`Request`].
pub enum RequestView {
    CurrentDir,
    Exists(Seq<Seq<char>>),
    IsDir(Seq<Seq<char>>),
    Metadata(Seq<Seq<char>>),
    SetReadonly(Seq<Seq<char>>, bool),
    RemoveFile(Seq<Seq<char>>),
    RemoveDirAll(Seq<Seq<char>>),
    Copy(Seq<Seq<char>>, Seq<Seq<char>>),
    Rename(Seq<Seq<char>>, Seq<Seq<char>>),
    CreateDirAll(Seq<Seq<char>>),
    ReadDir(Seq<Seq<char>>),
    CreateFile(Seq<Seq<char>>),
    OpenFile(Seq<Seq<char>>),
    ReadFile(Seq<Seq<char>>),
}

impl View for Request {
    type V = RequestView;

    open spec fn view(&self) -> RequestView {
        match self {
            Request::CurrentDir => RequestView::CurrentDir,
            Request::Exists(p) => RequestView::Exists(p@),
            Request::IsDir(p) => RequestView::IsDir(p@),
            Request::Metadata(p) => RequestView::Metadata(p@),
            Request::SetReadonly(p, flag) => RequestView::SetReadonly(p@, *flag),
            Request::RemoveFile(p) => RequestView::RemoveFile(p@),
            Request::RemoveDirAll(p) => RequestView::RemoveDirAll(p@),
            Request::Copy(from, to) => RequestView::Copy(from@, to@),
            Request::Rename(from, to) => RequestView::Rename(from@, to@),
            Request::CreateDirAll(p) => RequestView::CreateDirAll(p@),
            Request::ReadDir(p) => RequestView::ReadDir(p@),
            Request::CreateFile(p) => RequestView::CreateFile(p@),
            Request::OpenFile(p) => RequestView::OpenFile(p@),
            Request::ReadFile(p) => RequestView::ReadFile(p@),
        }
    }
}

/// The view of a request that may be absent.
pub open spec fn asked(r: Option<Request>) -> Option<RequestView> {
    match r {
        Some(r) => Some(r@),
        None => None,
    }
}

/// What an entry of a directory is.
#[derive(Clone, Copy, Debug, PartialEq, Eq, Structural)]
pub enum EntryKind {
    File,
    Directory,
    /// Neither a file nor a directory, or nothing that could be looked at.
    Other,
}

/// An entry of a directory: where it is and what it is.
#[derive(Debug)]
pub struct DirEntry {
    pub path: FsPath,
    pub kind: EntryKind,
}

/// The mathematical value of a [`DirEntry`].
pub struct DirEntryView {
    pub path: Seq<Seq<char>>,
    pub kind: EntryKind,
}

impl View for DirEntry {
    type V = DirEntryView;

    open spec fn view(&self) -> DirEntryView {
        DirEntryView { path: self.path@, kind: self.kind }
    }
}

/// The values of a list of entries.
pub open spec fn entries_of(v: Seq<DirEntry>) -> Seq<DirEntryView> {
    Seq::new(v.len(), |i: int| v[i]@)
}

/// What the system knows of an entry, as far as the library reads it.
#[derive(Clone, Copy, Debug, PartialEq, Eq, Structural)]
pub struct Metadata {
    pub len: u64,
    pub readonly: bool,
}

/// The answer to a [`Request`].
#[derive(Debug)]
pub enum Reply {
    /// The action was carried out.
    Done,
    /// The answer to a yes-or-no question.
    Flag(bool),
    /// A path that the system reported.
    Path(FsPath),
    /// Size and permissions.
    Meta(Metadata),
    /// The entries of a directory, in the order in which the system gave them.
    Entries(Vec<DirEntry>),
    /// The bytes of a file.
    Bytes(Vec<u8>),
    /// The action failed.
    Failed(Error),
}

/// The mathematical value of a [`Reply`].
pub enum ReplyView {
    Done,
    Flag(bool),
    Path(Seq<Seq<char>>),
    Meta(Metadata),
    Entries(Seq<DirEntryView>),
    Bytes(Seq<u8>),
    Failed(ErrorView),
}

impl View for Reply {
    type V = ReplyView;

    open spec fn view(&self) -> ReplyView {
        match self {
            Reply::Done => ReplyView::Done,
            Reply::Flag(b) => ReplyView::Flag(*b),
            Reply::Path(p) => ReplyView::Path(p@),
            Reply::Meta(m) => ReplyView::Meta(*m),
            Reply::Entries(v) => ReplyView::Entries(entries_of(v@)),
            Reply::Bytes(b) => ReplyView::Bytes(b@),
            Reply::Failed(e) => ReplyView::Failed(e@),
        }
    }
}

/// The failure reported for a reply that does not answer the request.
pub open spec fn unexpected_reply() -> ErrorView {
    ErrorView { kind: ErrorKind::Other, code: None, message: "Unexpected reply"@ }
}

fn unexpected() -> (e: Error)
    ensures
        e@ == unexpected_reply(),
{
    Error::new(ErrorKind::Other, String::from_str("Unexpected reply"))
}

impl ReplyView {
    /// Read as the outcome of an action that has nothing to say.
    pub open spec fn unit(self) -> Result<(), ErrorView> {
        match self {
            ReplyView::Done => Ok(()),
            ReplyView::Failed(e) => Err(e),
            _ => Err(unexpected_reply()),
        }
    }

    /// Read as the answer to a yes-or-no question.
    pub open spec fn flag(self) -> Result<bool, ErrorView> {
        match self {
            ReplyView::Flag(b) => Ok(b),
            ReplyView::Failed(e) => Err(e),
            _ => Err(unexpected_reply()),
        }
    }

    /// Read as a path.
    pub open spec fn path(self) -> Result<Seq<Seq<char>>, ErrorView> {
        match self {
            ReplyView::Path(p) => Ok(p),
            ReplyView::Failed(e) => Err(e),
            _ => Err(unexpected_reply()),
        }
    }

    /// Read as size and permissions.
    pub open spec fn meta(self) -> Result<Metadata, ErrorView> {
        match self {
            ReplyView::Meta(m) => Ok(m),
            ReplyView::Failed(e) => Err(e),
            _ => Err(unexpected_reply()),
        }
    }

    /// Read as the entries of a directory.
    pub open spec fn entries(self) -> Result<Seq<DirEntryView>, ErrorView> {
        match self {
            ReplyView::Entries(v) => Ok(v),
            ReplyView::Failed(e) => Err(e),
            _ => Err(unexpected_reply()),
        }
    }

    /// Read as the bytes of a file.
    pub open spec fn bytes(self) -> Result<Seq<u8>, ErrorView> {
        match self {
            ReplyView::Bytes(b) => Ok(b),
            ReplyView::Failed(e) => Err(e),
            _ => Err(unexpected_reply()),
        }
    }
}

impl Reply {
    /// The outcome of an action that has nothing to say.
    pub fn unit(self) -> (r: Result<(), Error>)
        ensures
            match self@.unit() {
                Ok(_) => r is Ok,
                Err(e) => r matches Err(x) && x@ == e,
            },
    {
        match self {
            Reply::Done => Ok(()),
            Reply::Failed(e) => Err(e),
            _ => Err(unexpected()),
        }
    }

    /// The answer to a yes-or-no question.
    pub fn flag(self) -> (r: Result<bool, Error>)
        ensures
            match self@.flag() {
                Ok(b) => r == Ok::<bool, Error>(b),
                Err(e) => r matches Err(x) && x@ == e,
            },
    {
        match self {
            Reply::Flag(b) => Ok(b),
            Reply::Failed(e) => Err(e),
            _ => Err(unexpected()),
        }
    }

    /// The path that the system reported.
    pub fn path(self) -> (r: Result<FsPath, Error>)
        ensures
            match self@.path() {
                Ok(p) => r matches Ok(x) && x@ == p,
                Err(e) => r matches Err(x) && x@ == e,
            },
    {
        match self {
            Reply::Path(p) => Ok(p),
            Reply::Failed(e) => Err(e),
            _ => Err(unexpected()),
        }
    }

    /// Size and permissions.
    pub fn meta(self) -> (r: Result<Metadata, Error>)
        ensures
            match self@.meta() {
                Ok(m) => r == Ok::<Metadata, Error>(m),
                Err(e) => r matches Err(x) && x@ == e,
            },
    {
        match self {
            Reply::Meta(m) => Ok(m),
            Reply::Failed(e) => Err(e),
            _ => Err(unexpected()),
        }
    }

    /// The entries of a directory.
    pub fn entries(self) -> (r: Result<Vec<DirEntry>, Error>)
        ensures
            match self@.entries() {
                Ok(v) => r matches Ok(x) && entries_of(x@) == v,
                Err(e) => r matches Err(x) && x@ == e,
            },
    {
        match self {
            Reply::Entries(v) => Ok(v),
            Reply::Failed(e) => Err(e),
            _ => Err(unexpected()),
        }
    }

    /// The bytes of a file.
    pub fn bytes(self) -> (r: Result<Vec<u8>, Error>)
        ensures
            match self@.bytes() {
                Ok(b) => r matches Ok(x) && x@ == b,
                Err(e) => r matches Err(x) && x@ == e,
            },
    {
        match self {
            Reply::Bytes(b) => Ok(b),
            Reply::Failed(e) => Err(e),
            _ => Err(unexpected()),
        }
    }
}

} // verus!
