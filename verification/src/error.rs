//! The failures that an operation on the file system can end in.

use vstd::prelude::*;
use crate::path::{text_of, FsPath};

verus! {

/// What went wrong, as far as the library tells failures apart.
#[derive(Clone, Copy, Debug, PartialEq, Eq, Structural)]
pub enum ErrorKind {
    /// Nothing of the asked kind exists at the path.
    NotFound,
    /// The path cannot be used for what was asked.
    InvalidInput,
    /// The destination is taken.
    AlreadyExists,
    /// Any other failure that the system reported.
    Other,
}

/// A failure: its kind, the system's error number where it gave one, and a
/// message for people.
#[derive(Debug)]
pub struct Error {
    pub kind: ErrorKind,
    pub code: Option<i32>,
    pub message: String,
}

/// The mathematical value of an [`Error`].
pub struct ErrorView {
    pub kind: ErrorKind,
    pub code: Option<i32>,
    pub message: Seq<char>,
}

impl View for Error {
    type V = ErrorView;

    open spec fn view(&self) -> ErrorView {
        ErrorView { kind: self.kind, code: self.code, message: self.message@ }
    }
}

impl Clone for Error {
    fn clone(&self) -> (e: Error)
        ensures
            e@ == self@,
    {
        Error { kind: self.kind, code: self.code, message: self.message.clone() }
    }
}

impl Error {
    /// A failure of the given kind that the library itself reports.
    pub fn new(kind: ErrorKind, message: String) -> (e: Error)
        ensures
            e@ == (ErrorView { kind, code: None, message: message@ }),
    {
        Error { kind, code: None, message }
    }

    /// The kind of the failure.
    pub fn kind(&self) -> (k: ErrorKind)
        ensures
            k == self@.kind,
    {
        self.kind
    }

    /// The message, as text.
    pub fn to_string(&self) -> (s: String)
        ensures
            s@ == self@.message,
    {
        self.message.clone()
    }
}

/// The failure reported for a path that cannot be used.
pub open spec fn invalid_path() -> ErrorView {
    ErrorView { kind: ErrorKind::InvalidInput, code: None, message: "Invalid path"@ }
}

/// The failure reported when the destination `p` is taken.
pub open spec fn already_exists_at(p: Seq<Seq<char>>) -> ErrorView {
    ErrorView {
        kind: ErrorKind::AlreadyExists,
        code: None,
        message: "The path '"@ + text_of(p) + "' already exists!"@,
    }
}

/// The failure reported when `p` is no directory.
pub open spec fn not_a_directory_at(p: Seq<Seq<char>>) -> ErrorView {
    ErrorView {
        kind: ErrorKind::NotFound,
        code: None,
        message: "The path '"@ + text_of(p) + "' is not a directory or does not exist"@,
    }
}

/// The failure reported when `p` is no file.
pub open spec fn not_a_file_at(p: Seq<Seq<char>>) -> ErrorView {
    ErrorView {
        kind: ErrorKind::NotFound,
        code: None,
        message: "The path '"@ + text_of(p) + "' is not a file or does not exist"@,
    }
}

/// The failure for a path that cannot be used, as the `Err` of any result.
#[allow(non_snake_case)]
pub fn INVALID_PATH<T>() -> (r: Result<T, Error>)
    ensures
        r matches Err(e) && e@ == invalid_path(),
{
    Err(Error::new(ErrorKind::InvalidInput, String::from_str("Invalid path")))
}

/// The failure for a destination that is taken.
pub fn already_exist(path: &FsPath) -> (e: Error)
    ensures
        e@ == already_exists_at(path@),
{
    let mut message = String::from_str("The path '");
    let text = path.to_text();
    message.append(text.as_str());
    message.append("' already exists!");
    Error::new(ErrorKind::AlreadyExists, message)
}

/// The failure for a path at which no directory was found.
pub fn not_a_directory(path: &FsPath) -> (e: Error)
    ensures
        e@ == not_a_directory_at(path@),
{
    let mut message = String::from_str("The path '");
    let text = path.to_text();
    message.append(text.as_str());
    message.append("' is not a directory or does not exist");
    Error::new(ErrorKind::NotFound, message)
}

/// The failure for a path at which no file was found.
pub fn not_a_file(path: &FsPath) -> (e: Error)
    ensures
        e@ == not_a_file_at(path@),
{
    let mut message = String::from_str("The path '");
    let text = path.to_text();
    message.append(text.as_str());
    message.append("' is not a file or does not exist");
    Error::new(ErrorKind::NotFound, message)
}

} // verus!
