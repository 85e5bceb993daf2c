//! Finding out that a file or a directory is where it is said to be, and
//! creating a file.

use vstd::prelude::*;
use crate::error::{
    invalid_path, not_a_directory, not_a_directory_at, not_a_file, not_a_file_at, Error,
    ErrorView, INVALID_PATH,
};
use crate::normalize::{fix_path_with, fixed, found, normal, owned_view, lemma_fixed_is_normal};
use crate::path::{absolute, parent_of, well_formed, FsPath};
use crate::request::{asked, Reply, ReplyView, Request, RequestView};

verus! {

/// What is to be opened.
#[derive(Clone, Copy, Debug, PartialEq, Eq, Structural)]
pub enum OpenKind {
    /// A directory that exists.
    Directory,
    /// A file that exists.
    File,
    /// A file that is created, along with the directories above it.
    Create,
}

/// How far an opening has come.
#[derive(Clone, Copy, Debug, PartialEq, Eq, Structural)]
pub enum OpenPhase {
    /// Waiting for the file to be opened.
    Opening,
    /// Waiting for the working directory, to make the path absolute.
    Resolve,
    /// Waiting to learn whether a directory is at the path.
    Check,
    /// Waiting to learn whether the directory of the path exists.
    CheckParent,
    /// Waiting for the directory of the path to be created.
    MakeParent,
    /// Waiting for the file to be created.
    Create,
    /// Nothing more to do.
    Done,
}

/// An opening in progress.
///
/// The path is made absolute and normal. A directory must then be a
/// directory and a file must not be one, or the opening fails as not
/// found. A file is opened first, and it is the path that the system
/// reports for the open file that is put in normal form.
#[derive(Debug)]
pub struct Open {
    kind: OpenKind,
    raw: FsPath,
    home: Option<FsPath>,
    path: FsPath,
    phase: OpenPhase,
    failure: Option<Error>,
}

/// The mathematical value of an [`Open`].
pub struct OpenView {
    pub kind: OpenKind,
    /// The path as it was asked for, or as the system reported it.
    pub raw: Seq<Seq<char>>,
    /// The home directory that `~` stands for.
    pub home: Option<Seq<Seq<char>>>,
    /// The path in normal form, once it is known.
    pub path: Seq<Seq<char>>,
    pub phase: OpenPhase,
    pub failure: Option<ErrorView>,
}

impl View for Open {
    type V = OpenView;

    closed spec fn view(&self) -> OpenView {
        OpenView {
            kind: self.kind,
            raw: self.raw@,
            home: owned_view(self.home),
            path: self.path@,
            phase: self.phase,
            failure: match self.failure {
                Some(e) => Some(e@),
                None => None,
            },
        }
    }
}

impl OpenView {
    /// The opening in the given phase.
    pub open spec fn at(self, phase: OpenPhase) -> OpenView {
        OpenView { phase, ..self }
    }

    /// The opening given up for the failure `e`.
    pub open spec fn failed(self, e: ErrorView) -> (OpenView, Option<RequestView>) {
        (OpenView { phase: OpenPhase::Done, failure: Some(e), ..self }, None)
    }

    /// With the path in normal form the opening looks at what is there, or
    /// for a file to create, at the directory above; without one it ends.
    pub open spec fn located(self, path: Option<Seq<Seq<char>>>) -> (OpenView, Option<RequestView>) {
        match path {
            Some(p) => match self.kind {
                OpenKind::Create => match parent_of(p) {
                    Some(dir) => (
                        OpenView { path: p, phase: OpenPhase::CheckParent, ..self },
                        Some(RequestView::IsDir(dir)),
                    ),
                    None => self.failed(invalid_path()),
                },
                _ => (
                    OpenView { path: p, phase: OpenPhase::Check, ..self },
                    Some(RequestView::IsDir(p)),
                ),
            },
            None => self.failed(invalid_path()),
        }
    }

    /// An absolute path is put in normal form at once; a relative one needs
    /// the working directory first.
    pub open spec fn resolve(self) -> (OpenView, Option<RequestView>) {
        if absolute(self.raw) {
            self.located(fixed(self.raw, None, self.home))
        } else {
            (self.at(OpenPhase::Resolve), Some(RequestView::CurrentDir))
        }
    }

    /// The opening asks for the file to be created.
    pub open spec fn creating(self) -> (OpenView, Option<RequestView>) {
        (self.at(OpenPhase::Create), Some(RequestView::CreateFile(self.path)))
    }

    /// The opening of `raw`, before anything is known, and the question it
    /// starts with.
    pub open spec fn start(kind: OpenKind, raw: Seq<Seq<char>>, home: Option<Seq<Seq<char>>>) -> (
        OpenView,
        Option<RequestView>,
    ) {
        let s = OpenView {
            kind,
            raw,
            home,
            path: Seq::empty(),
            phase: OpenPhase::Opening,
            failure: None,
        };
        match kind {
            OpenKind::File => (s, Some(RequestView::OpenFile(raw))),
            _ => s.resolve(),
        }
    }

    /// The failure for finding the wrong kind of thing at the path.
    pub open spec fn wrong_kind(self) -> ErrorView {
        match self.kind {
            OpenKind::Directory => not_a_directory_at(self.path),
            _ => not_a_file_at(self.path),
        }
    }

    /// The opening after `reply`, and what it asks next. An opening that
    /// asks nothing more is over.
    pub open spec fn next(self, reply: ReplyView) -> (OpenView, Option<RequestView>) {
        match self.phase {
            OpenPhase::Opening => match reply.path() {
                Ok(reported) => (OpenView { raw: reported, ..self }).resolve(),
                Err(e) => self.failed(e),
            },
            OpenPhase::Resolve => match reply.path() {
                Ok(cwd) => self.located(fixed(self.raw, Some(cwd), self.home)),
                Err(_) => self.failed(invalid_path()),
            },
            OpenPhase::Check => match reply.flag() {
                Ok(is_dir) => if is_dir == (self.kind == OpenKind::Directory) {
                    (self.at(OpenPhase::Done), None)
                } else {
                    self.failed(self.wrong_kind())
                },
                Err(e) => self.failed(e),
            },
            OpenPhase::CheckParent => match reply.flag() {
                Ok(there) => if there {
                    self.creating()
                } else {
                    match parent_of(self.path) {
                        Some(dir) => (
                            self.at(OpenPhase::MakeParent),
                            Some(RequestView::CreateDirAll(dir)),
                        ),
                        None => self.failed(invalid_path()),
                    }
                },
                Err(e) => self.failed(e),
            },
            OpenPhase::MakeParent => match reply.unit() {
                Ok(_) => self.creating(),
                Err(e) => self.failed(e),
            },
            OpenPhase::Create => match reply.unit() {
                Ok(_) => (self.at(OpenPhase::Done), None),
                Err(e) => self.failed(e),
            },
            OpenPhase::Done => (self, None),
        }
    }

    /// Whether the opening is over.
    pub open spec fn done(self) -> bool {
        self.phase == OpenPhase::Done
    }

    /// What the opening found, for one who wants a directory, or a file:
    /// an opening of the other kind has found none.
    pub open spec fn found_as(self, directory: bool) -> Result<Seq<Seq<char>>, ErrorView> {
        match self.outcome() {
            Ok(p) => if directory == (self.kind == OpenKind::Directory) {
                Ok(p)
            } else if directory {
                Err(not_a_directory_at(p))
            } else {
                Err(not_a_file_at(p))
            },
            Err(e) => Err(e),
        }
    }

    /// What the opening found, once it is over: the path in normal form.
    pub open spec fn outcome(self) -> Result<Seq<Seq<char>>, ErrorView> {
        match self.failure {
            Some(e) => Err(e),
            None => Ok(self.path),
        }
    }
}

impl Open {
    fn at(self, phase: OpenPhase) -> (r: Open)
        ensures
            r@ == self@.at(phase),
    {
        Open { phase, ..self }
    }

    fn failed(self, e: Error) -> (r: (Open, Option<Request>))
        ensures
            (r.0@, asked(r.1)) == self@.failed(e@),
    {
        (Open { phase: OpenPhase::Done, failure: Some(e), ..self }, None)
    }

    fn refused(self) -> (r: (Open, Option<Request>))
        ensures
            (r.0@, asked(r.1)) == self@.failed(invalid_path()),
    {
        let no: Result<(), Error> = INVALID_PATH();
        match no {
            Err(e) => self.failed(e),
            Ok(_) => (self, None),
        }
    }

    fn located(self, path: Result<FsPath, Error>) -> (r: (Open, Option<Request>))
        ensures
            (r.0@, asked(r.1)) == self@.located(found(path)),
    {
        match path {
            Ok(p) => match self.kind {
                OpenKind::Create => match p.parent() {
                    Some(dir) => (
                        Open { path: p, phase: OpenPhase::CheckParent, ..self },
                        Some(Request::IsDir(dir)),
                    ),
                    None => self.refused(),
                },
                _ => {
                    let ask = Request::IsDir(p.clone());
                    (Open { path: p, phase: OpenPhase::Check, ..self }, Some(ask))
                },
            },
            Err(_) => self.refused(),
        }
    }

    fn resolve(self) -> (r: (Open, Option<Request>))
        ensures
            (r.0@, asked(r.1)) == self@.resolve(),
    {
        if self.raw.is_absolute() {
            let path = fix_path_with(&self.raw, None, self.home.as_ref());
            self.located(path)
        } else {
            (self.at(OpenPhase::Resolve), Some(Request::CurrentDir))
        }
    }

    fn creating(self) -> (r: (Open, Option<Request>))
        ensures
            (r.0@, asked(r.1)) == self@.creating(),
    {
        let ask = Request::CreateFile(self.path.clone());
        (self.at(OpenPhase::Create), Some(ask))
    }

    /// Starts the opening of `raw`; `home` is what `~` stands for.
    pub fn start(kind: OpenKind, raw: FsPath, home: Option<FsPath>) -> (r: (Open, Option<Request>))
        ensures
            (r.0@, asked(r.1)) == OpenView::start(kind, raw@, owned_view(home)),
    {
        let s = Open {
            kind,
            raw,
            home,
            path: FsPath::new(),
            phase: OpenPhase::Opening,
            failure: None,
        };
        match kind {
            OpenKind::File => {
                let ask = Request::OpenFile(s.raw.clone());
                (s, Some(ask))
            },
            _ => s.resolve(),
        }
    }

    /// Takes the reply to the last request and gives the next request, or
    /// none when the opening is over.
    pub fn step(self, reply: Reply) -> (r: (Open, Option<Request>))
        ensures
            (r.0@, asked(r.1)) == self@.next(reply@),
    {
        match self.phase {
            OpenPhase::Opening => match reply.path() {
                Ok(reported) => (Open { raw: reported, ..self }).resolve(),
                Err(e) => self.failed(e),
            },
            OpenPhase::Resolve => match reply.path() {
                Ok(cwd) => {
                    let path = fix_path_with(&self.raw, Some(&cwd), self.home.as_ref());
                    self.located(path)
                },
                Err(_) => self.refused(),
            },
            OpenPhase::Check => match reply.flag() {
                Ok(is_dir) => {
                    let wants_dir = match self.kind {
                        OpenKind::Directory => true,
                        _ => false,
                    };
                    if is_dir == wants_dir {
                        (self.at(OpenPhase::Done), None)
                    } else {
                        let e = if wants_dir {
                            not_a_directory(&self.path)
                        } else {
                            not_a_file(&self.path)
                        };
                        self.failed(e)
                    }
                },
                Err(e) => self.failed(e),
            },
            OpenPhase::CheckParent => match reply.flag() {
                Ok(there) => {
                    if there {
                        self.creating()
                    } else {
                        match self.path.parent() {
                            Some(dir) => (
                                self.at(OpenPhase::MakeParent),
                                Some(Request::CreateDirAll(dir)),
                            ),
                            None => self.refused(),
                        }
                    }
                },
                Err(e) => self.failed(e),
            },
            OpenPhase::MakeParent => match reply.unit() {
                Ok(_) => self.creating(),
                Err(e) => self.failed(e),
            },
            OpenPhase::Create => match reply.unit() {
                Ok(_) => (self.at(OpenPhase::Done), None),
                Err(e) => self.failed(e),
            },
            OpenPhase::Done => (self, None),
        }
    }

    /// Whether the opening is over.
    pub fn is_done(&self) -> (r: bool)
        ensures
            r == self@.done(),
    {
        match self.phase {
            OpenPhase::Done => true,
            _ => false,
        }
    }

    /// What the opening found, for one who wants a directory, or a file.
    pub fn found_as(&self, directory: bool) -> (r: Result<FsPath, Error>)
        ensures
            match self@.found_as(directory) {
                Ok(p) => r matches Ok(x) && x@ == p,
                Err(e) => r matches Err(x) && x@ == e,
            },
    {
        let opens_directory = match self.kind {
            OpenKind::Directory => true,
            _ => false,
        };
        match self.outcome() {
            Ok(p) => {
                if directory == opens_directory {
                    Ok(p)
                } else if directory {
                    Err(not_a_directory(&p))
                } else {
                    Err(not_a_file(&p))
                }
            },
            Err(e) => Err(e),
        }
    }

    /// What the opening found, once it is over: the path in normal form.
    pub fn outcome(&self) -> (r: Result<FsPath, Error>)
        ensures
            match self@.outcome() {
                Ok(p) => r matches Ok(x) && x@ == p,
                Err(e) => r matches Err(x) && x@ == e,
            },
    {
        match &self.failure {
            Some(e) => Err(e.clone()),
            None => Ok(self.path.clone()),
        }
    }
}

/// Opening what is there gives its normal form, and opening what is of the
/// other kind fails as not found: asked for an absolute path, the opening
/// of a directory looks whether a directory is at the normal form of the
/// path; told that one is, it ends well with that normal form, which is
/// absolute and free of `.` and `..`; told that none is, it fails as not
/// found.
pub proof fn lemma_open_directory(raw: Seq<Seq<char>>, home: Option<Seq<Seq<char>>>)
    requires
        well_formed(raw),
        absolute(raw),
        home matches Some(h) ==> normal(h),
        fixed(raw, None, home) is Some,
    ensures
        ({
            let p = fixed(raw, None, home)->0;
            let (s, ask) = OpenView::start(OpenKind::Directory, raw, home);
            &&& normal(p)
            &&& ask == Some(RequestView::IsDir(p))
            &&& s.next(ReplyView::Flag(true)).1 is None
            &&& s.next(ReplyView::Flag(true)).0.done()
            &&& s.next(ReplyView::Flag(true)).0.outcome() == Ok::<Seq<Seq<char>>, ErrorView>(p)
            &&& s.next(ReplyView::Flag(false)).1 is None
            &&& s.next(ReplyView::Flag(false)).0.done()
            &&& s.next(ReplyView::Flag(false)).0.outcome() == Err::<Seq<Seq<char>>, ErrorView>(
                not_a_directory_at(p),
            )
        }),
{
    lemma_fixed_is_normal(raw, None, home);
}

/// A relative path is opened from the working directory: the opening of a
/// directory asks for the working directory first, and looks at the normal
/// form of the path from there.
pub proof fn lemma_open_relative_directory(
    raw: Seq<Seq<char>>,
    cwd: Seq<Seq<char>>,
    home: Option<Seq<Seq<char>>>,
)
    requires
        well_formed(raw),
        !absolute(raw),
        normal(cwd),
        home matches Some(h) ==> normal(h),
        fixed(raw, Some(cwd), home) is Some,
    ensures
        ({
            let p = fixed(raw, Some(cwd), home)->0;
            let (s0, ask0) = OpenView::start(OpenKind::Directory, raw, home);
            let (s, ask) = s0.next(ReplyView::Path(cwd));
            &&& normal(p)
            &&& ask0 == Some(RequestView::CurrentDir)
            &&& ask == Some(RequestView::IsDir(p))
            &&& s.next(ReplyView::Flag(true)).1 is None
            &&& s.next(ReplyView::Flag(true)).0.done()
            &&& s.next(ReplyView::Flag(true)).0.outcome() == Ok::<Seq<Seq<char>>, ErrorView>(p)
            &&& s.next(ReplyView::Flag(false)).0.outcome() == Err::<Seq<Seq<char>>, ErrorView>(
                not_a_directory_at(p),
            )
        }),
{
    lemma_fixed_is_normal(raw, Some(cwd), home);
}

/// The same of a file: the system opens it and reports where it is; the
/// opening looks whether a directory is at the normal form of that path;
/// told that one is, it fails as not found; told that none is, it ends well
/// with that normal form.
pub proof fn lemma_open_file(
    raw: Seq<Seq<char>>,
    reported: Seq<Seq<char>>,
    home: Option<Seq<Seq<char>>>,
)
    requires
        well_formed(reported),
        absolute(reported),
        home matches Some(h) ==> normal(h),
        fixed(reported, None, home) is Some,
    ensures
        ({
            let p = fixed(reported, None, home)->0;
            let (s0, ask0) = OpenView::start(OpenKind::File, raw, home);
            let (s, ask) = s0.next(ReplyView::Path(reported));
            &&& normal(p)
            &&& ask0 == Some(RequestView::OpenFile(raw))
            &&& ask == Some(RequestView::IsDir(p))
            &&& s.next(ReplyView::Flag(false)).1 is None
            &&& s.next(ReplyView::Flag(false)).0.done()
            &&& s.next(ReplyView::Flag(false)).0.outcome() == Ok::<Seq<Seq<char>>, ErrorView>(p)
            &&& s.next(ReplyView::Flag(true)).1 is None
            &&& s.next(ReplyView::Flag(true)).0.done()
            &&& s.next(ReplyView::Flag(true)).0.outcome() == Err::<Seq<Seq<char>>, ErrorView>(
                not_a_file_at(p),
            )
        }),
{
    lemma_fixed_is_normal(reported, None, home);
}

} // verus!
