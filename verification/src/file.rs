//! Files, and how one is copied or moved.

use vstd::prelude::*;
use crate::delete::{Delete, DeleteView};
use crate::entity::{Action, Info};
use crate::error::{already_exist, already_exists_at, invalid_path, Error, ErrorView, INVALID_PATH};
use crate::is_same_root;
use crate::same_root;
use crate::measure::{Measure, MeasureView};
use crate::normalize::{
    fix_path_with, fixed, found, home_dir, lookup_home, mentions_home, owned_view,
};
use crate::open::{Open, OpenKind, OpenView};
use crate::path::{
    absolute, extension_of, file_name_of, is_normal, is_root, joined, last_dot, lemma_last_dot,
    lemma_last_dot_at, name_with_extension, parent_of, stem_of_name, valid_component,
    well_formed, with_extension, with_file_name, FsPath,
};
use crate::push_file_name;
use crate::recover::{Status, StatusView, TryRecover, TryRecoverView};
use crate::request::{asked, Reply, ReplyView, Request, RequestView};

verus! {

/// A file, known by its path.
#[derive(Debug)]
pub struct FileInfo {
    path: FsPath,
}

impl View for FileInfo {
    type V = Seq<Seq<char>>;

    closed spec fn view(&self) -> Seq<Seq<char>> {
        self.path@
    }
}

impl Clone for FileInfo {
    fn clone(&self) -> (f: FileInfo)
        ensures
            f@ == self@,
    {
        FileInfo { path: self.path.clone() }
    }
}

/// How far the transfer of a file has come.
#[derive(Debug)]
pub enum TransferPhase {
    /// Waiting for the working directory, to make the destination absolute.
    Resolve,
    /// Waiting to learn whether the destination is taken.
    Probe,
    /// Waiting for the directory of the destination to exist.
    MakeParent,
    /// Removing what is in the way at the destination.
    Clear(Delete),
    /// Waiting for the file to be renamed into place.
    Rename,
    /// Waiting for the bytes to be copied.
    Copy,
    /// Removing the source after its bytes were copied.
    Unlink(Delete),
    /// Nothing more to do.
    Done,
}

/// The mathematical value of a [`TransferPhase`].
pub enum TransferPhaseView {
    Resolve,
    Probe,
    MakeParent,
    Clear(DeleteView),
    Rename,
    Copy,
    Unlink(DeleteView),
    Done,
}

impl View for TransferPhase {
    type V = TransferPhaseView;

    open spec fn view(&self) -> TransferPhaseView {
        match self {
            TransferPhase::Resolve => TransferPhaseView::Resolve,
            TransferPhase::Probe => TransferPhaseView::Probe,
            TransferPhase::MakeParent => TransferPhaseView::MakeParent,
            TransferPhase::Clear(d) => TransferPhaseView::Clear(d@),
            TransferPhase::Rename => TransferPhaseView::Rename,
            TransferPhase::Copy => TransferPhaseView::Copy,
            TransferPhase::Unlink(d) => TransferPhaseView::Unlink(d@),
            TransferPhase::Done => TransferPhaseView::Done,
        }
    }
}

/// The copy or the move of one file, in progress.
///
/// The destination is made absolute and normal, then looked at. If it is
/// taken, the transfer ends with a failure that says what was being done. A
/// copy copies the bytes. A move makes sure that the directory of the
/// destination exists and renames the file; where renaming fails, or the
/// destination starts at another root, it copies the bytes and deletes the
/// source.
#[derive(Debug)]
pub struct FileTransfer {
    source: FileInfo,
    raw: FsPath,
    home: Option<FsPath>,
    dest: FsPath,
    is_copy: bool,
    phase: TransferPhase,
    failure: Option<TryRecover>,
}

/// The mathematical value of a [`FileTransfer`].
pub struct FileTransferView {
    /// Where the file is: the source, and after a move the destination.
    pub source: Seq<Seq<char>>,
    /// The destination as it was asked for.
    pub raw: Seq<Seq<char>>,
    /// The home directory that `~` stands for.
    pub home: Option<Seq<Seq<char>>>,
    /// The destination in normal form, once it is known.
    pub dest: Seq<Seq<char>>,
    pub is_copy: bool,
    pub phase: TransferPhaseView,
    pub failure: Option<TryRecoverView>,
}

impl View for FileTransfer {
    type V = FileTransferView;

    closed spec fn view(&self) -> FileTransferView {
        FileTransferView {
            source: self.source@,
            raw: self.raw@,
            home: owned_view(self.home),
            dest: self.dest@,
            is_copy: self.is_copy,
            phase: self.phase@,
            failure: match self.failure {
                Some(t) => Some(t@),
                None => None,
            },
        }
    }
}

impl FileTransferView {
    /// The transfer given up for the failure `e`.
    pub open spec fn failed(self, e: ErrorView) -> (FileTransferView, Option<RequestView>) {
        (
            FileTransferView {
                phase: TransferPhaseView::Done,
                failure: Some(TryRecoverView::terminal(e)),
                ..self
            },
            None,
        )
    }

    /// What was being done, for the failure that reports a taken destination.
    pub open spec fn status(self) -> StatusView {
        if self.is_copy {
            StatusView::CopyFile(self.source, self.dest)
        } else {
            StatusView::MoveFile(self.source, self.dest)
        }
    }

    /// The transfer ended because the destination is taken.
    pub open spec fn conflict(self) -> (FileTransferView, Option<RequestView>) {
        (
            FileTransferView {
                phase: TransferPhaseView::Done,
                failure: Some(
                    TryRecoverView {
                        error: already_exists_at(self.dest),
                        status: Some(self.status()),
                    },
                ),
                ..self
            },
            None,
        )
    }

    /// The transfer ended well: after a move the file is at the destination.
    pub open spec fn arrived(self) -> (FileTransferView, Option<RequestView>) {
        (
            FileTransferView {
                phase: TransferPhaseView::Done,
                source: if self.is_copy {
                    self.source
                } else {
                    self.dest
                },
                ..self
            },
            None,
        )
    }

    /// With the destination in normal form the transfer asks whether it is
    /// taken; without one it ends.
    pub open spec fn probing(self, dest: Option<Seq<Seq<char>>>) -> (
        FileTransferView,
        Option<RequestView>,
    ) {
        match dest {
            Some(d) => (
                FileTransferView { dest: d, phase: TransferPhaseView::Probe, ..self },
                Some(RequestView::Exists(d)),
            ),
            None => self.failed(invalid_path()),
        }
    }

    /// The transfer asks for the bytes to be copied.
    pub open spec fn copying(self) -> (FileTransferView, Option<RequestView>) {
        (
            FileTransferView { phase: TransferPhaseView::Copy, ..self },
            Some(RequestView::Copy(self.source, self.dest)),
        )
    }

    /// The transfer asks for the file to be renamed into place.
    pub open spec fn renaming(self) -> (FileTransferView, Option<RequestView>) {
        (
            FileTransferView { phase: TransferPhaseView::Rename, ..self },
            Some(RequestView::Rename(self.source, self.dest)),
        )
    }

    /// The transfer goes on with the deletion `d`, or with `after` once the
    /// deletion has ended well.
    pub open spec fn deleting(
        self,
        d: DeleteView,
        ask: Option<RequestView>,
        clearing: bool,
        after: (FileTransferView, Option<RequestView>),
    ) -> (FileTransferView, Option<RequestView>) {
        match ask {
            Some(r) => (
                FileTransferView {
                    phase: if clearing {
                        TransferPhaseView::Clear(d)
                    } else {
                        TransferPhaseView::Unlink(d)
                    },
                    ..self
                },
                Some(r),
            ),
            None => match d.outcome() {
                Ok(_) => after,
                Err(e) => self.failed(e),
            },
        }
    }

    /// What comes once the destination is free: a copy copies, a move
    /// renames.
    pub open spec fn placing(self) -> (FileTransferView, Option<RequestView>) {
        if self.is_copy {
            self.copying()
        } else {
            self.renaming()
        }
    }

    /// The transfer of the file at `source` to the exact path `raw`, before
    /// anything is known, and the question it starts with. An absolute
    /// destination is put in normal form at once; a relative one needs the
    /// working directory first.
    pub open spec fn start(
        source: Seq<Seq<char>>,
        raw: Seq<Seq<char>>,
        home: Option<Seq<Seq<char>>>,
        is_copy: bool,
    ) -> (FileTransferView, Option<RequestView>) {
        let s = FileTransferView {
            source,
            raw,
            home,
            dest: Seq::empty(),
            is_copy,
            phase: TransferPhaseView::Resolve,
            failure: None,
        };
        if absolute(raw) {
            s.probing(fixed(raw, None, home))
        } else {
            (s, Some(RequestView::CurrentDir))
        }
    }

    /// The transfer of the file at `source` into the directory `dir`, under
    /// the file's own name. A path that names no entry cannot be
    /// transferred so.
    pub open spec fn start_into(
        source: Seq<Seq<char>>,
        dir: Seq<Seq<char>>,
        home: Option<Seq<Seq<char>>>,
        is_copy: bool,
    ) -> (FileTransferView, Option<RequestView>) {
        match file_name_of(source) {
            Some(name) => Self::start(source, joined(dir, seq![name]), home, is_copy),
            None => (FileTransferView {
                source,
                raw: dir,
                home,
                dest: Seq::empty(),
                is_copy,
                phase: TransferPhaseView::Resolve,
                failure: None,
            }).failed(invalid_path()),
        }
    }

    /// The transfer tried again over a destination that is taken: what is
    /// there is deleted first.
    pub open spec fn recover(source: Seq<Seq<char>>, dest: Seq<Seq<char>>, is_copy: bool) -> (
        FileTransferView,
        Option<RequestView>,
    ) {
        let (d, ask) = DeleteView::start(dest);
        (
            FileTransferView {
                source,
                raw: dest,
                home: None,
                dest,
                is_copy,
                phase: TransferPhaseView::Clear(d),
                failure: None,
            },
            Some(ask),
        )
    }

    /// The transfer after `reply`, and what it asks next. A transfer that
    /// asks nothing more is over.
    pub open spec fn next(self, reply: ReplyView) -> (FileTransferView, Option<RequestView>) {
        match self.phase {
            TransferPhaseView::Resolve => match reply.path() {
                Ok(cwd) => self.probing(fixed(self.raw, Some(cwd), self.home)),
                Err(_) => self.failed(invalid_path()),
            },
            TransferPhaseView::Probe => match reply.flag() {
                Ok(taken) => if taken {
                    self.conflict()
                } else if self.is_copy {
                    self.copying()
                } else {
                    match parent_of(self.dest) {
                        Some(dir) => (
                            FileTransferView { phase: TransferPhaseView::MakeParent, ..self },
                            Some(RequestView::CreateDirAll(dir)),
                        ),
                        None => self.failed(invalid_path()),
                    }
                },
                Err(e) => self.failed(e),
            },
            TransferPhaseView::MakeParent => match reply.unit() {
                Ok(_) => if same_root(self.source, self.dest) {
                    self.renaming()
                } else {
                    self.copying()
                },
                Err(e) => self.failed(e),
            },
            TransferPhaseView::Clear(d) => {
                let (d, ask) = d.next(reply);
                self.deleting(d, ask, true, self.placing())
            },
            TransferPhaseView::Rename => match reply.unit() {
                Ok(_) => self.arrived(),
                Err(_) => self.copying(),
            },
            TransferPhaseView::Copy => match reply.unit() {
                Ok(_) => if self.is_copy {
                    self.arrived()
                } else {
                    let (d, ask) = DeleteView::start(self.source);
                    (
                        FileTransferView { phase: TransferPhaseView::Unlink(d), ..self },
                        Some(ask),
                    )
                },
                Err(e) => self.failed(e),
            },
            TransferPhaseView::Unlink(d) => {
                let (d, ask) = d.next(reply);
                self.deleting(d, ask, false, self.arrived())
            },
            TransferPhaseView::Done => (self, None),
        }
    }

    /// Whether the transfer is over.
    pub open spec fn done(self) -> bool {
        self.phase is Done
    }

    /// How the transfer went, once it is over.
    pub open spec fn outcome(self) -> Result<(), TryRecoverView> {
        match self.failure {
            Some(t) => Err(t),
            None => Ok(()),
        }
    }
}

impl FileTransfer {
    fn failed(self, e: Error) -> (r: (FileTransfer, Option<Request>))
        ensures
            (r.0@, asked(r.1)) == self@.failed(e@),
    {
        (
            FileTransfer {
                phase: TransferPhase::Done,
                failure: Some(TryRecover { error: e, status: None }),
                source: self.source,
                raw: self.raw,
                home: self.home,
                dest: self.dest,
                is_copy: self.is_copy,
            },
            None,
        )
    }

    fn refused(self) -> (r: (FileTransfer, Option<Request>))
        ensures
            (r.0@, asked(r.1)) == self@.failed(invalid_path()),
    {
        let no: Result<(), Error> = INVALID_PATH();
        match no {
            Err(e) => self.failed(e),
            Ok(_) => (self, None),
        }
    }

    fn conflict(self) -> (r: (FileTransfer, Option<Request>))
        ensures
            (r.0@, asked(r.1)) == self@.conflict(),
    {
        let status = if self.is_copy {
            Status::CopyFile(self.source.clone(), self.dest.clone())
        } else {
            Status::MoveFile(self.source.clone(), self.dest.clone())
        };
        let failure = TryRecover::new(already_exist(&self.dest), status);
        (
            FileTransfer {
                phase: TransferPhase::Done,
                failure: Some(failure),
                source: self.source,
                raw: self.raw,
                home: self.home,
                dest: self.dest,
                is_copy: self.is_copy,
            },
            None,
        )
    }

    fn arrived(self) -> (r: (FileTransfer, Option<Request>))
        ensures
            (r.0@, asked(r.1)) == self@.arrived(),
    {
        let source = if self.is_copy {
            self.source
        } else {
            FileInfo { path: self.dest.clone() }
        };
        (
            FileTransfer {
                phase: TransferPhase::Done,
                source,
                raw: self.raw,
                home: self.home,
                dest: self.dest,
                is_copy: self.is_copy,
                failure: self.failure,
            },
            None,
        )
    }

    fn probing(self, dest: Result<FsPath, Error>) -> (r: (FileTransfer, Option<Request>))
        ensures
            (r.0@, asked(r.1)) == self@.probing(found(dest)),
    {
        match dest {
            Ok(d) => {
                let ask = Request::Exists(d.clone());
                (
                    FileTransfer {
                        dest: d,
                        phase: TransferPhase::Probe,
                        source: self.source,
                        raw: self.raw,
                        home: self.home,
                        is_copy: self.is_copy,
                        failure: self.failure,
                    },
                    Some(ask),
                )
            },
            Err(_) => self.refused(),
        }
    }

    fn copying(self) -> (r: (FileTransfer, Option<Request>))
        ensures
            (r.0@, asked(r.1)) == self@.copying(),
    {
        let ask = Request::Copy(self.source.path.clone(), self.dest.clone());
        (
            FileTransfer {
                phase: TransferPhase::Copy,
                source: self.source,
                raw: self.raw,
                home: self.home,
                dest: self.dest,
                is_copy: self.is_copy,
                failure: self.failure,
            },
            Some(ask),
        )
    }

    fn renaming(self) -> (r: (FileTransfer, Option<Request>))
        ensures
            (r.0@, asked(r.1)) == self@.renaming(),
    {
        let ask = Request::Rename(self.source.path.clone(), self.dest.clone());
        (
            FileTransfer {
                phase: TransferPhase::Rename,
                source: self.source,
                raw: self.raw,
                home: self.home,
                dest: self.dest,
                is_copy: self.is_copy,
                failure: self.failure,
            },
            Some(ask),
        )
    }

    fn placing(self) -> (r: (FileTransfer, Option<Request>))
        ensures
            (r.0@, asked(r.1)) == self@.placing(),
    {
        if self.is_copy {
            self.copying()
        } else {
            self.renaming()
        }
    }

    fn with_phase(self, phase: TransferPhase) -> (r: FileTransfer)
        ensures
            r@ == (FileTransferView { phase: phase@, ..self@ }),
    {
        FileTransfer {
            phase,
            source: self.source,
            raw: self.raw,
            home: self.home,
            dest: self.dest,
            is_copy: self.is_copy,
            failure: self.failure,
        }
    }

    /// Starts the transfer of `source` to the exact path `raw`; `home` is
    /// what `~` stands for.
    pub fn start(source: FileInfo, raw: FsPath, home: Option<FsPath>, is_copy: bool) -> (r: (
        FileTransfer,
        Option<Request>,
    ))
        ensures
            (r.0@, asked(r.1)) == FileTransferView::start(
                source@,
                raw@,
                owned_view(home),
                is_copy,
            ),
    {
        let s = FileTransfer {
            source,
            raw,
            home,
            dest: FsPath::new(),
            is_copy,
            phase: TransferPhase::Resolve,
            failure: None,
        };
        if s.raw.is_absolute() {
            let dest = fix_path_with(&s.raw, None, s.home.as_ref());
            s.probing(dest)
        } else {
            (s, Some(Request::CurrentDir))
        }
    }

    /// Starts the transfer of `source` into the directory `dir`, under the
    /// file's own name; `home` is what `~` stands for.
    pub fn start_into(source: FileInfo, dir: &FsPath, home: Option<FsPath>, is_copy: bool) -> (r: (
        FileTransfer,
        Option<Request>,
    ))
        ensures
            (r.0@, asked(r.1)) == FileTransferView::start_into(
                source@,
                dir@,
                owned_view(home),
                is_copy,
            ),
    {
        let name = source.path.file_name();
        match push_file_name(name.as_ref(), dir) {
            Ok(raw) => Self::start(source, raw, home, is_copy),
            Err(e) => {
                let s = FileTransfer {
                    source,
                    raw: dir.clone(),
                    home,
                    dest: FsPath::new(),
                    is_copy,
                    phase: TransferPhase::Resolve,
                    failure: None,
                };
                s.failed(e)
            },
        }
    }

    /// Starts the transfer again over the taken destination `dest`, which is
    /// deleted first.
    pub fn recover(source: FileInfo, dest: FsPath, is_copy: bool) -> (r: (
        FileTransfer,
        Option<Request>,
    ))
        ensures
            (r.0@, asked(r.1)) == FileTransferView::recover(source@, dest@, is_copy),
    {
        let (d, ask) = Delete::start(dest.clone());
        (
            FileTransfer {
                source,
                raw: dest.clone(),
                home: None,
                dest,
                is_copy,
                phase: TransferPhase::Clear(d),
                failure: None,
            },
            Some(ask),
        )
    }

    /// Takes the reply to the last request and gives the next request, or
    /// none when the transfer is over.
    pub fn step(self, reply: Reply) -> (r: (FileTransfer, Option<Request>))
        ensures
            (r.0@, asked(r.1)) == self@.next(reply@),
    {
        let FileTransfer { source, raw, home, dest, is_copy, phase, failure } = self;
        match phase {
            TransferPhase::Resolve => {
                let s = FileTransfer {
                    source,
                    raw,
                    home,
                    dest,
                    is_copy,
                    phase: TransferPhase::Resolve,
                    failure,
                };
                match reply.path() {
                    Ok(cwd) => {
                        let fixed = fix_path_with(&s.raw, Some(&cwd), s.home.as_ref());
                        s.probing(fixed)
                    },
                    Err(_) => s.refused(),
                }
            },
            TransferPhase::Probe => {
                let s = FileTransfer {
                    source,
                    raw,
                    home,
                    dest,
                    is_copy,
                    phase: TransferPhase::Probe,
                    failure,
                };
                match reply.flag() {
                    Ok(taken) => {
                        if taken {
                            s.conflict()
                        } else if s.is_copy {
                            s.copying()
                        } else {
                            match s.dest.parent() {
                                Some(dir) => (
                                    s.with_phase(TransferPhase::MakeParent),
                                    Some(Request::CreateDirAll(dir)),
                                ),
                                None => s.refused(),
                            }
                        }
                    },
                    Err(e) => s.failed(e),
                }
            },
            TransferPhase::MakeParent => {
                let s = FileTransfer {
                    source,
                    raw,
                    home,
                    dest,
                    is_copy,
                    phase: TransferPhase::MakeParent,
                    failure,
                };
                match reply.unit() {
                    Ok(_) => {
                        if is_same_root(&s.source.path, &s.dest) {
                            s.renaming()
                        } else {
                            s.copying()
                        }
                    },
                    Err(e) => s.failed(e),
                }
            },
            TransferPhase::Clear(d) => {
                let ghost before = d@;
                let (d, ask) = d.step(reply);
                match ask {
                    Some(r) => (
                        FileTransfer {
                            source,
                            raw,
                            home,
                            dest,
                            is_copy,
                            phase: TransferPhase::Clear(d),
                            failure,
                        },
                        Some(r),
                    ),
                    None => {
                        let outcome = d.outcome();
                        let s = FileTransfer {
                            source,
                            raw,
                            home,
                            dest,
                            is_copy,
                            phase: TransferPhase::Clear(d),
                            failure,
                        };
                        assert(s@ == (FileTransferView {
                            phase: TransferPhaseView::Clear(before.next(reply@).0),
                            ..self@
                        }));
                        match outcome {
                            Ok(_) => s.placing(),
                            Err(e) => s.failed(e),
                        }
                    },
                }
            },
            TransferPhase::Rename => {
                let s = FileTransfer {
                    source,
                    raw,
                    home,
                    dest,
                    is_copy,
                    phase: TransferPhase::Rename,
                    failure,
                };
                match reply.unit() {
                    Ok(_) => s.arrived(),
                    Err(_) => s.copying(),
                }
            },
            TransferPhase::Copy => {
                let s = FileTransfer {
                    source,
                    raw,
                    home,
                    dest,
                    is_copy,
                    phase: TransferPhase::Copy,
                    failure,
                };
                match reply.unit() {
                    Ok(_) => {
                        if s.is_copy {
                            s.arrived()
                        } else {
                            let (d, ask) = Delete::start(s.source.path.clone());
                            (s.with_phase(TransferPhase::Unlink(d)), Some(ask))
                        }
                    },
                    Err(e) => s.failed(e),
                }
            },
            TransferPhase::Unlink(d) => {
                let ghost before = d@;
                let (d, ask) = d.step(reply);
                match ask {
                    Some(r) => (
                        FileTransfer {
                            source,
                            raw,
                            home,
                            dest,
                            is_copy,
                            phase: TransferPhase::Unlink(d),
                            failure,
                        },
                        Some(r),
                    ),
                    None => {
                        let outcome = d.outcome();
                        let s = FileTransfer {
                            source,
                            raw,
                            home,
                            dest,
                            is_copy,
                            phase: TransferPhase::Unlink(d),
                            failure,
                        };
                        match outcome {
                            Ok(_) => s.arrived(),
                            Err(e) => s.failed(e),
                        }
                    },
                }
            },
            TransferPhase::Done => (
                FileTransfer {
                    source,
                    raw,
                    home,
                    dest,
                    is_copy,
                    phase: TransferPhase::Done,
                    failure,
                },
                None,
            ),
        }
    }

    /// Whether the transfer is over.
    pub fn is_done(&self) -> (r: bool)
        ensures
            r == self@.done(),
    {
        match self.phase {
            TransferPhase::Done => true,
            _ => false,
        }
    }

    /// How the transfer went, once it is over.
    pub fn outcome(&self) -> (r: Result<(), TryRecover>)
        ensures
            match self@.outcome() {
                Ok(_) => r is Ok,
                Err(t) => r matches Err(x) && x@ == t,
            },
    {
        match &self.failure {
            Some(t) => Err(t.clone()),
            None => Ok(()),
        }
    }

    /// The file: where it was, and after a move that went well, where it is
    /// now.
    pub fn entity(&self) -> (f: FileInfo)
        ensures
            f@ == self@.source,
    {
        self.source.clone()
    }
}

/// A transfer that asks nothing when it starts has failed.
pub proof fn lemma_start_asks_or_fails(
    source: Seq<Seq<char>>,
    path: Seq<Seq<char>>,
    home: Option<Seq<Seq<char>>>,
    is_copy: bool,
)
    ensures
        FileTransferView::start(source, path, home, is_copy).1 is None
            ==> FileTransferView::start(source, path, home, is_copy).0.failure is Some,
        FileTransferView::start_into(source, path, home, is_copy).1 is None
            ==> FileTransferView::start_into(source, path, home, is_copy).0.failure is Some,
{
}

/// The values of a list of files.
pub open spec fn files_of(v: Seq<FileInfo>) -> Seq<Seq<Seq<char>>> {
    Seq::new(v.len(), |i: int| v[i]@)
}

/// Where a file is after it was renamed to `name`: in the place of its old
/// name, and with its old extension where it had one.
pub open spec fn renamed_file(p: Seq<Seq<char>>, name: Seq<Seq<char>>) -> Seq<Seq<char>> {
    match extension_of(p) {
        Some(ext) => with_extension(with_file_name(p, name), ext),
        None => with_file_name(p, name),
    }
}

impl Info for FileInfo {
    open spec fn place(&self) -> Seq<Seq<char>> {
        self@
    }

    fn as_path(&self) -> (p: &FsPath) {
        &self.path
    }

    open spec fn measuring(&self) -> (MeasureView, RequestView) {
        MeasureView::start_file(self@)
    }

    /// Starts to measure the file: its size is the length that the system
    /// reports for it, or 0 where it reports none.
    fn size(&self) -> (r: (Measure, Request)) {
        Measure::start_file(&self.path)
    }
}

impl Action for FileInfo {
    type Transfer = FileTransfer;

    open spec fn renamed(&self, name: Seq<Seq<char>>) -> Seq<Seq<char>> {
        renamed_file(self@, name)
    }

    open spec fn opens() -> OpenKind {
        OpenKind::File
    }

    /// Starts to open the file at `path`. The home directory is looked up:
    /// the path that the system reports for the file may mention `~`.
    fn open(path: &FsPath) -> (r: (Open, Option<Request>)) {
        let home = home_dir();
        let ghost h = owned_view(home);
        let r = Open::start(OpenKind::File, path.clone(), home);
        assert(OpenView::start(OpenKind::File, path@, h) == (r.0@, asked(r.1)));
        r
    }

    fn open_uncheck(path: FsPath) -> (f: FileInfo) {
        FileInfo { path }
    }

    fn rename_to(&self, name: &FsPath) -> (r: FsPath) {
        let mut to = self.path.clone();
        to.set_file_name(name);
        match self.path.extension() {
            Some(ext) => {
                proof {
                    use_type_invariant(&self.path);
                    lemma_extension_has_no_separator(self@);
                }
                to.set_extension(&ext);
            },
            None => {},
        }
        to
    }

    /// Copies the file into the directory `path`, under its own name. The
    /// home directory is looked up where a path mentions `~`.
    fn copy_to(&self, path: &FsPath) -> (r: (FileTransfer, Option<Request>))
        ensures
            exists|home: Option<Seq<Seq<char>>>|
                (!mentions_home(path@) && !mentions_home(self@) ==> home is None)
                    && #[trigger] FileTransferView::start_into(self@, path@, home, true) == (
                    r.0@,
                    asked(r.1),
                ),
    {
        let home = match lookup_home(path) {
            Some(h) => Some(h),
            None => lookup_home(&self.path),
        };
        let ghost h = owned_view(home);
        let r = FileTransfer::start_into(self.clone(), path, home, true);
        assert(FileTransferView::start_into(self@, path@, h, true) == (r.0@, asked(r.1)));
        r
    }

    /// Copies the file to the exact path `path`. The home directory is
    /// looked up where the path mentions `~`.
    fn copy_new(&self, path: &FsPath) -> (r: (FileTransfer, Option<Request>))
        ensures
            exists|home: Option<Seq<Seq<char>>>|
                (!mentions_home(path@) ==> home is None) && #[trigger] FileTransferView::start(
                    self@,
                    path@,
                    home,
                    true,
                ) == (r.0@, asked(r.1)),
    {
        let home = lookup_home(path);
        let ghost h = owned_view(home);
        let r = FileTransfer::start(self.clone(), path.clone(), home, true);
        assert(FileTransferView::start(self@, path@, h, true) == (r.0@, asked(r.1)));
        r
    }

    /// Moves the file into the directory `path`, under its own name. The
    /// home directory is looked up where a path mentions `~`.
    fn move_to(&self, path: &FsPath) -> (r: (FileTransfer, Option<Request>))
        ensures
            exists|home: Option<Seq<Seq<char>>>|
                (!mentions_home(path@) && !mentions_home(self@) ==> home is None)
                    && #[trigger] FileTransferView::start_into(self@, path@, home, false) == (
                    r.0@,
                    asked(r.1),
                ),
    {
        let home = match lookup_home(path) {
            Some(h) => Some(h),
            None => lookup_home(&self.path),
        };
        let ghost h = owned_view(home);
        let r = FileTransfer::start_into(self.clone(), path, home, false);
        assert(FileTransferView::start_into(self@, path@, h, false) == (r.0@, asked(r.1)));
        r
    }

    /// Moves the file to the exact path `path`. The home directory is looked
    /// up where the path mentions `~`.
    fn move_new(&self, path: &FsPath) -> (r: (FileTransfer, Option<Request>))
        ensures
            exists|home: Option<Seq<Seq<char>>>|
                (!mentions_home(path@) ==> home is None) && #[trigger] FileTransferView::start(
                    self@,
                    path@,
                    home,
                    false,
                ) == (r.0@, asked(r.1)),
    {
        let home = lookup_home(path);
        let ghost h = owned_view(home);
        let r = FileTransfer::start(self.clone(), path.clone(), home, false);
        assert(FileTransferView::start(self@, path@, h, false) == (r.0@, asked(r.1)));
        r
    }
}

impl FileInfo {
    /// Starts to create an empty file at `path`, along with the directories
    /// above it that are missing. The home directory is looked up where the
    /// path mentions `~`.
    pub fn create(path: &FsPath) -> (r: (Open, Option<Request>))
        ensures
            exists|home: Option<Seq<Seq<char>>>|
                (!mentions_home(path@) ==> home is None) && #[trigger] OpenView::start(
                    OpenKind::Create,
                    path@,
                    home,
                ) == (r.0@, asked(r.1)),
    {
        let home = lookup_home(path);
        let ghost h = owned_view(home);
        let r = Open::start(OpenKind::Create, path.clone(), home);
        assert(OpenView::start(OpenKind::Create, path@, h) == (r.0@, asked(r.1)));
        r
    }

    /// The file that an opening has found or created. The opening of a
    /// directory has found no file.
    pub fn opened(open: &Open) -> (r: Result<FileInfo, Error>)
        ensures
            match open@.found_as(false) {
                Ok(p) => r matches Ok(f) && f@ == p,
                Err(e) => r matches Err(x) && x@ == e,
            },
    {
        match open.found_as(false) {
            Ok(path) => Ok(FileInfo { path }),
            Err(e) => Err(e),
        }
    }
}

/// The extension of a well-formed path holds no separator.
pub proof fn lemma_extension_has_no_separator(p: Seq<Seq<char>>)
    requires
        well_formed(p),
    ensures
        extension_of(p) matches Some(ext) ==> !ext.contains('/'),
{
    if let Some(ext) = extension_of(p) {
        let name = p.last();
        lemma_last_dot(name);
        assert(valid_component(name));
        if ext.contains('/') {
            let k = choose|k: int| 0 <= k < ext.len() && ext[k] == '/';
            assert(name[last_dot(name) + 1 + k] == '/');
            assert(name.contains('/'));
        }
    }
}

/// A name that stands for one entry: a single component that is neither
/// the root, `.` nor `..`.
pub open spec fn single_name(name: Seq<Seq<char>>) -> bool {
    name.len() == 1 && is_normal(name[0]) && valid_component(name[0])
}

/// Renaming a file puts it beside where it was, under the new name and with
/// the extension that it had: the directory stays, a file without an
/// extension gets the new name as it is, and an extension that is not empty
/// is still the extension afterwards.
pub proof fn lemma_rename_file(p: Seq<Seq<char>>, name: Seq<Seq<char>>)
    requires
        well_formed(p),
        file_name_of(p) is Some,
        single_name(name),
    ensures
        parent_of(renamed_file(p, name)) == parent_of(p),
        extension_of(p) is None ==> renamed_file(p, name) == p.drop_last().push(name[0]),
        extension_of(p) matches Some(ext) ==> renamed_file(p, name) == p.drop_last().push(
            name_with_extension(name[0], ext),
        ),
        extension_of(p) matches Some(ext) ==> (ext.len() > 0 ==> extension_of(
            renamed_file(p, name),
        ) == Some(ext)),
{
    let front = p.drop_last();
    let given = name[0];
    let sibling = with_file_name(p, name);
    assert(sibling =~= front.push(given));
    assert(sibling.last() == given);
    assert(sibling.drop_last() =~= front);
    lemma_last_dot(given);
    lemma_last_dot(p.last());
    match extension_of(p) {
        Some(ext) => {
            let stem = stem_of_name(given);
            let fresh = name_with_extension(given, ext);
            let there = front.push(fresh);
            assert(renamed_file(p, name) == there);
            assert(stem.len() > 0);
            assert(!given.contains('/'));
            assert(fresh[0] == given[0]);
            assert(given.contains(given[0]));
            assert(!is_root(fresh));
            assert(there.drop_last() =~= front);
            if ext.len() > 0 {
                assert(fresh.len() == stem.len() + 1 + ext.len());
                assert forall|j: int| stem.len() < j < fresh.len() implies fresh[j] != '.' by {
                    assert(fresh[j] == ext[j - stem.len() - 1]);
                    assert(ext[j - stem.len() - 1] == p.last()[last_dot(p.last()) + 1 + (j
                        - stem.len() - 1)]);
                }
                lemma_last_dot_at(fresh, stem.len() as int);
                assert(fresh.skip(stem.len() as int + 1) =~= ext);
                assert(there.last() == fresh);
            }
        },
        None => {
            assert(sibling.drop_last() =~= front);
        },
    }
}

} // verus!
