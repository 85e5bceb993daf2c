//! Directories, and how a tree is copied or moved.

use std::collections::VecDeque;
use vstd::prelude::*;
use crate::delete::{Delete, DeleteView};
use crate::entity::{Action, Info};
use crate::measure::{Measure, MeasureView};
use crate::open::{Open, OpenKind, OpenView};
use crate::error::{
    already_exist, already_exists_at, invalid_path, Error, ErrorKind, ErrorView, INVALID_PATH,
};
use crate::file::{
    files_of, lemma_start_asks_or_fails, FileInfo, FileTransfer, FileTransferView,
};
use crate::normalize::{
    fix_path_with, fixed, found, home_dir, lookup_home, mentions_home, owned_view,
};
use crate::path::{absolute, file_name_of, joined, with_file_name, FsPath};
use crate::push_file_name;
use crate::rebased;
use crate::recover::{Status, StatusView, TryRecover, TryRecoverView};
use crate::replace;
use crate::request::{
    asked, entries_of, DirEntry, DirEntryView, EntryKind, Reply, ReplyView, Request, RequestView,
};

verus! {

/// A directory, known by its path.
#[derive(Debug)]
pub struct DirectoryInfo {
    path: FsPath,
}

impl View for DirectoryInfo {
    type V = Seq<Seq<char>>;

    closed spec fn view(&self) -> Seq<Seq<char>> {
        self.path@
    }
}

impl Clone for DirectoryInfo {
    fn clone(&self) -> (d: DirectoryInfo)
        ensures
            d@ == self@,
    {
        DirectoryInfo { path: self.path.clone() }
    }
}

/// The values of a list of directories.
pub open spec fn dirs_of(v: Seq<DirectoryInfo>) -> Seq<Seq<Seq<char>>> {
    Seq::new(v.len(), |i: int| v[i]@)
}

/// The values of a list of paths.
pub open spec fn paths_of(v: Seq<FsPath>) -> Seq<Seq<Seq<char>>> {
    Seq::new(v.len(), |i: int| v[i]@)
}

/// Whether an entry of the given kind is wanted: `None` wants them all.
pub open spec fn wanted(want: Option<EntryKind>, kind: EntryKind) -> bool {
    want is None || want == Some(kind)
}

/// The paths of the wanted entries, in the order of the listing.
pub open spec fn listed(entries: Seq<DirEntryView>, want: Option<EntryKind>) -> Seq<
    Seq<Seq<char>>,
>
    decreases entries.len(),
{
    if entries.len() == 0 {
        Seq::empty()
    } else if wanted(want, entries.last().kind) {
        listed(entries.drop_last(), want).push(entries.last().path)
    } else {
        listed(entries.drop_last(), want)
    }
}

fn is_wanted(want: Option<EntryKind>, kind: EntryKind) -> (r: bool)
    ensures
        r == wanted(want, kind),
{
    match want {
        None => true,
        Some(k) => k == kind,
    }
}

/// The paths of the entries of a listing that are of the wanted kind, or of
/// all of them where `want` is `None`, in the order of the listing.
pub fn read_dir(entries: &Vec<DirEntry>, want: Option<EntryKind>) -> (r: Vec<FsPath>)
    ensures
        paths_of(r@) == listed(entries_of(entries@), want),
{
    let mut out: Vec<FsPath> = Vec::new();
    let n: usize = entries.len();
    let mut i: usize = 0;
    assert(entries_of(entries@).take(0) =~= Seq::empty());
    assert(paths_of(out@) =~= Seq::empty());
    while i < n
        invariant
            n == entries@.len(),
            i <= n,
            paths_of(out@) == listed(entries_of(entries@).take(i as int), want),
        decreases n - i,
    {
        let ghost before = paths_of(out@);
        proof {
            let es = entries_of(entries@);
            assert(es.take(i + 1).drop_last() =~= es.take(i as int));
            assert(es.take(i + 1).last() == entries@[i as int]@);
        }
        if is_wanted(want, entries[i].kind) {
            out.push(entries[i].path.clone());
            assert(paths_of(out@) =~= before.push(entries@[i as int]@.path));
        }
        i += 1;
    }
    assert(entries_of(entries@).take(n as int) =~= entries_of(entries@));
    out
}

/// How far the transfer of a tree has come.
#[derive(Debug)]
pub enum WalkPhase {
    /// Waiting for the entries of the current directory, to queue those
    /// that are directories.
    ListDirs,
    /// Waiting to learn whether the current directory exists at the
    /// destination.
    CheckDest,
    /// Waiting for the current directory to be created at the destination.
    MakeDest,
    /// Waiting for the entries of the current directory, to transfer those
    /// that are files.
    ListFiles,
    /// Transferring one file.
    Transfer(FileTransfer),
    /// Transferring one file again, over what was in its way.
    Recover(FileTransfer),
    /// Deleting the source tree after a move.
    Cleanup(Delete),
    /// Nothing more to do.
    Done,
}

/// The mathematical value of a [`WalkPhase`].
pub enum WalkPhaseView {
    ListDirs,
    CheckDest,
    MakeDest,
    ListFiles,
    Transfer(FileTransferView),
    Recover(FileTransferView),
    Cleanup(DeleteView),
    Done,
}

impl View for WalkPhase {
    type V = WalkPhaseView;

    open spec fn view(&self) -> WalkPhaseView {
        match self {
            WalkPhase::ListDirs => WalkPhaseView::ListDirs,
            WalkPhase::CheckDest => WalkPhaseView::CheckDest,
            WalkPhase::MakeDest => WalkPhaseView::MakeDest,
            WalkPhase::ListFiles => WalkPhaseView::ListFiles,
            WalkPhase::Transfer(t) => WalkPhaseView::Transfer(t@),
            WalkPhase::Recover(t) => WalkPhaseView::Recover(t@),
            WalkPhase::Cleanup(d) => WalkPhaseView::Cleanup(d@),
            WalkPhase::Done => WalkPhaseView::Done,
        }
    }
}

/// What a walk knows besides its phase.
#[derive(Debug)]
struct Course {
    root: FsPath,
    to: FsPath,
    home: Option<FsPath>,
    is_copy: bool,
    queue: VecDeque<DirectoryInfo>,
    dir: FsPath,
    dir_path: FsPath,
    files: VecDeque<FileInfo>,
    failure: Option<Error>,
}

/// The copy or the move of a whole tree, in progress.
///
/// The walk goes through the tree breadth first. For each directory it
/// queues the directories in it, makes sure that the directory exists at the
/// destination, and transfers the files in it one by one; a file whose
/// destination is taken is transferred again over what is in its way. After
/// a move the source tree, now empty of files, is deleted.
#[derive(Debug)]
pub struct Walk {
    course: Course,
    phase: WalkPhase,
}

/// The mathematical value of a [`Walk`].
pub struct WalkView {
    /// The directory that the walk started at.
    pub root: Seq<Seq<char>>,
    /// Where the tree goes.
    pub to: Seq<Seq<char>>,
    /// The home directory that `~` stands for.
    pub home: Option<Seq<Seq<char>>>,
    pub is_copy: bool,
    /// The directories that wait their turn, first in, first out.
    pub queue: Seq<Seq<Seq<char>>>,
    /// The directory whose turn it is.
    pub dir: Seq<Seq<char>>,
    /// Where that directory lands.
    pub dir_path: Seq<Seq<char>>,
    /// The files of that directory that are still to be transferred.
    pub files: Seq<Seq<Seq<char>>>,
    pub phase: WalkPhaseView,
    pub failure: Option<ErrorView>,
}

impl View for Walk {
    type V = WalkView;

    closed spec fn view(&self) -> WalkView {
        WalkView {
            root: self.course.root@,
            to: self.course.to@,
            home: owned_view(self.course.home),
            is_copy: self.course.is_copy,
            queue: dirs_of(self.course.queue@),
            dir: self.course.dir@,
            dir_path: self.course.dir_path@,
            files: files_of(self.course.files@),
            phase: self.phase@,
            failure: match self.course.failure {
                Some(e) => Some(e@),
                None => None,
            },
        }
    }
}

impl WalkView {
    /// The walk in the given phase.
    pub open spec fn at(self, phase: WalkPhaseView) -> WalkView {
        WalkView { phase, ..self }
    }

    /// The walk given up for the failure `e`.
    pub open spec fn failed(self, e: ErrorView) -> (WalkView, Option<RequestView>) {
        (WalkView { phase: WalkPhaseView::Done, failure: Some(e), ..self }, None)
    }

    /// The walk asks for the entries of the current directory, to transfer
    /// its files.
    pub open spec fn listing_files(self) -> (WalkView, Option<RequestView>) {
        (self.at(WalkPhaseView::ListFiles), Some(RequestView::ReadDir(self.dir)))
    }

    /// What comes when the current directory has no file left: the next
    /// directory in the queue; with the queue empty, the end of a copy, or
    /// the deletion of the source tree that ends a move.
    pub open spec fn next_dir(self) -> (WalkView, Option<RequestView>) {
        if self.queue.len() > 0 {
            (
                WalkView {
                    queue: self.queue.skip(1),
                    dir: self.queue[0],
                    phase: WalkPhaseView::ListDirs,
                    ..self
                },
                Some(RequestView::ReadDir(self.queue[0])),
            )
        } else if self.is_copy {
            (self.at(WalkPhaseView::Done), None)
        } else {
            let (d, ask) = DeleteView::start(self.root);
            (self.at(WalkPhaseView::Cleanup(d)), Some(ask))
        }
    }

    /// What comes after the failure `t` of a file's transfer: where the
    /// destination was taken, the file is transferred again over it; any
    /// other failure ends the walk.
    pub open spec fn recovering(self, t: TryRecoverView) -> (WalkView, Option<RequestView>) {
        if t.error.kind == ErrorKind::AlreadyExists {
            match t.status {
                Some(StatusView::CopyFile(f, to)) => {
                    let (again, ask) = FileTransferView::recover(f, to, true);
                    (self.at(WalkPhaseView::Recover(again)), ask)
                },
                Some(StatusView::MoveFile(f, to)) => {
                    let (again, ask) = FileTransferView::recover(f, to, false);
                    (self.at(WalkPhaseView::Recover(again)), ask)
                },
                _ => self.failed(t.error),
            }
        } else {
            self.failed(t.error)
        }
    }

    /// What comes when a file is done with: the transfer of the next file of
    /// the current directory into the place where the directory lands, or
    /// the next directory. A transfer that asks nothing has failed, and
    /// that failure is dealt with at once.
    pub open spec fn advance(self) -> (WalkView, Option<RequestView>) {
        if self.files.len() > 0 {
            let (t, ask) = FileTransferView::start_into(
                self.files[0],
                self.dir_path,
                self.home,
                self.is_copy,
            );
            let s = WalkView { files: self.files.skip(1), ..self };
            match ask {
                Some(r) => (s.at(WalkPhaseView::Transfer(t)), Some(r)),
                None => s.recovering(t.failure->0),
            }
        } else {
            self.next_dir()
        }
    }

    /// The walk that lays the tree under `dir` out under `to`, before
    /// anything is known, and the question it starts with.
    pub open spec fn start(
        dir: Seq<Seq<char>>,
        to: Seq<Seq<char>>,
        home: Option<Seq<Seq<char>>>,
        is_copy: bool,
    ) -> (WalkView, Option<RequestView>) {
        (
            WalkView {
                root: dir,
                to,
                home,
                is_copy,
                queue: Seq::empty(),
                dir,
                dir_path: Seq::empty(),
                files: Seq::empty(),
                phase: WalkPhaseView::ListDirs,
                failure: None,
            },
            Some(RequestView::ReadDir(dir)),
        )
    }

    /// The walk after `reply`, and what it asks next. A walk that asks
    /// nothing more is over.
    pub open spec fn next(self, reply: ReplyView) -> (WalkView, Option<RequestView>) {
        match self.phase {
            WalkPhaseView::ListDirs => match reply.entries() {
                Ok(entries) => {
                    let land = rebased(self.dir, self.root, self.to);
                    (
                        WalkView {
                            queue: self.queue + listed(entries, Some(EntryKind::Directory)),
                            dir_path: land,
                            phase: WalkPhaseView::CheckDest,
                            ..self
                        },
                        Some(RequestView::IsDir(land)),
                    )
                },
                Err(e) => self.failed(e),
            },
            WalkPhaseView::CheckDest => match reply.flag() {
                Ok(there) => if there {
                    self.listing_files()
                } else {
                    (
                        self.at(WalkPhaseView::MakeDest),
                        Some(RequestView::CreateDirAll(self.dir_path)),
                    )
                },
                Err(e) => self.failed(e),
            },
            WalkPhaseView::MakeDest => match reply.unit() {
                Ok(_) => self.listing_files(),
                Err(e) => self.failed(e),
            },
            WalkPhaseView::ListFiles => match reply.entries() {
                Ok(entries) => (WalkView {
                    files: listed(entries, Some(EntryKind::File)),
                    ..self
                }).advance(),
                Err(e) => self.failed(e),
            },
            WalkPhaseView::Transfer(t) => {
                let (t, ask) = t.next(reply);
                match ask {
                    Some(r) => (self.at(WalkPhaseView::Transfer(t)), Some(r)),
                    None => match t.outcome() {
                        Ok(_) => self.advance(),
                        Err(failure) => self.recovering(failure),
                    },
                }
            },
            WalkPhaseView::Recover(t) => {
                let (t, ask) = t.next(reply);
                match ask {
                    Some(r) => (self.at(WalkPhaseView::Recover(t)), Some(r)),
                    None => match t.outcome() {
                        Ok(_) => self.advance(),
                        Err(failure) => self.failed(failure.error),
                    },
                }
            },
            WalkPhaseView::Cleanup(d) => {
                let (d, ask) = d.next(reply);
                match ask {
                    Some(r) => (self.at(WalkPhaseView::Cleanup(d)), Some(r)),
                    None => match d.outcome() {
                        Ok(_) => (self.at(WalkPhaseView::Done), None),
                        Err(e) => self.failed(e),
                    },
                }
            },
            WalkPhaseView::Done => (self, None),
        }
    }

    /// Whether the walk is over.
    pub open spec fn done(self) -> bool {
        self.phase is Done
    }

    /// How the walk went, once it is over.
    pub open spec fn outcome(self) -> Result<(), ErrorView> {
        match self.failure {
            Some(e) => Err(e),
            None => Ok(()),
        }
    }
}

impl Course {
    spec fn walk(self, phase: WalkPhaseView) -> WalkView {
        (Walk { course: self, phase: WalkPhase::Done })@.at(phase)
    }

    fn at(self, phase: WalkPhase) -> (w: Walk)
        ensures
            w@ == self.walk(phase@),
    {
        Walk { course: self, phase }
    }

    fn failed(self, e: Error) -> (r: (Walk, Option<Request>))
        ensures
            (r.0@, asked(r.1)) == self.walk(WalkPhaseView::Done).failed(e@),
    {
        let course = Course { failure: Some(e), ..self };
        (Walk { course, phase: WalkPhase::Done }, None)
    }

    fn listing_files(self) -> (r: (Walk, Option<Request>))
        ensures
            (r.0@, asked(r.1)) == self.walk(WalkPhaseView::Done).listing_files(),
    {
        let ask = Request::ReadDir(self.dir.clone());
        (Walk { course: self, phase: WalkPhase::ListFiles }, Some(ask))
    }

    fn next_dir(self) -> (r: (Walk, Option<Request>))
        ensures
            (r.0@, asked(r.1)) == self.walk(WalkPhaseView::Done).next_dir(),
    {
        let mut course = self;
        let ghost before = dirs_of(course.queue@);
        match course.queue.pop_front() {
            Some(d) => {
                assert(dirs_of(course.queue@) =~= before.skip(1));
                assert(d@ == before[0]);
                let ask = Request::ReadDir(d.path.clone());
                course.dir = d.path;
                (Walk { course, phase: WalkPhase::ListDirs }, Some(ask))
            },
            None => {
                if course.is_copy {
                    (Walk { course, phase: WalkPhase::Done }, None)
                } else {
                    let (d, ask) = Delete::start(course.root.clone());
                    (Walk { course, phase: WalkPhase::Cleanup(d) }, Some(ask))
                }
            },
        }
    }

    fn recovering(self, t: TryRecover) -> (r: (Walk, Option<Request>))
        ensures
            (r.0@, asked(r.1)) == self.walk(WalkPhaseView::Done).recovering(t@),
    {
        match t.error.kind() {
            ErrorKind::AlreadyExists => match t.status {
                Some(Status::CopyFile(f, to)) => {
                    let (again, ask) = FileTransfer::recover(f, to, true);
                    (Walk { course: self, phase: WalkPhase::Recover(again) }, ask)
                },
                Some(Status::MoveFile(f, to)) => {
                    let (again, ask) = FileTransfer::recover(f, to, false);
                    (Walk { course: self, phase: WalkPhase::Recover(again) }, ask)
                },
                _ => self.failed(t.error),
            },
            _ => self.failed(t.error),
        }
    }

    fn advance(self) -> (r: (Walk, Option<Request>))
        ensures
            (r.0@, asked(r.1)) == self.walk(WalkPhaseView::Done).advance(),
    {
        let mut course = self;
        let ghost before = files_of(course.files@);
        match course.files.pop_front() {
            Some(f) => {
                assert(files_of(course.files@) =~= before.skip(1));
                assert(f@ == before[0]);
                let home = match &course.home {
                    Some(h) => Some(h.clone()),
                    None => None,
                };
                let (t, ask) = FileTransfer::start_into(f, &course.dir_path, home, course.is_copy);
                match ask {
                    Some(r) => (Walk { course, phase: WalkPhase::Transfer(t) }, Some(r)),
                    None => {
                        proof {
                            lemma_start_asks_or_fails(
                                before[0],
                                course.dir_path@,
                                owned_view(course.home),
                                course.is_copy,
                            );
                        }
                        // A transfer that asks nothing has failed.
                        match t.outcome() {
                            Err(failure) => course.recovering(failure),
                            Ok(_) => course.next_dir(),
                        }
                    },
                }
            },
            None => course.next_dir(),
        }
    }
}

impl Walk {
    /// Starts the walk that lays the tree under `dir` out under `to`; `home`
    /// is what `~` stands for.
    pub fn start(dir: &DirectoryInfo, to: FsPath, home: Option<FsPath>, is_copy: bool) -> (r: (
        Walk,
        Option<Request>,
    ))
        ensures
            (r.0@, asked(r.1)) == WalkView::start(dir@, to@, owned_view(home), is_copy),
    {
        let course = Course {
            root: dir.path.clone(),
            to,
            home,
            is_copy,
            queue: VecDeque::new(),
            dir: dir.path.clone(),
            dir_path: FsPath::new(),
            files: VecDeque::new(),
            failure: None,
        };
        assert(dirs_of(course.queue@) =~= Seq::empty());
        assert(files_of(course.files@) =~= Seq::empty());
        (Walk { course, phase: WalkPhase::ListDirs }, Some(Request::ReadDir(dir.path.clone())))
    }

    /// Takes the reply to the last request and gives the next request, or
    /// none when the walk is over.
    pub fn step(self, reply: Reply) -> (r: (Walk, Option<Request>))
        ensures
            (r.0@, asked(r.1)) == self@.next(reply@),
    {
        let Walk { course, phase } = self;
        let mut course = course;
        match phase {
            WalkPhase::ListDirs => match reply.entries() {
                Ok(entries) => {
                    let ghost before = dirs_of(course.queue@);
                    let found = read_dir(&entries, Some(EntryKind::Directory));
                    let n: usize = found.len();
                    let mut i: usize = 0;
                    assert(paths_of(found@).take(0) =~= Seq::empty());
                    assert(before + Seq::empty() =~= before);
                    while i < n
                        invariant
                            n == found@.len(),
                            i <= n,
                            dirs_of(course.queue@) == before + paths_of(found@).take(i as int),
                            course.root == self.course.root,
                            course.to == self.course.to,
                            course.home == self.course.home,
                            course.is_copy == self.course.is_copy,
                            course.dir == self.course.dir,
                            course.dir_path == self.course.dir_path,
                            course.files == self.course.files,
                            course.failure == self.course.failure,
                        decreases n - i,
                    {
                        let ghost queued = dirs_of(course.queue@);
                        course.queue.push_back(DirectoryInfo { path: found[i].clone() });
                        proof {
                            assert(dirs_of(course.queue@) =~= queued.push(found@[i as int]@));
                            assert(paths_of(found@).take(i + 1) =~= paths_of(found@).take(
                                i as int,
                            ).push(found@[i as int]@));
                        }
                        i += 1;
                    }
                    assert(paths_of(found@).take(n as int) =~= paths_of(found@));
                    let land = replace(&course.dir, &course.root, &course.to);
                    let ask = Request::IsDir(land.clone());
                    course.dir_path = land;
                    (Walk { course, phase: WalkPhase::CheckDest }, Some(ask))
                },
                Err(e) => course.failed(e),
            },
            WalkPhase::CheckDest => match reply.flag() {
                Ok(there) => {
                    if there {
                        course.listing_files()
                    } else {
                        let ask = Request::CreateDirAll(course.dir_path.clone());
                        (Walk { course, phase: WalkPhase::MakeDest }, Some(ask))
                    }
                },
                Err(e) => course.failed(e),
            },
            WalkPhase::MakeDest => match reply.unit() {
                Ok(_) => course.listing_files(),
                Err(e) => course.failed(e),
            },
            WalkPhase::ListFiles => match reply.entries() {
                Ok(entries) => {
                    let found = read_dir(&entries, Some(EntryKind::File));
                    let mut files: VecDeque<FileInfo> = VecDeque::new();
                    let n: usize = found.len();
                    let mut i: usize = 0;
                    assert(paths_of(found@).take(0) =~= Seq::empty());
                    assert(files_of(files@) =~= Seq::empty());
                    while i < n
                        invariant
                            n == found@.len(),
                            i <= n,
                            files_of(files@) == paths_of(found@).take(i as int),
                        decreases n - i,
                    {
                        let ghost queued = files_of(files@);
                        files.push_back(FileInfo::open_uncheck(found[i].clone()));
                        proof {
                            assert(files_of(files@) =~= queued.push(found@[i as int]@));
                            assert(paths_of(found@).take(i + 1) =~= paths_of(found@).take(
                                i as int,
                            ).push(found@[i as int]@));
                        }
                        i += 1;
                    }
                    assert(paths_of(found@).take(n as int) =~= paths_of(found@));
                    course.files = files;
                    course.advance()
                },
                Err(e) => course.failed(e),
            },
            WalkPhase::Transfer(t) => {
                let (t, ask) = t.step(reply);
                match ask {
                    Some(r) => (Walk { course, phase: WalkPhase::Transfer(t) }, Some(r)),
                    None => match t.outcome() {
                        Ok(_) => course.advance(),
                        Err(failure) => course.recovering(failure),
                    },
                }
            },
            WalkPhase::Recover(t) => {
                let (t, ask) = t.step(reply);
                match ask {
                    Some(r) => (Walk { course, phase: WalkPhase::Recover(t) }, Some(r)),
                    None => match t.outcome() {
                        Ok(_) => course.advance(),
                        Err(failure) => course.failed(failure.into_error()),
                    },
                }
            },
            WalkPhase::Cleanup(d) => {
                let (d, ask) = d.step(reply);
                match ask {
                    Some(r) => (Walk { course, phase: WalkPhase::Cleanup(d) }, Some(r)),
                    None => match d.outcome() {
                        Ok(_) => (Walk { course, phase: WalkPhase::Done }, None),
                        Err(e) => course.failed(e),
                    },
                }
            },
            WalkPhase::Done => (Walk { course, phase: WalkPhase::Done }, None),
        }
    }

    /// Whether the walk is over.
    pub fn is_done(&self) -> (r: bool)
        ensures
            r == self@.done(),
    {
        match self.phase {
            WalkPhase::Done => true,
            _ => false,
        }
    }

    /// How the walk went, once it is over.
    pub fn outcome(&self) -> (r: Result<(), Error>)
        ensures
            match self@.outcome() {
                Ok(_) => r is Ok,
                Err(e) => r matches Err(x) && x@ == e,
            },
    {
        match &self.course.failure {
            Some(e) => Err(e.clone()),
            None => Ok(()),
        }
    }
}

/// How far the transfer of a directory has come.
#[derive(Debug)]
pub enum TreePhase {
    /// Waiting for the working directory, to make the destination absolute.
    Resolve,
    /// Waiting to learn whether the destination is taken.
    Probe,
    /// Waiting for the whole tree to be renamed into place.
    Rename,
    /// Walking the tree.
    Walking(Walk),
    /// Nothing more to do.
    Done,
}

/// The mathematical value of a [`TreePhase`].
pub enum TreePhaseView {
    Resolve,
    Probe,
    Rename,
    Walking(WalkView),
    Done,
}

impl View for TreePhase {
    type V = TreePhaseView;

    open spec fn view(&self) -> TreePhaseView {
        match self {
            TreePhase::Resolve => TreePhaseView::Resolve,
            TreePhase::Probe => TreePhaseView::Probe,
            TreePhase::Rename => TreePhaseView::Rename,
            TreePhase::Walking(w) => TreePhaseView::Walking(w@),
            TreePhase::Done => TreePhaseView::Done,
        }
    }
}

/// The copy or the move of a directory with all that it holds, in progress.
///
/// The destination is made absolute and normal, then looked at. If it is
/// taken, the transfer ends with a failure that says what was being done. A
/// copy walks the tree. A move renames the whole tree, and walks it where
/// renaming fails.
#[derive(Debug)]
pub struct DirTransfer {
    source: DirectoryInfo,
    raw: FsPath,
    home: Option<FsPath>,
    dest: FsPath,
    is_copy: bool,
    phase: TreePhase,
    failure: Option<TryRecover>,
}

/// The mathematical value of a [`DirTransfer`].
pub struct DirTransferView {
    /// Where the directory is: the source, and after a move the destination.
    pub source: Seq<Seq<char>>,
    /// The destination as it was asked for.
    pub raw: Seq<Seq<char>>,
    /// The home directory that `~` stands for.
    pub home: Option<Seq<Seq<char>>>,
    /// The destination in normal form, once it is known.
    pub dest: Seq<Seq<char>>,
    pub is_copy: bool,
    pub phase: TreePhaseView,
    pub failure: Option<TryRecoverView>,
}

impl View for DirTransfer {
    type V = DirTransferView;

    closed spec fn view(&self) -> DirTransferView {
        DirTransferView {
            source: self.source@,
            raw: self.raw@,
            home: owned_view(self.home),
            dest: self.dest@,
            is_copy: self.is_copy,
            phase: self.phase@,
            failure: match self.failure {
                Some(t) => Some(t@),
                None => None,
            },
        }
    }
}

impl DirTransferView {
    /// The transfer in the given phase.
    pub open spec fn at(self, phase: TreePhaseView) -> DirTransferView {
        DirTransferView { phase, ..self }
    }

    /// The transfer given up for the failure `e`.
    pub open spec fn failed(self, e: ErrorView) -> (DirTransferView, Option<RequestView>) {
        (
            DirTransferView {
                phase: TreePhaseView::Done,
                failure: Some(TryRecoverView::terminal(e)),
                ..self
            },
            None,
        )
    }

    /// What was being done, for the failure that reports a taken destination.
    pub open spec fn status(self) -> StatusView {
        if self.is_copy {
            StatusView::CopyDirectory(self.source, self.dest)
        } else {
            StatusView::MoveDirectory(self.source, self.dest)
        }
    }

    /// The transfer ended because the destination is taken.
    pub open spec fn conflict(self) -> (DirTransferView, Option<RequestView>) {
        (
            DirTransferView {
                phase: TreePhaseView::Done,
                failure: Some(
                    TryRecoverView {
                        error: already_exists_at(self.dest),
                        status: Some(self.status()),
                    },
                ),
                ..self
            },
            None,
        )
    }

    /// The transfer ended well: after a move the directory is at the
    /// destination.
    pub open spec fn arrived(self) -> (DirTransferView, Option<RequestView>) {
        (
            DirTransferView {
                phase: TreePhaseView::Done,
                source: if self.is_copy {
                    self.source
                } else {
                    self.dest
                },
                ..self
            },
            None,
        )
    }

    /// With the destination in normal form the transfer asks whether it is
    /// taken; without one it ends.
    pub open spec fn probing(self, dest: Option<Seq<Seq<char>>>) -> (
        DirTransferView,
        Option<RequestView>,
    ) {
        match dest {
            Some(d) => (
                DirTransferView { dest: d, phase: TreePhaseView::Probe, ..self },
                Some(RequestView::Exists(d)),
            ),
            None => self.failed(invalid_path()),
        }
    }

    /// The transfer asks for the whole tree to be renamed into place.
    pub open spec fn renaming(self) -> (DirTransferView, Option<RequestView>) {
        (self.at(TreePhaseView::Rename), Some(RequestView::Rename(self.source, self.dest)))
    }

    /// The transfer starts to walk the tree.
    pub open spec fn walking(self) -> (DirTransferView, Option<RequestView>) {
        let (w, ask) = WalkView::start(self.source, self.dest, self.home, self.is_copy);
        (self.at(TreePhaseView::Walking(w)), ask)
    }

    /// The transfer of the directory at `source` to the exact path `raw`,
    /// before anything is known, and the question it starts with.
    pub open spec fn start(
        source: Seq<Seq<char>>,
        raw: Seq<Seq<char>>,
        home: Option<Seq<Seq<char>>>,
        is_copy: bool,
    ) -> (DirTransferView, Option<RequestView>) {
        let s = DirTransferView {
            source,
            raw,
            home,
            dest: Seq::empty(),
            is_copy,
            phase: TreePhaseView::Resolve,
            failure: None,
        };
        if absolute(raw) {
            s.probing(fixed(raw, None, home))
        } else {
            (s, Some(RequestView::CurrentDir))
        }
    }

    /// The transfer of the directory at `source` into the directory `dir`,
    /// under its own name. A path that names no entry cannot be transferred
    /// so.
    pub open spec fn start_into(
        source: Seq<Seq<char>>,
        dir: Seq<Seq<char>>,
        home: Option<Seq<Seq<char>>>,
        is_copy: bool,
    ) -> (DirTransferView, Option<RequestView>) {
        match file_name_of(source) {
            Some(name) => Self::start(source, joined(dir, seq![name]), home, is_copy),
            None => (DirTransferView {
                source,
                raw: dir,
                home,
                dest: Seq::empty(),
                is_copy,
                phase: TreePhaseView::Resolve,
                failure: None,
            }).failed(invalid_path()),
        }
    }

    /// The transfer tried again over a destination that is taken. A copy
    /// walks the tree into the directory that is there. A move tries to
    /// rename the tree onto it, and walks the tree where that fails.
    pub open spec fn recover(
        source: Seq<Seq<char>>,
        dest: Seq<Seq<char>>,
        home: Option<Seq<Seq<char>>>,
        is_copy: bool,
    ) -> (DirTransferView, Option<RequestView>) {
        let s = DirTransferView {
            source,
            raw: dest,
            home,
            dest,
            is_copy,
            phase: TreePhaseView::Probe,
            failure: None,
        };
        if is_copy {
            s.walking()
        } else {
            s.renaming()
        }
    }

    /// The transfer after `reply`, and what it asks next. A transfer that
    /// asks nothing more is over.
    pub open spec fn next(self, reply: ReplyView) -> (DirTransferView, Option<RequestView>) {
        match self.phase {
            TreePhaseView::Resolve => match reply.path() {
                Ok(cwd) => self.probing(fixed(self.raw, Some(cwd), self.home)),
                Err(_) => self.failed(invalid_path()),
            },
            TreePhaseView::Probe => match reply.flag() {
                Ok(taken) => if taken {
                    self.conflict()
                } else if self.is_copy {
                    self.walking()
                } else {
                    self.renaming()
                },
                Err(e) => self.failed(e),
            },
            TreePhaseView::Rename => match reply.unit() {
                Ok(_) => self.arrived(),
                Err(_) => self.walking(),
            },
            TreePhaseView::Walking(w) => {
                let (w, ask) = w.next(reply);
                match ask {
                    Some(r) => (self.at(TreePhaseView::Walking(w)), Some(r)),
                    None => match w.outcome() {
                        Ok(_) => self.arrived(),
                        Err(e) => self.failed(e),
                    },
                }
            },
            TreePhaseView::Done => (self, None),
        }
    }

    /// Whether the transfer is over.
    pub open spec fn done(self) -> bool {
        self.phase is Done
    }

    /// How the transfer went, once it is over.
    pub open spec fn outcome(self) -> Result<(), TryRecoverView> {
        match self.failure {
            Some(t) => Err(t),
            None => Ok(()),
        }
    }
}

impl DirTransfer {
    fn at(self, phase: TreePhase) -> (r: DirTransfer)
        ensures
            r@ == self@.at(phase@),
    {
        DirTransfer { phase, ..self }
    }

    fn failed(self, e: Error) -> (r: (DirTransfer, Option<Request>))
        ensures
            (r.0@, asked(r.1)) == self@.failed(e@),
    {
        (
            DirTransfer {
                phase: TreePhase::Done,
                failure: Some(TryRecover { error: e, status: None }),
                ..self
            },
            None,
        )
    }

    fn refused(self) -> (r: (DirTransfer, Option<Request>))
        ensures
            (r.0@, asked(r.1)) == self@.failed(invalid_path()),
    {
        let no: Result<(), Error> = INVALID_PATH();
        match no {
            Err(e) => self.failed(e),
            Ok(_) => (self, None),
        }
    }

    fn conflict(self) -> (r: (DirTransfer, Option<Request>))
        ensures
            (r.0@, asked(r.1)) == self@.conflict(),
    {
        let status = if self.is_copy {
            Status::CopyDirectory(self.source.clone(), self.dest.clone())
        } else {
            Status::MoveDirectory(self.source.clone(), self.dest.clone())
        };
        let failure = TryRecover::new(already_exist(&self.dest), status);
        (DirTransfer { phase: TreePhase::Done, failure: Some(failure), ..self }, None)
    }

    fn arrived(self) -> (r: (DirTransfer, Option<Request>))
        ensures
            (r.0@, asked(r.1)) == self@.arrived(),
    {
        if self.is_copy {
            (DirTransfer { phase: TreePhase::Done, ..self }, None)
        } else {
            let source = DirectoryInfo { path: self.dest.clone() };
            (DirTransfer { phase: TreePhase::Done, source, ..self }, None)
        }
    }

    fn probing(self, dest: Result<FsPath, Error>) -> (r: (DirTransfer, Option<Request>))
        ensures
            (r.0@, asked(r.1)) == self@.probing(found(dest)),
    {
        match dest {
            Ok(d) => {
                let ask = Request::Exists(d.clone());
                (DirTransfer { dest: d, phase: TreePhase::Probe, ..self }, Some(ask))
            },
            Err(_) => self.refused(),
        }
    }

    fn renaming(self) -> (r: (DirTransfer, Option<Request>))
        ensures
            (r.0@, asked(r.1)) == self@.renaming(),
    {
        let ask = Request::Rename(self.source.path.clone(), self.dest.clone());
        (self.at(TreePhase::Rename), Some(ask))
    }

    fn walking(self) -> (r: (DirTransfer, Option<Request>))
        ensures
            (r.0@, asked(r.1)) == self@.walking(),
    {
        let home = match &self.home {
            Some(h) => Some(h.clone()),
            None => None,
        };
        let (w, ask) = Walk::start(&self.source, self.dest.clone(), home, self.is_copy);
        (self.at(TreePhase::Walking(w)), ask)
    }

    /// Starts the transfer of `source` to the exact path `raw`; `home` is
    /// what `~` stands for.
    pub fn start(source: DirectoryInfo, raw: FsPath, home: Option<FsPath>, is_copy: bool) -> (r: (
        DirTransfer,
        Option<Request>,
    ))
        ensures
            (r.0@, asked(r.1)) == DirTransferView::start(source@, raw@, owned_view(home), is_copy),
    {
        let s = DirTransfer {
            source,
            raw,
            home,
            dest: FsPath::new(),
            is_copy,
            phase: TreePhase::Resolve,
            failure: None,
        };
        if s.raw.is_absolute() {
            let dest = fix_path_with(&s.raw, None, s.home.as_ref());
            s.probing(dest)
        } else {
            (s, Some(Request::CurrentDir))
        }
    }

    /// Starts the transfer of `source` into the directory `dir`, under its
    /// own name; `home` is what `~` stands for.
    pub fn start_into(source: DirectoryInfo, dir: &FsPath, home: Option<FsPath>, is_copy: bool) -> (r:
        (DirTransfer, Option<Request>))
        ensures
            (r.0@, asked(r.1)) == DirTransferView::start_into(
                source@,
                dir@,
                owned_view(home),
                is_copy,
            ),
    {
        let name = source.path.file_name();
        match push_file_name(name.as_ref(), dir) {
            Ok(raw) => Self::start(source, raw, home, is_copy),
            Err(e) => {
                let s = DirTransfer {
                    source,
                    raw: dir.clone(),
                    home,
                    dest: FsPath::new(),
                    is_copy,
                    phase: TreePhase::Resolve,
                    failure: None,
                };
                s.failed(e)
            },
        }
    }

    /// Starts the transfer again over the taken destination `dest`.
    pub fn recover(source: DirectoryInfo, dest: FsPath, home: Option<FsPath>, is_copy: bool) -> (r: (
        DirTransfer,
        Option<Request>,
    ))
        ensures
            (r.0@, asked(r.1)) == DirTransferView::recover(
                source@,
                dest@,
                owned_view(home),
                is_copy,
            ),
    {
        let s = DirTransfer {
            source,
            raw: dest.clone(),
            home,
            dest,
            is_copy,
            phase: TreePhase::Probe,
            failure: None,
        };
        if is_copy {
            s.walking()
        } else {
            s.renaming()
        }
    }

    /// Takes the reply to the last request and gives the next request, or
    /// none when the transfer is over.
    pub fn step(self, reply: Reply) -> (r: (DirTransfer, Option<Request>))
        ensures
            (r.0@, asked(r.1)) == self@.next(reply@),
    {
        let DirTransfer { source, raw, home, dest, is_copy, phase, failure } = self;
        match phase {
            TreePhase::Resolve => {
                let s = DirTransfer {
                    source,
                    raw,
                    home,
                    dest,
                    is_copy,
                    phase: TreePhase::Resolve,
                    failure,
                };
                match reply.path() {
                    Ok(cwd) => {
                        let fixed = fix_path_with(&s.raw, Some(&cwd), s.home.as_ref());
                        s.probing(fixed)
                    },
                    Err(_) => s.refused(),
                }
            },
            TreePhase::Probe => {
                let s = DirTransfer {
                    source,
                    raw,
                    home,
                    dest,
                    is_copy,
                    phase: TreePhase::Probe,
                    failure,
                };
                match reply.flag() {
                    Ok(taken) => {
                        if taken {
                            s.conflict()
                        } else if s.is_copy {
                            s.walking()
                        } else {
                            s.renaming()
                        }
                    },
                    Err(e) => s.failed(e),
                }
            },
            TreePhase::Rename => {
                let s = DirTransfer {
                    source,
                    raw,
                    home,
                    dest,
                    is_copy,
                    phase: TreePhase::Rename,
                    failure,
                };
                match reply.unit() {
                    Ok(_) => s.arrived(),
                    Err(_) => s.walking(),
                }
            },
            TreePhase::Walking(w) => {
                let (w, ask) = w.step(reply);
                match ask {
                    Some(r) => (
                        DirTransfer {
                            source,
                            raw,
                            home,
                            dest,
                            is_copy,
                            phase: TreePhase::Walking(w),
                            failure,
                        },
                        Some(r),
                    ),
                    None => {
                        let outcome = w.outcome();
                        let s = DirTransfer {
                            source,
                            raw,
                            home,
                            dest,
                            is_copy,
                            phase: TreePhase::Walking(w),
                            failure,
                        };
                        match outcome {
                            Ok(_) => s.arrived(),
                            Err(e) => s.failed(e),
                        }
                    },
                }
            },
            TreePhase::Done => (
                DirTransfer { source, raw, home, dest, is_copy, phase: TreePhase::Done, failure },
                None,
            ),
        }
    }

    /// Whether the transfer is over.
    pub fn is_done(&self) -> (r: bool)
        ensures
            r == self@.done(),
    {
        match self.phase {
            TreePhase::Done => true,
            _ => false,
        }
    }

    /// How the transfer went, once it is over.
    pub fn outcome(&self) -> (r: Result<(), TryRecover>)
        ensures
            match self@.outcome() {
                Ok(_) => r is Ok,
                Err(t) => r matches Err(x) && x@ == t,
            },
    {
        match &self.failure {
            Some(t) => Err(t.clone()),
            None => Ok(()),
        }
    }

    /// The directory: where it was, and after a move that went well, where
    /// it is now.
    pub fn entity(&self) -> (d: DirectoryInfo)
        ensures
            d@ == self@.source,
    {
        self.source.clone()
    }
}

impl Info for DirectoryInfo {
    open spec fn place(&self) -> Seq<Seq<char>> {
        self@
    }

    fn as_path(&self) -> (p: &FsPath) {
        &self.path
    }

    open spec fn measuring(&self) -> (MeasureView, RequestView) {
        MeasureView::start(self@)
    }

    /// Starts to measure the directory: its size is the sum of the lengths
    /// of all that is under it.
    fn size(&self) -> (r: (Measure, Request)) {
        Measure::start(&self.path)
    }
}

impl Action for DirectoryInfo {
    type Transfer = DirTransfer;

    open spec fn renamed(&self, name: Seq<Seq<char>>) -> Seq<Seq<char>> {
        with_file_name(self@, name)
    }

    open spec fn opens() -> OpenKind {
        OpenKind::Directory
    }

    /// Starts to open the directory at `path`. The home directory is looked
    /// up where the path mentions `~`.
    fn open(path: &FsPath) -> (r: (Open, Option<Request>))
        ensures
            exists|home: Option<Seq<Seq<char>>>|
                (!mentions_home(path@) ==> home is None) && #[trigger] OpenView::start(
                    OpenKind::Directory,
                    path@,
                    home,
                ) == (r.0@, asked(r.1)),
    {
        let home = lookup_home(path);
        let ghost h = owned_view(home);
        let r = Open::start(OpenKind::Directory, path.clone(), home);
        assert(OpenView::start(OpenKind::Directory, path@, h) == (r.0@, asked(r.1)));
        r
    }

    fn open_uncheck(path: FsPath) -> (d: DirectoryInfo) {
        DirectoryInfo { path }
    }

    fn rename_to(&self, name: &FsPath) -> (r: FsPath) {
        let mut to = self.path.clone();
        to.set_file_name(name);
        to
    }

    /// Copies the directory into the directory `path`, under its own name.
    /// The home directory is looked up.
    fn copy_to(&self, path: &FsPath) -> (r: (DirTransfer, Option<Request>))
        ensures
            exists|home: Option<Seq<Seq<char>>>| #[trigger]
                DirTransferView::start_into(self@, path@, home, true) == (r.0@, asked(r.1)),
    {
        let home = home_dir();
        let ghost h = owned_view(home);
        let r = DirTransfer::start_into(self.clone(), path, home, true);
        assert(DirTransferView::start_into(self@, path@, h, true) == (r.0@, asked(r.1)));
        r
    }

    /// Copies the directory with all that it holds to the exact path `path`.
    /// The home directory is looked up.
    fn copy_new(&self, path: &FsPath) -> (r: (DirTransfer, Option<Request>))
        ensures
            exists|home: Option<Seq<Seq<char>>>| #[trigger]
                DirTransferView::start(self@, path@, home, true) == (r.0@, asked(r.1)),
    {
        let home = home_dir();
        let ghost h = owned_view(home);
        let r = DirTransfer::start(self.clone(), path.clone(), home, true);
        assert(DirTransferView::start(self@, path@, h, true) == (r.0@, asked(r.1)));
        r
    }

    /// Moves the directory into the directory `path`, under its own name.
    /// The home directory is looked up.
    fn move_to(&self, path: &FsPath) -> (r: (DirTransfer, Option<Request>))
        ensures
            exists|home: Option<Seq<Seq<char>>>| #[trigger]
                DirTransferView::start_into(self@, path@, home, false) == (r.0@, asked(r.1)),
    {
        let home = home_dir();
        let ghost h = owned_view(home);
        let r = DirTransfer::start_into(self.clone(), path, home, false);
        assert(DirTransferView::start_into(self@, path@, h, false) == (r.0@, asked(r.1)));
        r
    }

    /// Moves the directory with all that it holds to the exact path `path`.
    /// The home directory is looked up.
    fn move_new(&self, path: &FsPath) -> (r: (DirTransfer, Option<Request>))
        ensures
            exists|home: Option<Seq<Seq<char>>>| #[trigger]
                DirTransferView::start(self@, path@, home, false) == (r.0@, asked(r.1)),
    {
        let home = home_dir();
        let ghost h = owned_view(home);
        let r = DirTransfer::start(self.clone(), path.clone(), home, false);
        assert(DirTransferView::start(self@, path@, h, false) == (r.0@, asked(r.1)));
        r
    }
}

impl DirectoryInfo {
    /// The directory that an opening has found, or none where the opening
    /// failed: whoever asks for the directory above an entity takes any
    /// failure to mean that there is none.
    pub fn found(open: &Open) -> (r: Option<DirectoryInfo>)
        ensures
            match open@.found_as(true) {
                Ok(p) => r matches Some(d) && d@ == p,
                Err(_) => r is None,
            },
    {
        match open.found_as(true) {
            Ok(path) => Some(DirectoryInfo { path }),
            Err(_) => None,
        }
    }

    /// The directory that an opening has found. The opening of a file has
    /// found no directory.
    pub fn opened(open: &Open) -> (r: Result<DirectoryInfo, Error>)
        ensures
            match open@.found_as(true) {
                Ok(p) => r matches Ok(d) && d@ == p,
                Err(e) => r matches Err(x) && x@ == e,
            },
    {
        match open.found_as(true) {
            Ok(path) => Ok(DirectoryInfo { path }),
            Err(e) => Err(e),
        }
    }

    /// The paths of all the entries of a listing of this directory.
    pub fn children(&self, entries: &Vec<DirEntry>) -> (r: Vec<FsPath>)
        ensures
            paths_of(r@) == listed(entries_of(entries@), None),
    {
        read_dir(entries, None)
    }

    /// The files among the entries of a listing of this directory.
    pub fn files(&self, entries: &Vec<DirEntry>) -> (r: Vec<FileInfo>)
        ensures
            files_of(r@) == listed(entries_of(entries@), Some(EntryKind::File)),
    {
        let found = read_dir(entries, Some(EntryKind::File));
        let mut files: Vec<FileInfo> = Vec::new();
        let n: usize = found.len();
        let mut i: usize = 0;
        assert(paths_of(found@).take(0) =~= Seq::empty());
        assert(files_of(files@) =~= Seq::empty());
        while i < n
            invariant
                n == found@.len(),
                i <= n,
                files_of(files@) == paths_of(found@).take(i as int),
            decreases n - i,
        {
            let ghost queued = files_of(files@);
            files.push(FileInfo::open_uncheck(found[i].clone()));
            proof {
                assert(files_of(files@) =~= queued.push(found@[i as int]@));
                assert(paths_of(found@).take(i + 1) =~= paths_of(found@).take(i as int).push(
                    found@[i as int]@,
                ));
            }
            i += 1;
        }
        assert(paths_of(found@).take(n as int) =~= paths_of(found@));
        files
    }

    /// The directories among the entries of a listing of this directory.
    pub fn directories(&self, entries: &Vec<DirEntry>) -> (r: Vec<DirectoryInfo>)
        ensures
            dirs_of(r@) == listed(entries_of(entries@), Some(EntryKind::Directory)),
    {
        let found = read_dir(entries, Some(EntryKind::Directory));
        let mut dirs: Vec<DirectoryInfo> = Vec::new();
        let n: usize = found.len();
        let mut i: usize = 0;
        assert(paths_of(found@).take(0) =~= Seq::empty());
        assert(dirs_of(dirs@) =~= Seq::empty());
        while i < n
            invariant
                n == found@.len(),
                i <= n,
                dirs_of(dirs@) == paths_of(found@).take(i as int),
            decreases n - i,
        {
            let ghost queued = dirs_of(dirs@);
            dirs.push(DirectoryInfo { path: found[i].clone() });
            proof {
                assert(dirs_of(dirs@) =~= queued.push(found@[i as int]@));
                assert(paths_of(found@).take(i + 1) =~= paths_of(found@).take(i as int).push(
                    found@[i as int]@,
                ));
            }
            i += 1;
        }
        assert(paths_of(found@).take(n as int) =~= paths_of(found@));
        dirs
    }
}

} // verus!
