//! The size of a directory: the lengths of the files under it, added up.

use std::collections::VecDeque;
use vstd::prelude::*;
use crate::dir::paths_of;
use crate::path::FsPath;
use crate::request::{
    asked, entries_of, DirEntry, DirEntryView, EntryKind, Reply, ReplyView, Request, RequestView,
};

verus! {

/// How far a measurement has come.
#[derive(Clone, Copy, Debug, PartialEq, Eq, Structural)]
pub enum MeasurePhase {
    /// Waiting for the entries of a directory.
    List,
    /// Waiting for the length of an entry.
    Stat,
    /// Nothing more to do.
    Done,
}

/// The measurement of a directory, in progress.
///
/// The tree is walked breadth first. A directory that cannot be listed
/// counts as empty, and an entry whose length cannot be had counts as 0: a
/// measurement never fails. The sum stops growing at the largest number that
/// it can hold.
#[derive(Debug)]
pub struct Measure {
    queue: VecDeque<FsPath>,
    entries: Vec<DirEntry>,
    at: usize,
    total: u64,
    phase: MeasurePhase,
}

/// The mathematical value of a [`Measure`].
pub struct MeasureView {
    /// The directories that wait their turn, first in, first out.
    pub queue: Seq<Seq<Seq<char>>>,
    /// The entries of the current directory that are still to be looked at.
    pub entries: Seq<DirEntryView>,
    /// The lengths added up so far.
    pub total: u64,
    pub phase: MeasurePhase,
}

impl View for Measure {
    type V = MeasureView;

    closed spec fn view(&self) -> MeasureView {
        MeasureView {
            queue: paths_of(self.queue@),
            entries: if self.at <= self.entries@.len() {
                entries_of(self.entries@).skip(self.at as int)
            } else {
                Seq::empty()
            },
            total: self.total,
            phase: self.phase,
        }
    }
}

/// `total` and `len` added, or the largest number where that is too much.
pub open spec fn added(total: u64, len: u64) -> u64 {
    if total + len > u64::MAX {
        u64::MAX
    } else {
        (total + len) as u64
    }
}

impl MeasureView {
    /// The measurement of the directory `dir`, before anything is known,
    /// and the question it starts with.
    pub open spec fn start(dir: Seq<Seq<char>>) -> (MeasureView, RequestView) {
        (
            MeasureView {
                queue: Seq::empty(),
                entries: Seq::empty(),
                total: 0,
                phase: MeasurePhase::List,
            },
            RequestView::ReadDir(dir),
        )
    }

    /// The measurement of the file at `file`, and the question it starts
    /// with: a file has the length that the system reports for it.
    pub open spec fn start_file(file: Seq<Seq<char>>) -> (MeasureView, RequestView) {
        (
            MeasureView {
                queue: Seq::empty(),
                entries: Seq::empty(),
                total: 0,
                phase: MeasurePhase::Stat,
            },
            RequestView::Metadata(file),
        )
    }

    /// What comes when a directory has no entry left: the next directory in
    /// the queue, or the end.
    pub open spec fn next_dir(self) -> (MeasureView, Option<RequestView>) {
        if self.queue.len() > 0 {
            (
                MeasureView { queue: self.queue.skip(1), phase: MeasurePhase::List, ..self },
                Some(RequestView::ReadDir(self.queue[0])),
            )
        } else {
            (MeasureView { phase: MeasurePhase::Done, ..self }, None)
        }
    }

    /// Goes through the entries that are left: directories are queued, and
    /// the first entry that is none is asked for its length.
    pub open spec fn scan(self) -> (MeasureView, Option<RequestView>)
        decreases self.entries.len(),
    {
        if self.entries.len() == 0 {
            self.next_dir()
        } else if self.entries[0].kind == EntryKind::Directory {
            (MeasureView {
                queue: self.queue.push(self.entries[0].path),
                entries: self.entries.skip(1),
                ..self
            }).scan()
        } else {
            (
                MeasureView { entries: self.entries.skip(1), phase: MeasurePhase::Stat, ..self },
                Some(RequestView::Metadata(self.entries[0].path)),
            )
        }
    }

    /// The length that a reply reports, or 0 where it reports none.
    pub open spec fn length(reply: ReplyView) -> u64 {
        match reply.meta() {
            Ok(m) => m.len,
            Err(_) => 0,
        }
    }

    /// The measurement after `reply`, and what it asks next. A measurement
    /// that asks nothing more is over.
    pub open spec fn next(self, reply: ReplyView) -> (MeasureView, Option<RequestView>) {
        match self.phase {
            MeasurePhase::List => match reply.entries() {
                Ok(entries) => (MeasureView { entries, ..self }).scan(),
                Err(_) => (MeasureView { entries: Seq::empty(), ..self }).scan(),
            },
            MeasurePhase::Stat => (MeasureView {
                total: added(self.total, Self::length(reply)),
                ..self
            }).scan(),
            MeasurePhase::Done => (self, None),
        }
    }

    /// Whether the measurement is over.
    pub open spec fn done(self) -> bool {
        self.phase == MeasurePhase::Done
    }
}

impl Measure {
    /// Starts the measurement of the directory at `dir`.
    pub fn start(dir: &FsPath) -> (r: (Measure, Request))
        ensures
            (r.0@, r.1@) == MeasureView::start(dir@),
    {
        let m = Measure {
            queue: VecDeque::new(),
            entries: Vec::new(),
            at: 0,
            total: 0,
            phase: MeasurePhase::List,
        };
        assert(paths_of(m.queue@) =~= Seq::empty());
        assert(m@.entries =~= Seq::empty());
        (m, Request::ReadDir(dir.clone()))
    }

    /// Starts the measurement of the file at `file`.
    pub fn start_file(file: &FsPath) -> (r: (Measure, Request))
        ensures
            (r.0@, r.1@) == MeasureView::start_file(file@),
    {
        let m = Measure {
            queue: VecDeque::new(),
            entries: Vec::new(),
            at: 0,
            total: 0,
            phase: MeasurePhase::Stat,
        };
        assert(paths_of(m.queue@) =~= Seq::empty());
        assert(m@.entries =~= Seq::empty());
        (m, Request::Metadata(file.clone()))
    }

    fn scan(self) -> (r: (Measure, Option<Request>))
        requires
            self.at <= self.entries@.len(),
        ensures
            (r.0@, asked(r.1)) == self@.scan(),
    {
        let ghost goal = self@.scan();
        let mut m = self;
        let n: usize = m.entries.len();
        while m.at < n
            invariant
                n == m.entries@.len(),
                m.at <= n,
                goal == self@.scan(),
                m@.scan() == goal,
            decreases n - m.at,
        {
            let ghost before = m@;
            proof {
                assert(before.entries[0] == m.entries@[m.at as int]@);
                assert(entries_of(m.entries@).skip(m.at as int).skip(1) =~= entries_of(
                    m.entries@,
                ).skip(m.at + 1));
            }
            match m.entries[m.at].kind {
                EntryKind::Directory => {
                    let ghost queued = paths_of(m.queue@);
                    m.queue.push_back(m.entries[m.at].path.clone());
                    assert(paths_of(m.queue@) =~= queued.push(before.entries[0].path));
                    m.at = m.at + 1;
                    assert(m@.entries =~= before.entries.skip(1));
                    assert(m@ == (MeasureView {
                        queue: before.queue.push(before.entries[0].path),
                        entries: before.entries.skip(1),
                        ..before
                    }));
                },
                _ => {
                    let ask = Request::Metadata(m.entries[m.at].path.clone());
                    m.at = m.at + 1;
                    m.phase = MeasurePhase::Stat;
                    assert(m@.entries =~= before.entries.skip(1));
                    assert(m@ == (MeasureView {
                        entries: before.entries.skip(1),
                        phase: MeasurePhase::Stat,
                        ..before
                    }));
                    return (m, Some(ask));
                },
            }
        }
        assert(m@.entries =~= Seq::empty());
        let ghost before = paths_of(m.queue@);
        match m.queue.pop_front() {
            Some(d) => {
                assert(paths_of(m.queue@) =~= before.skip(1));
                m.phase = MeasurePhase::List;
                (m, Some(Request::ReadDir(d)))
            },
            None => {
                m.phase = MeasurePhase::Done;
                (m, None)
            },
        }
    }

    /// Takes the reply to the last request and gives the next request, or
    /// none when the measurement is over.
    pub fn step(self, reply: Reply) -> (r: (Measure, Option<Request>))
        ensures
            (r.0@, asked(r.1)) == self@.next(reply@),
    {
        let mut m = self;
        match m.phase {
            MeasurePhase::List => {
                match reply.entries() {
                    Ok(entries) => {
                        m.entries = entries;
                    },
                    Err(_) => {
                        m.entries = Vec::new();
                    },
                }
                m.at = 0;
                proof {
                    assert(entries_of(m.entries@).skip(0) =~= entries_of(m.entries@));
                    let listed = match reply@.entries() {
                        Ok(entries) => entries,
                        Err(_) => Seq::empty(),
                    };
                    assert(m@.entries =~= listed);
                    assert(m@ == (MeasureView { entries: listed, ..self@ }));
                }
                m.scan()
            },
            MeasurePhase::Stat => {
                if m.at > m.entries.len() {
                    m.at = m.entries.len();
                }
                assert(m@.entries =~= self@.entries);
                let len: u64 = match reply.meta() {
                    Ok(meta) => meta.len,
                    Err(_) => 0,
                };
                m.total = if m.total > u64::MAX - len {
                    u64::MAX
                } else {
                    m.total + len
                };
                assert(m@ == (MeasureView {
                    total: added(self@.total, MeasureView::length(reply@)),
                    ..self@
                }));
                m.scan()
            },
            MeasurePhase::Done => (m, None),
        }
    }

    /// Whether the measurement is over.
    pub fn is_done(&self) -> (r: bool)
        ensures
            r == self@.done(),
    {
        match self.phase {
            MeasurePhase::Done => true,
            _ => false,
        }
    }

    /// The lengths added up so far: once the measurement is over, the size
    /// of the directory.
    pub fn total(&self) -> (r: u64)
        ensures
            r == self@.total,
    {
        self.total
    }
}

/// A directory that cannot be listed has size 0: the measurement ends at
/// once, with nothing added.
pub proof fn lemma_unreadable_measures_zero(dir: Seq<Seq<char>>, reply: ReplyView)
    requires
        reply.entries() is Err,
    ensures
        MeasureView::start(dir).0.next(reply).1 is None,
        MeasureView::start(dir).0.next(reply).0.done(),
        MeasureView::start(dir).0.next(reply).0.total == 0,
{
}

/// A file whose length cannot be had has size 0.
pub proof fn lemma_unreadable_file_measures_zero(file: Seq<Seq<char>>, reply: ReplyView)
    requires
        reply.meta() is Err,
    ensures
        MeasureView::start_file(file).0.next(reply).1 is None,
        MeasureView::start_file(file).0.next(reply).0.done(),
        MeasureView::start_file(file).0.next(reply).0.total == 0,
{
}

/// A file has the length that the system reports for it.
pub proof fn lemma_file_measures_its_length(file: Seq<Seq<char>>, m: crate::request::Metadata)
    ensures
        MeasureView::start_file(file).0.next(ReplyView::Meta(m)).1 is None,
        MeasureView::start_file(file).0.next(ReplyView::Meta(m)).0.done(),
        MeasureView::start_file(file).0.next(ReplyView::Meta(m)).0.total == m.len,
{
}

} // verus!
