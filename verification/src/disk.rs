//! A file system that works, as a mathematical model, and what the
//! operations of this library achieve on it.
//!
//! The library never touches a file system: it asks, and is told. What its
//! operations are good for shows only when the answers come from a file
//! system. This model says what answers a working one gives. It is strict
//! about permissions: a read-only file can be neither removed nor written
//! over.

use vstd::prelude::*;
use crate::delete::DeleteView;
use crate::dir::{DirTransferView, WalkView};
use crate::file::FileTransferView;
use crate::measure::MeasureView;
use crate::normalize::fixed;
use crate::error::{not_a_directory_at, not_a_file_at, ErrorView};
use crate::open::{OpenKind, OpenView};
use crate::path::{absolute, parent_of, starts_with};
use crate::recover::{RecoveryView, StatusView};
use crate::request::{DirEntryView, EntryKind, Metadata, ReplyView, RequestView};

verus! {

/// What is at a path: a file with its bytes and its permission, or a
/// directory.
pub enum Node {
    File { bytes: Seq<u8>, readonly: bool },
    Dir,
}

/// A file system: what is at each path that holds something.
pub type Disk = Map<Seq<Seq<char>>, Node>;

/// Whether a file is at `p`.
pub open spec fn is_file(disk: Disk, p: Seq<Seq<char>>) -> bool {
    disk.dom().contains(p) && disk[p] is File
}

/// Whether a directory is at `p`.
pub open spec fn is_dir(disk: Disk, p: Seq<Seq<char>>) -> bool {
    disk.dom().contains(p) && disk[p] is Dir
}

/// Whether `p` lies in a directory that exists.
pub open spec fn dir_above(disk: Disk, p: Seq<Seq<char>>) -> bool {
    parent_of(p) matches Some(dir) && is_dir(disk, dir)
}

/// Whether `p` can be written: nothing is there, or a file that is not
/// read-only.
pub open spec fn writable(disk: Disk, p: Seq<Seq<char>>) -> bool {
    !disk.dom().contains(p) || (disk[p] matches Node::File { readonly, .. } && !readonly)
}

/// What the system reports of a node.
pub open spec fn meta_of(node: Node) -> Metadata {
    match node {
        Node::File { bytes, readonly } => Metadata {
            len: if bytes.len() <= u64::MAX {
                bytes.len() as u64
            } else {
                u64::MAX
            },
            readonly,
        },
        Node::Dir => Metadata { len: 0, readonly: false },
    }
}

/// The node with its permission changed.
pub open spec fn with_permission(node: Node, readonly: bool) -> Node {
    match node {
        Node::File { bytes, .. } => Node::File { bytes, readonly },
        Node::Dir => Node::Dir,
    }
}

/// The kind that a listing gives a node.
pub open spec fn kind_of(node: Node) -> EntryKind {
    match node {
        Node::File { .. } => EntryKind::File,
        Node::Dir => EntryKind::Directory,
    }
}

/// Whether `entries` is a listing of the directory at `p`: every entry is
/// in the directory and of the kind given, and everything in the directory
/// is listed once.
pub open spec fn lists(disk: Disk, p: Seq<Seq<char>>, entries: Seq<DirEntryView>) -> bool {
    &&& forall|i: int|
        0 <= i < entries.len() ==> {
            &&& disk.dom().contains(#[trigger] entries[i].path)
            &&& parent_of(entries[i].path) == Some(p)
            &&& entries[i].kind == kind_of(disk[entries[i].path])
        }
    &&& forall|i: int, j: int|
        0 <= i < j < entries.len() ==> #[trigger] entries[i].path != #[trigger] entries[j].path
    &&& forall|k: Seq<Seq<char>>| #[trigger]
        disk.dom().contains(k) && parent_of(k) == Some(p) ==> exists|i: int|
            0 <= i < entries.len() && #[trigger] entries[i].path == k
}

/// The disk without the tree at `p`.
pub open spec fn without_tree(disk: Disk, p: Seq<Seq<char>>) -> Disk {
    disk.remove_keys(Set::new(|k: Seq<Seq<char>>| starts_with(k, p)))
}

/// The disk with the tree at `from` moved to `to`: what was at `from`
/// and under it is at `to` and under it.
pub open spec fn with_tree_moved(disk: Disk, from: Seq<Seq<char>>, to: Seq<Seq<char>>) -> Disk {
    Map::new(
        |k: Seq<Seq<char>>|
            (disk.dom().contains(k) && !starts_with(k, from)) || (starts_with(k, to)
                && disk.dom().contains(from + k.skip(to.len() as int))),
        |k: Seq<Seq<char>>|
            if starts_with(k, to) && disk.dom().contains(from + k.skip(to.len() as int)) {
                disk[from + k.skip(to.len() as int)]
            } else {
                disk[k]
            },
    )
}

/// Whether nothing is under `p`: no path that holds something goes on from
/// `p`.
pub open spec fn nothing_under(disk: Disk, p: Seq<Seq<char>>) -> bool {
    forall|k: Seq<Seq<char>>| #[trigger] disk.dom().contains(k) && starts_with(k, p) ==> k == p
}

/// Whether the directories down to `p` are all there.
pub open spec fn dirs_down_to(disk: Disk, p: Seq<Seq<char>>) -> bool {
    forall|n: int| 0 < n <= p.len() ==> is_dir(disk, #[trigger] p.take(n))
}

/// Whether no file stands where a directory down to `p` is needed.
pub open spec fn can_hold_dirs(disk: Disk, p: Seq<Seq<char>>) -> bool {
    forall|n: int| 0 < n <= p.len() ==> !is_file(disk, #[trigger] p.take(n))
}

/// The disk with the directories down to `p` in place.
pub open spec fn with_dirs(disk: Disk, p: Seq<Seq<char>>) -> Disk {
    Map::new(
        |k: Seq<Seq<char>>| disk.dom().contains(k) || (0 < k.len() && starts_with(p, k)),
        |k: Seq<Seq<char>>|
            if disk.dom().contains(k) {
                disk[k]
            } else {
                Node::Dir
            },
    )
}

/// Whether `reply` and `after` are what a working file system answers to
/// `request`, and is afterwards, when it was `before`.
///
/// What can be done is done, and what cannot be done fails and changes
/// nothing. Two things are left open: in which order a directory is
/// listed, and whether a rename works, since it can fail for reasons that
/// the model does not hold, such as a destination on another device.
pub open spec fn faithful(before: Disk, request: RequestView, reply: ReplyView, after: Disk) -> bool {
    match request {
        RequestView::CurrentDir => after == before && reply is Path,
        RequestView::Exists(p) => after == before && reply == ReplyView::Flag(
            before.dom().contains(p),
        ),
        RequestView::IsDir(p) => after == before && reply == ReplyView::Flag(is_dir(before, p)),
        RequestView::Metadata(p) => after == before && if before.dom().contains(p) {
            reply == ReplyView::Meta(meta_of(before[p]))
        } else {
            reply is Failed
        },
        RequestView::SetReadonly(p, flag) => if before.dom().contains(p) {
            reply == ReplyView::Done && after == before.insert(p, with_permission(before[p], flag))
        } else {
            reply is Failed && after == before
        },
        RequestView::RemoveFile(p) => if is_file(before, p) && writable(before, p) {
            reply == ReplyView::Done && after == before.remove(p)
        } else {
            reply is Failed && after == before
        },
        RequestView::RemoveDirAll(p) => if is_dir(before, p) {
            reply == ReplyView::Done && after == without_tree(before, p)
        } else {
            reply is Failed && after == before
        },
        RequestView::Copy(from, to) => if is_file(before, from) && dir_above(before, to)
            && writable(before, to) {
            reply == ReplyView::Done && after == before.insert(to, before[from])
        } else {
            reply is Failed && after == before
        },
        RequestView::Rename(from, to) => (reply is Failed && after == before) || (reply
            == ReplyView::Done && before.dom().contains(from) && dir_above(before, to)
            && !before.dom().contains(to) && after == with_tree_moved(before, from, to)),
        RequestView::CreateDirAll(p) => if can_hold_dirs(before, p) {
            reply == ReplyView::Done && after == with_dirs(before, p)
        } else {
            reply is Failed && after == before
        },
        RequestView::ReadDir(p) => after == before && if is_dir(before, p) {
            reply matches ReplyView::Entries(entries) && lists(before, p, entries)
        } else {
            reply is Failed
        },
        RequestView::CreateFile(p) => if dir_above(before, p) && writable(before, p) {
            reply == ReplyView::Done && after == before.insert(
                p,
                Node::File { bytes: Seq::empty(), readonly: false },
            )
        } else {
            reply is Failed && after == before
        },
        RequestView::OpenFile(p) => after == before && if before.dom().contains(p) {
            reply == ReplyView::Path(p)
        } else {
            reply is Failed
        },
        RequestView::ReadFile(p) => after == before && if is_file(before, p) {
            reply == ReplyView::Bytes(before[p]->bytes)
        } else {
            reply is Failed
        },
    }
}

/// Any operation of the library, in progress.
pub enum Job {
    Delete(DeleteView),
    File(FileTransferView),
    Tree(DirTransferView),
    Walk(WalkView),
    Recover(RecoveryView),
    Measure(MeasureView),
    Open(OpenView),
}

impl Job {
    /// The operation after `reply`, and what it asks next.
    pub open spec fn next(self, reply: ReplyView) -> (Job, Option<RequestView>) {
        match self {
            Job::Delete(s) => (Job::Delete(s.next(reply).0), s.next(reply).1),
            Job::File(s) => (Job::File(s.next(reply).0), s.next(reply).1),
            Job::Tree(s) => (Job::Tree(s.next(reply).0), s.next(reply).1),
            Job::Walk(s) => (Job::Walk(s.next(reply).0), s.next(reply).1),
            Job::Recover(s) => (Job::Recover(s.next(reply).0), s.next(reply).1),
            Job::Measure(s) => (Job::Measure(s.next(reply).0), s.next(reply).1),
            Job::Open(s) => (Job::Open(s.next(reply).0), s.next(reply).1),
        }
    }
}

/// Whether `trace` is a run of the operation `job` on `disk` from the
/// request `ask` on: the replies that a working file system gave, each with
/// the disk that it left, up to the point where the operation asks nothing
/// more.
pub open spec fn run_of(
    disk: Disk,
    job: Job,
    ask: Option<RequestView>,
    trace: Seq<(ReplyView, Disk)>,
) -> bool
    decreases trace.len(),
{
    match ask {
        None => trace.len() == 0,
        Some(request) => trace.len() > 0 && faithful(disk, request, trace[0].0, trace[0].1)
            && run_of(trace[0].1, job.next(trace[0].0).0, job.next(trace[0].0).1, trace.skip(1)),
    }
}

/// The operation as the replies of `trace` leave it.
pub open spec fn end_of(job: Job, trace: Seq<(ReplyView, Disk)>) -> Job
    decreases trace.len(),
{
    if trace.len() == 0 {
        job
    } else {
        end_of(job.next(trace[0].0).0, trace.skip(1))
    }
}

/// The disk as `trace` leaves it.
pub open spec fn disk_after(disk: Disk, trace: Seq<(ReplyView, Disk)>) -> Disk {
    if trace.len() == 0 {
        disk
    } else {
        trace.last().1
    }
}

/// A run that goes on takes one step: the first reply answers the request,
/// and the rest is a run from there.
pub proof fn lemma_run_step(
    disk: Disk,
    job: Job,
    request: RequestView,
    trace: Seq<(ReplyView, Disk)>,
)
    requires
        run_of(disk, job, Some(request), trace),
    ensures
        trace.len() > 0,
        faithful(disk, request, trace[0].0, trace[0].1),
        run_of(trace[0].1, job.next(trace[0].0).0, job.next(trace[0].0).1, trace.skip(1)),
        end_of(job, trace) == end_of(job.next(trace[0].0).0, trace.skip(1)),
        disk_after(disk, trace) == disk_after(trace[0].1, trace.skip(1)),
{
    if trace.skip(1).len() > 0 {
        assert(trace.skip(1).last() == trace.last());
    }
}

/// A run of an operation that asks nothing is empty.
pub proof fn lemma_run_end(disk: Disk, job: Job, trace: Seq<(ReplyView, Disk)>)
    requires
        run_of(disk, job, None, trace),
    ensures
        end_of(job, trace) == job,
        disk_after(disk, trace) == disk,
{
}

/// Opening what is there, and what is of the other kind: however the
/// opening of the absolute path `raw` as a directory runs, it ends; where a
/// directory is at the normal form of `raw`, it ends well with that normal
/// form, and where a file is there, or nothing, it fails as not found.
/// Nothing is changed.
pub proof fn lemma_open_directory_on_disk(
    disk: Disk,
    raw: Seq<Seq<char>>,
    home: Option<Seq<Seq<char>>>,
    trace: Seq<(ReplyView, Disk)>,
)
    requires
        absolute(raw),
        fixed(raw, None, home) is Some,
        run_of(
            disk,
            Job::Open(OpenView::start(OpenKind::Directory, raw, home).0),
            OpenView::start(OpenKind::Directory, raw, home).1,
            trace,
        ),
    ensures
        ({
            let end = end_of(Job::Open(OpenView::start(OpenKind::Directory, raw, home).0), trace);
            let p = fixed(raw, None, home)->0;
            &&& end is Open
            &&& end->Open_0.done()
            &&& is_dir(disk, p) ==> end->Open_0.outcome() == Ok::<Seq<Seq<char>>, ErrorView>(p)
            &&& !is_dir(disk, p) ==> end->Open_0.outcome() == Err::<Seq<Seq<char>>, ErrorView>(
                not_a_directory_at(p),
            )
            &&& disk_after(disk, trace) == disk
        }),
{
    let (s0, a0) = OpenView::start(OpenKind::Directory, raw, home);
    lemma_run_step(disk, Job::Open(s0), a0->0, trace);
    let (s1, a1) = s0.next(trace[0].0);
    lemma_run_end(trace[0].1, Job::Open(s1), trace.skip(1));
}

/// The same of a file: however the opening of `raw` as a file runs, it
/// ends; where a file is at `raw`, which is absolute and normal, it ends
/// well with `raw`, and where a directory is there, or nothing, it fails as
/// not found. Nothing is changed.
pub proof fn lemma_open_file_on_disk(
    disk: Disk,
    raw: Seq<Seq<char>>,
    home: Option<Seq<Seq<char>>>,
    trace: Seq<(ReplyView, Disk)>,
)
    requires
        crate::normalize::normal(raw),
        !crate::normalize::mentions_home(raw),
        run_of(
            disk,
            Job::Open(OpenView::start(OpenKind::File, raw, home).0),
            OpenView::start(OpenKind::File, raw, home).1,
            trace,
        ),
    ensures
        ({
            let end = end_of(Job::Open(OpenView::start(OpenKind::File, raw, home).0), trace);
            &&& end is Open
            &&& end->Open_0.done()
            &&& is_file(disk, raw) ==> end->Open_0.outcome() == Ok::<Seq<Seq<char>>, ErrorView>(
                raw,
            )
            &&& is_dir(disk, raw) ==> end->Open_0.outcome() == Err::<Seq<Seq<char>>, ErrorView>(
                not_a_file_at(raw),
            )
            &&& !disk.dom().contains(raw) ==> end->Open_0.outcome() is Err
            &&& disk_after(disk, trace) == disk
        }),
{
    crate::normalize::lemma_fixed_idempotent(raw, None, home);
    let (s0, a0) = OpenView::start(OpenKind::File, raw, home);
    lemma_run_step(disk, Job::Open(s0), a0->0, trace);
    let (s1, a1) = s0.next(trace[0].0);
    let rest = trace.skip(1);
    if disk.dom().contains(raw) {
        lemma_run_step(disk, Job::Open(s1), a1->0, rest);
        let (s2, a2) = s1.next(rest[0].0);
        lemma_run_end(rest[0].1, Job::Open(s2), rest.skip(1));
    } else {
        lemma_run_end(trace[0].1, Job::Open(s1), rest);
    }
}

/// A copy to a free destination: however the copy of the file at `source`
/// to the free path `dest` runs, it ends well, the destination then holds
/// what the source holds, bytes and permission, and nothing else has
/// changed: the source is as it was.
pub proof fn lemma_copy_round_trip(
    disk: Disk,
    source: Seq<Seq<char>>,
    raw: Seq<Seq<char>>,
    home: Option<Seq<Seq<char>>>,
    trace: Seq<(ReplyView, Disk)>,
)
    requires
        absolute(raw),
        fixed(raw, None, home) is Some,
        is_file(disk, source),
        !disk.dom().contains(fixed(raw, None, home)->0),
        dir_above(disk, fixed(raw, None, home)->0),
        run_of(
            disk,
            Job::File(FileTransferView::start(source, raw, home, true).0),
            FileTransferView::start(source, raw, home, true).1,
            trace,
        ),
    ensures
        ({
            let end = end_of(Job::File(FileTransferView::start(source, raw, home, true).0), trace);
            let dest = fixed(raw, None, home)->0;
            &&& end is File
            &&& end->File_0.done()
            &&& end->File_0.outcome() is Ok
            &&& end->File_0.source == source
            &&& disk_after(disk, trace) == disk.insert(dest, disk[source])
            &&& disk_after(disk, trace)[source] == disk[source]
        }),
{
    let (s0, a0) = FileTransferView::start(source, raw, home, true);
    lemma_run_step(disk, Job::File(s0), a0->0, trace);
    let (s1, a1) = s0.next(trace[0].0);
    let rest = trace.skip(1);
    lemma_run_step(trace[0].1, Job::File(s1), a1->0, rest);
    let (s2, a2) = s1.next(rest[0].0);
    lemma_run_end(rest[0].1, Job::File(s2), rest.skip(1));
}

/// Such a copy can run: a working file system has an answer to each of its
/// requests.
pub proof fn lemma_copy_can_run(
    disk: Disk,
    source: Seq<Seq<char>>,
    raw: Seq<Seq<char>>,
    home: Option<Seq<Seq<char>>>,
) -> (trace: Seq<(ReplyView, Disk)>)
    requires
        absolute(raw),
        fixed(raw, None, home) is Some,
        is_file(disk, source),
        !disk.dom().contains(fixed(raw, None, home)->0),
        dir_above(disk, fixed(raw, None, home)->0),
    ensures
        run_of(
            disk,
            Job::File(FileTransferView::start(source, raw, home, true).0),
            FileTransferView::start(source, raw, home, true).1,
            trace,
        ),
{
    let dest = fixed(raw, None, home)->0;
    let probe = (ReplyView::Flag(false), disk);
    let copy = (ReplyView::Done, disk.insert(dest, disk[source]));
    let trace = seq![probe, copy];
    reveal_with_fuel(run_of, 3);
    assert(trace.skip(1)[0] == copy);
    assert(trace.skip(1).skip(1).len() == 0);
    trace
}

/// What recovery does to a destination that is taken: however the copy of
/// the file at `source` over the file at `dest` runs, it ends with the
/// failure that says what was being done, and has changed nothing; and
/// however the attempt to put that failure right then runs, it ends well,
/// the destination then holds what the source holds, whether it was
/// read-only before or not, and nothing else has changed.
pub proof fn lemma_copy_over_taken_destination(
    disk: Disk,
    source: Seq<Seq<char>>,
    raw: Seq<Seq<char>>,
    home: Option<Seq<Seq<char>>>,
    first: Seq<(ReplyView, Disk)>,
    second: Seq<(ReplyView, Disk)>,
)
    requires
        absolute(raw),
        fixed(raw, None, home) is Some,
        is_file(disk, source),
        is_file(disk, fixed(raw, None, home)->0),
        dir_above(disk, fixed(raw, None, home)->0),
        source != fixed(raw, None, home)->0,
        run_of(
            disk,
            Job::File(FileTransferView::start(source, raw, home, true).0),
            FileTransferView::start(source, raw, home, true).1,
            first,
        ),
        ({
            let failed = end_of(
                Job::File(FileTransferView::start(source, raw, home, true).0),
                first,
            );
            failed is File && failed->File_0.failure is Some ==> run_of(
                disk_after(disk, first),
                Job::Recover(failed->File_0.failure->0.try_recover(None).0),
                failed->File_0.failure->0.try_recover(None).1,
                second,
            )
        }),
    ensures
        ({
            let failed = end_of(
                Job::File(FileTransferView::start(source, raw, home, true).0),
                first,
            );
            let dest = fixed(raw, None, home)->0;
            &&& disk_after(disk, first) == disk
            &&& failed is File
            &&& failed->File_0.done()
            &&& failed->File_0.failure is Some
            &&& failed->File_0.failure->0.recoverable()
            &&& failed->File_0.failure->0.status == Some(StatusView::CopyFile(source, dest))
            &&& ({
                let end = end_of(
                    Job::Recover(failed->File_0.failure->0.try_recover(None).0),
                    second,
                );
                &&& end is Recover
                &&& end->Recover_0.done()
                &&& end->Recover_0.outcome() is Ok
                &&& disk_after(disk, second) == disk.insert(dest, disk[source])
            })
        }),
{
    let dest = fixed(raw, None, home)->0;
    let (s0, a0) = FileTransferView::start(source, raw, home, true);
    lemma_run_step(disk, Job::File(s0), a0->0, first);
    let (s1, a1) = s0.next(first[0].0);
    lemma_run_end(first[0].1, Job::File(s1), first.skip(1));
    let failure = s1.failure->0;
    let (v0, b0) = failure.try_recover(None);
    let t0 = second;
    lemma_run_step(disk, Job::Recover(v0), b0->0, t0);
    let (v1, b1) = v0.next(t0[0].0);
    let t1 = t0.skip(1);
    lemma_run_step(t0[0].1, Job::Recover(v1), b1->0, t1);
    let (v2, b2) = v1.next(t1[0].0);
    let t2 = t1.skip(1);
    lemma_run_step(t1[0].1, Job::Recover(v2), b2->0, t2);
    let (v3, b3) = v2.next(t2[0].0);
    let t3 = t2.skip(1);
    lemma_run_step(t2[0].1, Job::Recover(v3), b3->0, t3);
    let (v4, b4) = v3.next(t3[0].0);
    let t4 = t3.skip(1);
    if disk[dest]->readonly {
        lemma_run_step(t3[0].1, Job::Recover(v4), b4->0, t4);
        let (v5, b5) = v4.next(t4[0].0);
        lemma_run_end(t4[0].1, Job::Recover(v5), t4.skip(1));
        assert(t2[0].1 == disk.insert(dest, with_permission(disk[dest], false)));
        assert(t3[0].1 == t2[0].1.remove(dest));
        assert(t4[0].1 == t3[0].1.insert(dest, disk[source]));
        assert(t4[0].1 =~= disk.insert(dest, disk[source]));
    } else {
        lemma_run_end(t3[0].1, Job::Recover(v4), t4);
        assert(t2[0].1 == disk.remove(dest));
        assert(t3[0].1 =~= disk.insert(dest, disk[source]));
    }
}

/// Moving a file that has nothing under it to a free path puts the file
/// there and changes nothing else.
pub proof fn lemma_file_moved(disk: Disk, source: Seq<Seq<char>>, dest: Seq<Seq<char>>)
    requires
        disk.dom().contains(source),
        nothing_under(disk, source),
        !disk.dom().contains(dest),
        !starts_with(dest, source),
    ensures
        with_tree_moved(disk, source, dest) == disk.remove(source).insert(dest, disk[source]),
{
    let moved = with_tree_moved(disk, source, dest);
    let goal = disk.remove(source).insert(dest, disk[source]);
    assert(source + dest.skip(dest.len() as int) =~= source);
    assert(dest.take(dest.len() as int) =~= dest);
    assert(source.take(source.len() as int) =~= source);
    assert forall|k: Seq<Seq<char>>| #[trigger]
        moved.dom().contains(k) <==> goal.dom().contains(k) by {
        if starts_with(k, dest) && disk.dom().contains(source + k.skip(dest.len() as int)) {
            let there = source + k.skip(dest.len() as int);
            assert(there.take(source.len() as int) =~= source);
            assert(there.len() == source.len());
            assert(k =~= k.take(dest.len() as int));
        }
        if disk.dom().contains(k) && starts_with(k, source) {
            assert(k == source);
        }
    }
    assert forall|k: Seq<Seq<char>>| moved.dom().contains(k) implies #[trigger] moved[k]
        == goal[k] by {
        if starts_with(k, dest) && disk.dom().contains(source + k.skip(dest.len() as int)) {
            let there = source + k.skip(dest.len() as int);
            assert(there.take(source.len() as int) =~= source);
            assert(there.len() == source.len());
            assert(k =~= k.take(dest.len() as int));
            assert(there =~= source);
        }
    }
    assert(moved =~= goal);
}

/// The second way to move a file: however the rest of a move runs that is
/// about to copy the bytes, it ends well and knows the file at the
/// destination, which then holds what the source held; the source is gone,
/// read-only or not, and nothing else has changed.
pub proof fn lemma_copy_then_unlink(
    disk: Disk,
    s: FileTransferView,
    trace: Seq<(ReplyView, Disk)>,
)
    requires
        !s.is_copy,
        s.phase is Copy,
        s.failure is None,
        is_file(disk, s.source),
        !disk.dom().contains(s.dest),
        dir_above(disk, s.dest),
        run_of(disk, Job::File(s), Some(RequestView::Copy(s.source, s.dest)), trace),
    ensures
        ({
            let end = end_of(Job::File(s), trace);
            &&& end is File
            &&& end->File_0.done()
            &&& end->File_0.outcome() is Ok
            &&& end->File_0.source == s.dest
            &&& disk_after(disk, trace) == disk.remove(s.source).insert(s.dest, disk[s.source])
        }),
{
    let (source, dest) = (s.source, s.dest);
    let goal = disk.remove(source).insert(dest, disk[source]);
    let copied = disk.insert(dest, disk[source]);
    let t0 = trace;
    lemma_run_step(disk, Job::File(s), RequestView::Copy(source, dest), t0);
    let (s1, a1) = s.next(t0[0].0);
    let t1 = t0.skip(1);
    lemma_run_step(copied, Job::File(s1), a1->0, t1);
    let (s2, a2) = s1.next(t1[0].0);
    let t2 = t1.skip(1);
    lemma_run_step(copied, Job::File(s2), a2->0, t2);
    let (s3, a3) = s2.next(t2[0].0);
    let t3 = t2.skip(1);
    lemma_run_step(t2[0].1, Job::File(s3), a3->0, t3);
    let (s4, a4) = s3.next(t3[0].0);
    let t4 = t3.skip(1);
    if disk[source]->readonly {
        lemma_run_step(t3[0].1, Job::File(s4), a4->0, t4);
        let (s5, a5) = s4.next(t4[0].0);
        lemma_run_end(t4[0].1, Job::File(s5), t4.skip(1));
        assert(t4[0].1 =~= goal);
    } else {
        lemma_run_end(t3[0].1, Job::File(s4), t4);
        assert(t3[0].1 =~= goal);
    }
}

/// A move takes the file to its destination whether renaming works or
/// not: however the move of the file at `source` to the free path `dest`
/// runs, it ends well and knows the file at the destination, which then
/// holds what the source held; the source is gone, and nothing else has
/// changed.
pub proof fn lemma_move_file(
    disk: Disk,
    source: Seq<Seq<char>>,
    raw: Seq<Seq<char>>,
    home: Option<Seq<Seq<char>>>,
    trace: Seq<(ReplyView, Disk)>,
)
    requires
        absolute(raw),
        fixed(raw, None, home) is Some,
        is_file(disk, source),
        nothing_under(disk, source),
        !disk.dom().contains(fixed(raw, None, home)->0),
        !starts_with(fixed(raw, None, home)->0, source),
        dir_above(disk, fixed(raw, None, home)->0),
        dirs_down_to(disk, parent_of(fixed(raw, None, home)->0)->0),
        run_of(
            disk,
            Job::File(FileTransferView::start(source, raw, home, false).0),
            FileTransferView::start(source, raw, home, false).1,
            trace,
        ),
    ensures
        ({
            let end = end_of(Job::File(FileTransferView::start(source, raw, home, false).0), trace);
            let dest = fixed(raw, None, home)->0;
            &&& end is File
            &&& end->File_0.done()
            &&& end->File_0.outcome() is Ok
            &&& end->File_0.source == dest
            &&& disk_after(disk, trace) == disk.remove(source).insert(dest, disk[source])
        }),
{
    let dest = fixed(raw, None, home)->0;
    let dir = parent_of(dest)->0;
    let (s0, a0) = FileTransferView::start(source, raw, home, false);
    let t0 = trace;
    lemma_run_step(disk, Job::File(s0), a0->0, t0);
    let (s1, a1) = s0.next(t0[0].0);
    let t1 = t0.skip(1);
    lemma_run_step(disk, Job::File(s1), a1->0, t1);
    assert(dir.take(dir.len() as int) =~= dir);
    assert(t1[0].1 =~= disk) by {
        assert forall|k: Seq<Seq<char>>| 0 < k.len() && starts_with(dir, k) implies disk.dom().contains(
            k,
        ) by {
            assert(dir.take(k.len() as int) == k);
        }
    }
    let (s2, a2) = s1.next(t1[0].0);
    let t2 = t1.skip(1);
    if a2 == Some(RequestView::Rename(source, dest)) {
        lemma_run_step(disk, Job::File(s2), a2->0, t2);
        let (s3, a3) = s2.next(t2[0].0);
        let t3 = t2.skip(1);
        if t2[0].0 is Failed {
            lemma_copy_then_unlink(disk, s3, t3);
        } else {
            lemma_run_end(t2[0].1, Job::File(s3), t3);
            lemma_file_moved(disk, source, dest);
        }
    } else {
        lemma_copy_then_unlink(disk, s2, t2);
    }
}

/// Deleting what is read-only: however the deletion of the read-only file
/// at `p` runs, it ends well and the file is gone, though the file system
/// would not have removed it as it was; nothing else has changed.
pub proof fn lemma_delete_read_only_file(
    disk: Disk,
    p: Seq<Seq<char>>,
    trace: Seq<(ReplyView, Disk)>,
)
    requires
        is_file(disk, p),
        !writable(disk, p),
        run_of(disk, Job::Delete(DeleteView::start(p).0), Some(DeleteView::start(p).1), trace),
    ensures
        ({
            let end = end_of(Job::Delete(DeleteView::start(p).0), trace);
            &&& end is Delete
            &&& end->Delete_0.done()
            &&& end->Delete_0.outcome() is Ok
            &&& disk_after(disk, trace) == disk.remove(p)
        }),
{
    let (s0, a0) = DeleteView::start(p);
    let t0 = trace;
    lemma_run_step(disk, Job::Delete(s0), a0, t0);
    let (s1, a1) = s0.next(t0[0].0);
    let t1 = t0.skip(1);
    lemma_run_step(t0[0].1, Job::Delete(s1), a1->0, t1);
    let (s2, a2) = s1.next(t1[0].0);
    let t2 = t1.skip(1);
    lemma_run_step(t1[0].1, Job::Delete(s2), a2->0, t2);
    let (s3, a3) = s2.next(t2[0].0);
    let t3 = t2.skip(1);
    lemma_run_step(t2[0].1, Job::Delete(s3), a3->0, t3);
    let (s4, a4) = s3.next(t3[0].0);
    lemma_run_end(t3[0].1, Job::Delete(s4), t3.skip(1));
    assert(t3[0].1 =~= disk.remove(p));
}

/// The size of what is not there: however the measurement of a path that
/// holds nothing runs, as a file or as a directory, it ends with the size 0
/// and has changed nothing.
pub proof fn lemma_size_of_nothing(
    disk: Disk,
    p: Seq<Seq<char>>,
    as_file: bool,
    trace: Seq<(ReplyView, Disk)>,
)
    requires
        !disk.dom().contains(p),
        run_of(
            disk,
            Job::Measure(
                if as_file {
                    MeasureView::start_file(p).0
                } else {
                    MeasureView::start(p).0
                },
            ),
            Some(
                if as_file {
                    MeasureView::start_file(p).1
                } else {
                    MeasureView::start(p).1
                },
            ),
            trace,
        ),
    ensures
        ({
            let end = end_of(
                Job::Measure(
                    if as_file {
                        MeasureView::start_file(p).0
                    } else {
                        MeasureView::start(p).0
                    },
                ),
                trace,
            );
            &&& end is Measure
            &&& end->Measure_0.done()
            &&& end->Measure_0.total == 0
            &&& disk_after(disk, trace) == disk
        }),
{
    let (s0, a0) = if as_file {
        MeasureView::start_file(p)
    } else {
        MeasureView::start(p)
    };
    lemma_run_step(disk, Job::Measure(s0), a0, trace);
    let (s1, a1) = s0.next(trace[0].0);
    lemma_run_end(trace[0].1, Job::Measure(s1), trace.skip(1));
}

} // verus!
