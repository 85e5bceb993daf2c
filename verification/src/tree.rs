//! What copying a tree achieves on a working file system: the destination
//! ends up holding the tree, in the place of what it held under the same
//! names, and nothing else changes.
//!
//! The proof follows the walk. At every request the disk is the disk of
//! the start with the mirror of everything that is no longer owed, and what
//! is owed is what lies under the directories that wait their turn, along
//! with what is left of the directory whose turn it is.

use vstd::prelude::*;
use crate::dir::{listed, DirTransferView, TreePhaseView, WalkPhaseView, WalkView};
use crate::delete::{DeletePhase, DeleteView};
use crate::disk::{
    dir_above, dirs_down_to, disk_after, end_of, faithful, is_dir, is_file, kind_of,
    lemma_run_end, lemma_run_step, lists, run_of, with_dirs, with_permission, Disk, Job,
};
use crate::file::{FileTransferView, TransferPhaseView};
use crate::normalize::{lemma_fixed_idempotent, mentions_home, normal, plain};
use crate::path::{
    absolute, is_cur_dir, is_home, is_normal, is_parent_dir, is_root, parent_of, starts_with,
    valid_component, well_formed,
};
use crate::recover::{RecoveryView, StatusView};
use crate::request::{DirEntryView, EntryKind, ReplyView, RequestView};

verus! {

/// A path made of plain names below its first component: well formed, with
/// no `.`, `..` or `~` in it.
pub open spec fn clean(p: Seq<Seq<char>>) -> bool {
    well_formed(p) && plain(p) && !mentions_home(p)
}

/// Where what is at `k` under `root` lands under `to`.
pub open spec fn mirror(root: Seq<Seq<char>>, to: Seq<Seq<char>>, k: Seq<Seq<char>>) -> Seq<
    Seq<char>,
> {
    to + k.skip(root.len() as int)
}

/// Whether `p` starts with `q` and goes on.
pub open spec fn below(p: Seq<Seq<char>>, q: Seq<Seq<char>>) -> bool {
    starts_with(p, q) && p.len() > q.len()
}

/// Going there and back: what lands at the mirror of `k` comes from `k`.
pub proof fn lemma_mirror_back(root: Seq<Seq<char>>, to: Seq<Seq<char>>, k: Seq<Seq<char>>)
    requires
        starts_with(k, root),
    ensures
        starts_with(mirror(root, to, k), to),
        mirror(to, root, mirror(root, to, k)) == k,
        mirror(root, to, k).len() == to.len() + k.len() - root.len(),
{
    let m = mirror(root, to, k);
    assert(m.take(to.len() as int) =~= to);
    assert(m.skip(to.len() as int) =~= k.skip(root.len() as int));
    assert(root + k.skip(root.len() as int) =~= k) by {
        assert(k.take(root.len() as int) == root);
        assert(k.take(root.len() as int) + k.skip(root.len() as int) =~= k);
    }
}

/// What lands at a place under the destination comes from one place only.
pub proof fn lemma_mirror_unique(
    root: Seq<Seq<char>>,
    to: Seq<Seq<char>>,
    k: Seq<Seq<char>>,
    m: Seq<Seq<char>>,
)
    requires
        starts_with(m, to),
        starts_with(k, root),
        mirror(to, root, m) == k,
    ensures
        m == mirror(root, to, k),
{
    assert(to + m.skip(to.len() as int) =~= m) by {
        assert(m.take(to.len() as int) == to);
        assert(m.take(to.len() as int) + m.skip(to.len() as int) =~= m);
    }
    assert(k.skip(root.len() as int) =~= m.skip(to.len() as int));
}

/// Prefixes are ordered: what starts with `b`, which starts with `c`,
/// starts with `c`.
pub proof fn lemma_starts_with_trans(a: Seq<Seq<char>>, b: Seq<Seq<char>>, c: Seq<Seq<char>>)
    requires
        starts_with(a, b),
        starts_with(b, c),
    ensures
        starts_with(a, c),
{
    assert(a.take(c.len() as int) =~= a.take(b.len() as int).take(c.len() as int));
}

/// A prefix of a path is what the path starts with.
pub proof fn lemma_take_is_prefix(k: Seq<Seq<char>>, n: int)
    requires
        0 <= n <= k.len(),
    ensures
        starts_with(k, k.take(n)),
        k.take(n).len() == n,
{
    assert(k.take(k.take(n).len() as int) =~= k.take(n));
}

/// The parent of a path is the path without its last component.
pub proof fn lemma_parent_is_take(k: Seq<Seq<char>>, dir: Seq<Seq<char>>)
    requires
        parent_of(k) == Some(dir),
    ensures
        k.len() == dir.len() + 1,
        starts_with(k, dir),
        k.take(dir.len() as int) == dir,
{
    assert(k.drop_last() =~= k.take(k.len() - 1));
    lemma_take_is_prefix(k, k.len() - 1);
}

/// A path that goes on from a non-empty directory has that directory, or
/// something below it, as its parent.
pub proof fn lemma_child_on_the_way(k: Seq<Seq<char>>, dir: Seq<Seq<char>>)
    requires
        below(k, dir),
        dir.len() > 0,
    ensures
        parent_of(k.take(dir.len() as int + 1)) == Some(dir),
        starts_with(k, k.take(dir.len() as int + 1)),
{
    let c = k.take(dir.len() as int + 1);
    lemma_take_is_prefix(k, dir.len() as int + 1);
    assert(c.drop_last() =~= k.take(dir.len() as int));
}

/// The mirror of a child is the child of the mirror.
pub proof fn lemma_mirror_child(
    root: Seq<Seq<char>>,
    to: Seq<Seq<char>>,
    dir: Seq<Seq<char>>,
    k: Seq<Seq<char>>,
)
    requires
        starts_with(dir, root),
        parent_of(k) == Some(dir),
        to.len() > 0,
    ensures
        starts_with(k, root),
        mirror(root, to, k) == mirror(root, to, dir).push(k.last()),
        parent_of(mirror(root, to, k)) == Some(mirror(root, to, dir)),
{
    lemma_parent_is_take(k, dir);
    lemma_starts_with_trans(k, dir, root);
    let m = mirror(root, to, k);
    assert(m =~= mirror(root, to, dir).push(k.last())) by {
        assert(k =~= dir.push(k.last()));
        assert(k.skip(root.len() as int) =~= dir.skip(root.len() as int).push(k.last()));
    }
    assert(m.drop_last() =~= mirror(root, to, dir));
}

/// What is known of a listing that was cut down to the wanted kind: every
/// path in it comes from an entry of that kind, every entry of that kind
/// is in it, and it names no path twice where the listing named none twice.
pub proof fn lemma_listed(entries: Seq<DirEntryView>, want: EntryKind)
    ensures
        forall|j: int|
            0 <= j < listed(entries, Some(want)).len() ==> exists|i: int|
                0 <= i < entries.len() && entries[i].kind == want && #[trigger] entries[i].path
                    == #[trigger] listed(entries, Some(want))[j],
        forall|i: int|
            0 <= i < entries.len() && entries[i].kind == want ==> listed(
                entries,
                Some(want),
            ).contains(#[trigger] entries[i].path),
        (forall|i: int, j: int|
            0 <= i < j < entries.len() ==> #[trigger] entries[i].path != #[trigger] entries[j].path)
            ==> (forall|i: int, j: int|
            0 <= i < j < listed(entries, Some(want)).len() ==> #[trigger] listed(
                entries,
                Some(want),
            )[i] != #[trigger] listed(entries, Some(want))[j]),
    decreases entries.len(),
{
    let out = listed(entries, Some(want));
    if entries.len() > 0 {
        let front = entries.drop_last();
        let before = listed(front, Some(want));
        lemma_listed(front, want);
        let last = entries.last();
        assert forall|j: int| 0 <= j < out.len() implies exists|i: int|
            0 <= i < entries.len() && entries[i].kind == want && #[trigger] entries[i].path
                == #[trigger] out[j] by {
            if j < before.len() {
                assert(out[j] == before[j]);
                let i = choose|i: int|
                    0 <= i < front.len() && front[i].kind == want && #[trigger] front[i].path
                        == before[j];
                assert(entries[i] == front[i]);
            } else {
                assert(entries[entries.len() - 1].path == out[j]);
            }
        }
        assert forall|i: int| 0 <= i < entries.len() && entries[i].kind == want implies out.contains(
            #[trigger] entries[i].path,
        ) by {
            if i < front.len() {
                assert(front[i] == entries[i]);
                assert(before.contains(front[i].path));
                let j = choose|j: int| 0 <= j < before.len() && before[j] == front[i].path;
                assert(out[j] == before[j]);
            } else {
                assert(out[out.len() - 1] == entries[i].path);
            }
        }
        if forall|i: int, j: int|
            0 <= i < j < entries.len() ==> #[trigger] entries[i].path != #[trigger] entries[j].path {
            assert forall|i: int, j: int| 0 <= i < j < front.len() implies #[trigger] front[i].path
                != #[trigger] front[j].path by {
                assert(front[i] == entries[i]);
                assert(front[j] == entries[j]);
            }
            assert forall|i: int, j: int| 0 <= i < j < out.len() implies #[trigger] out[i]
                != #[trigger] out[j] by {
                if j < before.len() {
                    assert(out[i] == before[i]);
                    assert(out[j] == before[j]);
                } else {
                    assert(out[i] == before[i]);
                    let e = choose|e: int|
                        0 <= e < front.len() && front[e].kind == want && #[trigger] front[e].path
                            == before[i];
                    assert(entries[e] == front[e]);
                    assert(entries[e].path != entries[entries.len() - 1].path);
                }
            }
        }
    }
}

/// A tree to copy or to move: the disk as it is before, the root of the
/// tree, where the tree goes, and what `~` stands for.
pub struct Plan {
    pub disk: Disk,
    pub root: Seq<Seq<char>>,
    pub to: Seq<Seq<char>>,
    pub home: Option<Seq<Seq<char>>>,
    /// Whether the tree is copied, or moved.
    pub is_copy: bool,
}

/// Whether `k` starts with one of the paths in `queue`.
pub open spec fn under_any(k: Seq<Seq<char>>, queue: Seq<Seq<Seq<char>>>) -> bool {
    exists|i: int| 0 <= i < queue.len() && starts_with(k, #[trigger] queue[i])
}

impl Plan {
    /// Whether something is at `k`, and `k` is in the tree.
    pub open spec fn in_tree(self, k: Seq<Seq<char>>) -> bool {
        self.disk.dom().contains(k) && starts_with(k, self.root)
    }

    /// Whether `m` is the mirror of something in the tree.
    pub open spec fn mirrors(self, m: Seq<Seq<char>>) -> bool {
        starts_with(m, self.to) && self.in_tree(mirror(self.to, self.root, m))
    }

    /// Whether the tree can be copied: the root is a directory; all that
    /// is in the tree has a clean path and lies in a directory; the
    /// destination is an absolute clean path that neither lies in the tree
    /// nor holds it, and the directories down to where it goes are there;
    /// and where the mirror of something in the tree is taken, it is taken
    /// by something of the same kind, a file by a file and a directory by a
    /// directory.
    pub open spec fn sound(self) -> bool {
        &&& self.root.len() > 0
        &&& is_dir(self.disk, self.root)
        &&& normal(self.to)
        &&& !mentions_home(self.to)
        &&& !starts_with(self.to, self.root)
        &&& !starts_with(self.root, self.to)
        &&& dir_above(self.disk, self.to)
        &&& dirs_down_to(self.disk, parent_of(self.to)->0)
        &&& forall|k: Seq<Seq<char>>| #[trigger]
            self.in_tree(k) ==> clean(k) && (k != self.root ==> is_dir(self.disk, k.drop_last()))
        &&& forall|k: Seq<Seq<char>>|
            self.in_tree(k) && #[trigger] self.disk.dom().contains(
                mirror(self.root, self.to, k),
            ) ==> kind_of(self.disk[mirror(self.root, self.to, k)]) == kind_of(self.disk[k])
    }

    /// Whether the destination is free: nothing is at it or under it.
    pub open spec fn fresh(self) -> bool {
        forall|k: Seq<Seq<char>>| #[trigger]
            self.disk.dom().contains(k) ==> !starts_with(k, self.to)
    }

    /// The disk with the tree copied: what is at `k` in the tree is also at
    /// the mirror of `k`, in the place of what was there, and everything
    /// else is as it was.
    pub open spec fn copied(self) -> Disk {
        Map::new(
            |m: Seq<Seq<char>>| self.disk.dom().contains(m) || self.mirrors(m),
            |m: Seq<Seq<char>>|
                if self.mirrors(m) {
                    self.disk[mirror(self.to, self.root, m)]
                } else {
                    self.disk[m]
                },
        )
    }

    /// The disk with the tree moved: what was at `k` in the tree is at the
    /// mirror of `k`, in the place of what was there; the tree is gone; and
    /// everything else is as it was.
    pub open spec fn moved(self) -> Disk {
        Map::new(
            |m: Seq<Seq<char>>|
                (self.disk.dom().contains(m) && !starts_with(m, self.root)) || self.mirrors(m),
            |m: Seq<Seq<char>>|
                if self.mirrors(m) {
                    self.disk[mirror(self.to, self.root, m)]
                } else {
                    self.disk[m]
                },
        )
    }

    /// The disk when the walk is over.
    pub open spec fn finished(self) -> Disk {
        if self.is_copy {
            self.copied()
        } else {
            self.moved()
        }
    }

    /// Whether `k` in the tree is still to be transferred, as far as the
    /// walk `w` has come: it is under a directory that waits its turn, or
    /// it is what is left of the directory whose turn it is.
    pub open spec fn owed(self, w: WalkView, k: Seq<Seq<char>>) -> bool {
        self.in_tree(k) && (under_any(k, w.queue) || match w.phase {
            WalkPhaseView::ListDirs => starts_with(k, w.dir),
            WalkPhaseView::CheckDest | WalkPhaseView::MakeDest => k == w.dir || (parent_of(k)
                == Some(w.dir) && is_file(self.disk, k)),
            WalkPhaseView::ListFiles => parent_of(k) == Some(w.dir) && is_file(self.disk, k),
            WalkPhaseView::Transfer(t) => w.files.contains(k) || k == t.source,
            WalkPhaseView::Recover(t) => w.files.contains(k) || k == t.source,
            _ => false,
        })
    }

    /// Whether the file at `k` has left the tree, as far as the walk `w`
    /// has come: a move takes each file away once it is no longer owed.
    pub open spec fn gone(self, w: WalkView, k: Seq<Seq<char>>) -> bool {
        !self.is_copy && self.in_tree(k) && is_file(self.disk, k) && !self.owed(w, k)
    }

    /// The disk as far as the walk `w` has come: what is in the tree and no
    /// longer owed is at its mirror, and in a move, the files among that
    /// are no longer in the tree.
    pub open spec fn so_far(self, w: WalkView) -> Disk {
        Map::new(
            |m: Seq<Seq<char>>|
                (self.disk.dom().contains(m) && !self.gone(w, m)) || (self.mirrors(m)
                    && !self.owed(w, mirror(self.to, self.root, m))),
            |m: Seq<Seq<char>>|
                if self.mirrors(m) && !self.owed(w, mirror(self.to, self.root, m)) {
                    self.disk[mirror(self.to, self.root, m)]
                } else {
                    self.disk[m]
                },
        )
    }

    /// Whether the directory whose turn it is is a directory of the tree.
    pub open spec fn at_dir(self, w: WalkView) -> bool {
        self.in_tree(w.dir) && is_dir(self.disk, w.dir)
    }

    /// Whether the files that are left are files of the directory whose
    /// turn it is, each named once.
    pub open spec fn files_left(self, w: WalkView) -> bool {
        &&& forall|j: int|
            0 <= j < w.files.len() ==> parent_of(#[trigger] w.files[j]) == Some(w.dir) && is_file(
                self.disk,
                w.files[j],
            )
        &&& forall|i: int, j: int|
            0 <= i < j < w.files.len() ==> #[trigger] w.files[i] != #[trigger] w.files[j]
    }

    /// The disk on which the file in flight has landed and has not left
    /// the tree yet.
    pub open spec fn landed(self, w: WalkView, t: FileTransferView) -> Disk {
        self.so_far(w).insert(t.dest, self.disk[t.source])
    }

    /// Whether the deletion `d` of the file at `p`, which is as it was at
    /// the start, is at the point where it asks `ask` on the disk `disk`,
    /// which but for that file is `base`.
    pub open spec fn unlinking(
        self,
        disk: Disk,
        base: Disk,
        d: DeleteView,
        p: Seq<Seq<char>>,
        ask: Option<RequestView>,
    ) -> bool {
        &&& d.path == p
        &&& d.failure is None
        &&& is_file(self.disk, p)
        &&& match d.phase {
            DeletePhase::Inspect => ask == Some(RequestView::Metadata(p)) && disk == base,
            DeletePhase::Relax => ask == Some(RequestView::SetReadonly(p, false)) && disk == base,
            DeletePhase::Classify => ask == Some(RequestView::IsDir(p)) && disk == base.insert(
                p,
                with_permission(self.disk[p], false),
            ),
            DeletePhase::Remove => ask == Some(RequestView::RemoveFile(p)) && disk == base.insert(
                p,
                with_permission(self.disk[p], false),
            ),
            DeletePhase::Done => false,
        }
    }

    /// Whether the transfer `t` is that of a file of the directory whose
    /// turn it is to its mirror, at the point where it asks `ask` on the
    /// disk `disk`. A transfer that was started again over a mirror that is
    /// taken first makes what is there writable and removes it; a move
    /// renames the file, or copies it and removes it from the tree.
    pub open spec fn in_flight(
        self,
        disk: Disk,
        w: WalkView,
        t: FileTransferView,
        again: bool,
        ask: Option<RequestView>,
    ) -> bool {
        &&& t.is_copy == self.is_copy
        &&& t.failure is None
        &&& parent_of(t.source) == Some(w.dir)
        &&& is_file(self.disk, t.source)
        &&& !w.files.contains(t.source)
        &&& t.dest == mirror(self.root, self.to, t.source)
        &&& match t.phase {
            TransferPhaseView::Probe => !again && ask == Some(RequestView::Exists(t.dest)) && disk
                == self.so_far(w),
            TransferPhaseView::MakeParent => !again && !self.is_copy && ask == Some(
                RequestView::CreateDirAll(w.dir_path),
            ) && disk == self.so_far(w) && !self.disk.dom().contains(t.dest),
            TransferPhaseView::Rename => !self.is_copy && ask == Some(
                RequestView::Rename(t.source, t.dest),
            ) && disk == self.so_far(w).remove(t.dest),
            TransferPhaseView::Copy => ask == Some(RequestView::Copy(t.source, t.dest)) && disk
                == self.so_far(w).remove(t.dest),
            TransferPhaseView::Clear(d) => again && self.unlinking(
                disk,
                self.so_far(w),
                d,
                t.dest,
                ask,
            ),
            TransferPhaseView::Unlink(d) => !self.is_copy && self.unlinking(
                disk,
                self.landed(w, t),
                d,
                t.source,
                ask,
            ),
            _ => false,
        }
    }

    /// Whether everything above the directories that the walk knows of is
    /// done with: what lies above the directory whose turn it is, or above
    /// one that waits its turn, is no longer owed, unless it is the
    /// directory whose turn it is.
    pub open spec fn settled(self, w: WalkView) -> bool {
        forall|q: Seq<Seq<char>>, a: Seq<Seq<char>>|
            (q == w.dir || w.queue.contains(q)) && #[trigger] below(q, a) && starts_with(
                a,
                self.root,
            ) ==> a == w.dir || !self.owed(w, a)
    }

    /// Whether the walk is the one of this plan, and the directories that
    /// wait their turn are directories of the tree of which none lies in
    /// another.
    pub open spec fn framed(self, w: WalkView) -> bool {
        &&& w.root == self.root
        &&& w.to == self.to
        &&& w.home == self.home
        &&& w.is_copy == self.is_copy
        &&& w.failure is None
        &&& forall|i: int|
            0 <= i < w.queue.len() ==> self.in_tree(#[trigger] w.queue[i]) && is_dir(
                self.disk,
                w.queue[i],
            )
        &&& forall|i: int, j: int|
            0 <= i < w.queue.len() && 0 <= j < w.queue.len() && i != j ==> !starts_with(
                #[trigger] w.queue[i],
                #[trigger] w.queue[j],
            )
    }

    /// Whether the directory whose turn it is lies in none that waits its
    /// turn.
    pub open spec fn apart(self, w: WalkView) -> bool {
        forall|i: int| 0 <= i < w.queue.len() ==> !starts_with(w.dir, #[trigger] w.queue[i])
    }

    /// Whether `k` in the tree is still to be copied when the walk `w` is
    /// between two files.
    pub open spec fn owed_at_rest(self, w: WalkView, k: Seq<Seq<char>>) -> bool {
        self.in_tree(k) && (under_any(k, w.queue) || w.files.contains(k))
    }

    /// The disk when the walk `w` is between two files.
    pub open spec fn at_rest(self, w: WalkView) -> Disk {
        Map::new(
            |m: Seq<Seq<char>>|
                (self.disk.dom().contains(m) && !(!self.is_copy && self.in_tree(m) && is_file(
                    self.disk,
                    m,
                ) && !self.owed_at_rest(w, m))) || (self.mirrors(m) && !self.owed_at_rest(
                    w,
                    mirror(self.to, self.root, m),
                )),
            |m: Seq<Seq<char>>|
                if self.mirrors(m) && !self.owed_at_rest(w, mirror(self.to, self.root, m)) {
                    self.disk[mirror(self.to, self.root, m)]
                } else {
                    self.disk[m]
                },
        )
    }

    /// [`settled`](Plan::settled), between two files.
    pub open spec fn settled_at_rest(self, w: WalkView) -> bool {
        forall|q: Seq<Seq<char>>, a: Seq<Seq<char>>|
            (q == w.dir || w.queue.contains(q)) && #[trigger] below(q, a) && starts_with(
                a,
                self.root,
            ) ==> !self.owed_at_rest(w, a)
    }

    /// Whether the walk `w`, between two files on the disk `disk`, is on
    /// its way to the copied tree.
    pub open spec fn resting(self, disk: Disk, w: WalkView) -> bool {
        &&& self.framed(w)
        &&& disk == self.at_rest(w)
        &&& self.at_dir(w)
        &&& self.apart(w)
        &&& self.settled_at_rest(w)
        &&& w.dir_path == mirror(self.root, self.to, w.dir)
        &&& self.files_left(w)
    }

    /// Whether the walk `w`, about to ask `ask` on the disk `disk`, is on
    /// its way to the copied tree.
    pub open spec fn on_course(self, disk: Disk, w: WalkView, ask: Option<RequestView>) -> bool {
        &&& self.framed(w)
        &&& match w.phase {
            WalkPhaseView::ListDirs => {
                &&& disk == self.so_far(w)
                &&& ask == Some(RequestView::ReadDir(w.dir))
                &&& self.at_dir(w)
                &&& self.settled(w)
                &&& self.apart(w)
                &&& forall|i: int|
                    0 <= i < w.queue.len() ==> !starts_with(#[trigger] w.queue[i], w.dir)
                &&& w.files.len() == 0
            },
            WalkPhaseView::CheckDest => {
                &&& disk == self.so_far(w)
                &&& self.apart(w)
                &&& ask == Some(RequestView::IsDir(w.dir_path))
                &&& self.at_dir(w)
                &&& self.settled(w)
                &&& w.dir_path == mirror(self.root, self.to, w.dir)
                &&& w.files.len() == 0
            },
            WalkPhaseView::MakeDest => {
                &&& disk == self.so_far(w)
                &&& self.apart(w)
                &&& ask == Some(RequestView::CreateDirAll(w.dir_path))
                &&& self.at_dir(w)
                &&& self.settled(w)
                &&& w.dir_path == mirror(self.root, self.to, w.dir)
                &&& !self.disk.dom().contains(w.dir_path)
                &&& w.files.len() == 0
            },
            WalkPhaseView::ListFiles => {
                &&& disk == self.so_far(w)
                &&& self.apart(w)
                &&& ask == Some(RequestView::ReadDir(w.dir))
                &&& self.at_dir(w)
                &&& self.settled(w)
                &&& w.dir_path == mirror(self.root, self.to, w.dir)
                &&& w.files.len() == 0
            },
            WalkPhaseView::Transfer(t) => {
                &&& self.apart(w)
                &&& self.at_dir(w)
                &&& self.settled(w)
                &&& w.dir_path == mirror(self.root, self.to, w.dir)
                &&& self.files_left(w)
                &&& self.in_flight(disk, w, t, false, ask)
            },
            WalkPhaseView::Recover(t) => {
                &&& self.apart(w)
                &&& self.at_dir(w)
                &&& self.settled(w)
                &&& w.dir_path == mirror(self.root, self.to, w.dir)
                &&& self.files_left(w)
                &&& self.in_flight(disk, w, t, true, ask)
            },
            WalkPhaseView::Cleanup(d) => {
                &&& !self.is_copy
                &&& w.queue.len() == 0
                &&& d.path == self.root
                &&& d.failure is None
                &&& disk == self.so_far(w)
                &&& match d.phase {
                    DeletePhase::Inspect => ask == Some(RequestView::Metadata(self.root)),
                    DeletePhase::Classify => ask == Some(RequestView::IsDir(self.root)),
                    DeletePhase::Remove => ask == Some(RequestView::RemoveDirAll(self.root)),
                    _ => false,
                }
            },
            WalkPhaseView::Done => disk == self.finished() && ask is None && w.queue.len() == 0,
        }
    }
}

/// All that lies between the root and something in the tree is in the
/// tree, and is a directory unless it is the thing itself.
pub proof fn lemma_way_down(plan: Plan, k: Seq<Seq<char>>, n: int)
    requires
        plan.sound(),
        plan.in_tree(k),
        plan.root.len() <= n <= k.len(),
    ensures
        plan.in_tree(k.take(n)),
        n < k.len() ==> is_dir(plan.disk, k.take(n)),
    decreases k.len() - n,
{
    lemma_take_is_prefix(k, n);
    assert(k.take(n).take(plan.root.len() as int) =~= k.take(plan.root.len() as int));
    if n == k.len() {
        assert(k.take(n) =~= k);
    } else {
        lemma_way_down(plan, k, n + 1);
        let c = k.take(n + 1);
        assert(c.drop_last() =~= k.take(n));
        assert(c != plan.root) by {
            assert(c.len() > plan.root.len());
        }
    }
}

/// The two sides are apart: nothing lies both in the tree and under the
/// destination.
pub proof fn lemma_sides_apart(plan: Plan, k: Seq<Seq<char>>)
    requires
        plan.sound(),
    ensures
        !(starts_with(k, plan.root) && starts_with(k, plan.to)),
{
    if starts_with(k, plan.root) && starts_with(k, plan.to) {
        let (r, t) = (plan.root.len() as int, plan.to.len() as int);
        if r <= t {
            assert(k.take(t).take(r) =~= k.take(r));
            assert(plan.to.take(r) == plan.root);
        } else {
            assert(k.take(r).take(t) =~= k.take(t));
            assert(plan.root.take(t) == plan.to);
        }
    }
}

/// The walk brings nothing into the tree: as far as it has come, what is
/// in the tree was there before and is as it was, and all that was there
/// is there still, but for the files that a move has taken away.
pub proof fn lemma_tree_untouched(plan: Plan, w: WalkView, k: Seq<Seq<char>>)
    requires
        plan.sound(),
        starts_with(k, plan.root),
    ensures
        plan.so_far(w).dom().contains(k) == (plan.disk.dom().contains(k) && !plan.gone(w, k)),
        plan.so_far(w).dom().contains(k) ==> plan.so_far(w)[k] == plan.disk[k],
        !plan.mirrors(k),
{
    lemma_sides_apart(plan, k);
}

/// What lies in a directory of the tree was there before the walk began:
/// nothing that the walk makes lies in the tree.
pub proof fn lemma_child_of_tree(plan: Plan, w: WalkView, dir: Seq<Seq<char>>, k: Seq<Seq<char>>)
    requires
        plan.sound(),
        plan.in_tree(dir),
        plan.so_far(w).dom().contains(k),
        parent_of(k) == Some(dir),
    ensures
        plan.in_tree(k),
        plan.so_far(w)[k] == plan.disk[k],
{
    lemma_parent_is_take(k, dir);
    lemma_starts_with_trans(k, dir, plan.root);
    lemma_tree_untouched(plan, w, k);
}

/// The mirror of a clean path of the tree is a clean absolute path.
pub proof fn lemma_mirror_is_clean(plan: Plan, k: Seq<Seq<char>>)
    requires
        plan.sound(),
        plan.in_tree(k),
    ensures
        normal(mirror(plan.root, plan.to, k)),
        !mentions_home(mirror(plan.root, plan.to, k)),
{
    let m = mirror(plan.root, plan.to, k);
    assert(clean(k));
    assert forall|i: int| 0 <= i < m.len() implies valid_component(#[trigger] m[i]) && (i > 0
        ==> !is_root(m[i])) && !is_cur_dir(m[i]) && !is_parent_dir(m[i]) && !is_home(m[i]) by {
        if i < plan.to.len() {
            assert(m[i] == plan.to[i]);
        } else {
            assert(m[i] == k[i - plan.to.len() + plan.root.len()]);
        }
    }
    assert(m[0] == plan.to[0]);
}

/// A file of the tree is transferred to its mirror: the transfer of the
/// file `f` of the directory `dir` into the mirror of `dir` starts by
/// asking whether anything is at the mirror of `f`.
pub proof fn lemma_start_of_file(plan: Plan, dir: Seq<Seq<char>>, f: Seq<Seq<char>>)
    requires
        plan.sound(),
        plan.in_tree(dir),
        parent_of(f) == Some(dir),
        is_file(plan.disk, f),
    ensures
        plan.in_tree(f),
        parent_of(mirror(plan.root, plan.to, f)) == Some(mirror(plan.root, plan.to, dir)),
        ({
            let (t, ask) = FileTransferView::start_into(
                f,
                mirror(plan.root, plan.to, dir),
                plan.home,
                true,
            );
            &&& ask == Some(RequestView::Exists(mirror(plan.root, plan.to, f)))
            &&& t.phase is Probe
            &&& t.is_copy
            &&& t.failure is None
            &&& t.source == f
            &&& t.dest == mirror(plan.root, plan.to, f)
        }),
{
    let land = mirror(plan.root, plan.to, dir);
    let there = mirror(plan.root, plan.to, f);
    lemma_mirror_child(plan.root, plan.to, dir, f);
    assert(plan.in_tree(f));
    assert(clean(f));
    lemma_parent_is_take(f, dir);
    let name = f.last();
    assert(f[f.len() - 1] == name);
    assert(is_normal(name));
    let raw = crate::path::joined(land, seq![name]);
    assert(seq![name][0] == name);
    assert(raw =~= land.push(name));
    assert(raw == there);
    lemma_mirror_is_clean(plan, f);
    lemma_fixed_idempotent(there, None, plan.home);
}

/// From one file to the next: a walk that is between two files goes on as
/// it should, with the next file of the directory, the next directory, or
/// the end.
pub proof fn lemma_advance(plan: Plan, disk: Disk, w: WalkView)
    requires
        plan.sound(),
        plan.resting(disk, w),
    ensures
        plan.on_course(disk, w.advance().0, w.advance().1),
{
    let (next, ask) = w.advance();
    if w.files.len() > 0 {
        let f = w.files[0];
        lemma_start_of_file(plan, w.dir, f);
        let rest = w.files.skip(1);
        assert forall|k: Seq<Seq<char>>| rest.contains(k) || k == f <==> w.files.contains(k) by {
            if rest.contains(k) {
                let j = choose|j: int| 0 <= j < rest.len() && rest[j] == k;
                assert(w.files[j + 1] == k);
            }
            if w.files.contains(k) && k != f {
                let j = choose|j: int| 0 <= j < w.files.len() && w.files[j] == k;
                assert(rest[j - 1] == k);
            }
        }
        assert forall|k: Seq<Seq<char>>| plan.owed(next, k) == plan.owed_at_rest(w, k) by {}
        assert(plan.so_far(next) =~= plan.at_rest(w));
        assert(plan.files_left(next)) by {
            assert forall|j: int| 0 <= j < rest.len() implies parent_of(#[trigger] rest[j]) == Some(
                w.dir,
            ) && is_file(plan.disk, rest[j]) by {
                assert(rest[j] == w.files[j + 1]);
            }
            assert forall|i: int, j: int| 0 <= i < j < rest.len() implies #[trigger] rest[i]
                != #[trigger] rest[j] by {
                assert(rest[i] == w.files[i + 1]);
                assert(rest[j] == w.files[j + 1]);
            }
        }
        assert(!rest.contains(f)) by {
            if rest.contains(f) {
                let j = choose|j: int| 0 <= j < rest.len() && rest[j] == f;
                assert(w.files[j + 1] == f);
            }
        }
        assert(plan.settled(next));
    } else if w.queue.len() > 0 {
        let q = w.queue[0];
        let rest = w.queue.skip(1);
        assert forall|i: int| 0 <= i < rest.len() implies plan.in_tree(#[trigger] rest[i])
            && is_dir(plan.disk, rest[i]) && !starts_with(q, rest[i]) && !starts_with(
            rest[i],
            q,
        ) by {
            assert(rest[i] == w.queue[i + 1]);
        }
        assert forall|i: int, j: int|
            0 <= i < rest.len() && 0 <= j < rest.len() && i != j implies !starts_with(
            #[trigger] rest[i],
            #[trigger] rest[j],
        ) by {
            assert(rest[i] == w.queue[i + 1]);
            assert(rest[j] == w.queue[j + 1]);
        }
        assert forall|k: Seq<Seq<char>>| under_any(k, rest) || starts_with(k, q) <==> under_any(
            k,
            w.queue,
        ) by {
            if under_any(k, rest) {
                let i = choose|i: int| 0 <= i < rest.len() && starts_with(k, #[trigger] rest[i]);
                assert(rest[i] == w.queue[i + 1]);
            }
            if under_any(k, w.queue) && !starts_with(k, q) {
                let i = choose|i: int|
                    0 <= i < w.queue.len() && starts_with(k, #[trigger] w.queue[i]);
                assert(rest[i - 1] == w.queue[i]);
            }
        }
        assert forall|k: Seq<Seq<char>>| plan.owed(next, k) == plan.owed_at_rest(w, k) by {}
        assert(plan.so_far(next) =~= plan.at_rest(w));
        assert(plan.settled(next)) by {
            assert forall|p: Seq<Seq<char>>, a: Seq<Seq<char>>|
                (p == next.dir || next.queue.contains(p)) && #[trigger] below(p, a)
                    && starts_with(a, plan.root) implies a == next.dir || !plan.owed(next, a) by {
                if next.queue.contains(p) {
                    let i = choose|i: int| 0 <= i < rest.len() && rest[i] == p;
                    assert(w.queue[i + 1] == p);
                }
                assert(w.queue.contains(p));
            }
        }
    } else {
        assert forall|k: Seq<Seq<char>>| !plan.owed(next, k) && !plan.owed_at_rest(w, k) by {}
        assert(plan.so_far(next) =~= plan.at_rest(w));
        if plan.is_copy {
            assert(plan.copied() =~= plan.at_rest(w));
        }
    }
}

/// The listing of a directory of the tree, as the walk sees it, is the
/// listing of what was in the directory before the walk began.
pub proof fn lemma_listing_of_tree(
    plan: Plan,
    w: WalkView,
    entries: Seq<DirEntryView>,
    want: EntryKind,
)
    requires
        plan.sound(),
        plan.at_dir(w),
        lists(plan.so_far(w), w.dir, entries),
        want != EntryKind::Other,
        forall|k: Seq<Seq<char>>|
            plan.in_tree(k) && parent_of(k) == Some(w.dir) && is_file(plan.disk, k)
                ==> #[trigger] plan.owed(w, k),
    ensures
        forall|j: int|
            0 <= j < listed(entries, Some(want)).len() ==> {
                let k = #[trigger] listed(entries, Some(want))[j];
                &&& plan.in_tree(k)
                &&& parent_of(k) == Some(w.dir)
                &&& kind_of(plan.disk[k]) == want
            },
        forall|k: Seq<Seq<char>>|
            plan.in_tree(k) && parent_of(k) == Some(w.dir) && kind_of(plan.disk[k])
                == want ==> #[trigger] listed(entries, Some(want)).contains(k),
        forall|i: int, j: int|
            0 <= i < j < listed(entries, Some(want)).len() ==> #[trigger] listed(
                entries,
                Some(want),
            )[i] != #[trigger] listed(entries, Some(want))[j],
{
    let disk = plan.so_far(w);
    let out = listed(entries, Some(want));
    lemma_listed(entries, want);
    assert forall|j: int| 0 <= j < out.len() implies ({
        let k = #[trigger] out[j];
        &&& plan.in_tree(k)
        &&& parent_of(k) == Some(w.dir)
        &&& kind_of(plan.disk[k]) == want
    }) by {
        let i = choose|i: int|
            0 <= i < entries.len() && entries[i].kind == want && #[trigger] entries[i].path
                == out[j];
        lemma_child_of_tree(plan, w, w.dir, out[j]);
    }
    assert forall|k: Seq<Seq<char>>|
        plan.in_tree(k) && parent_of(k) == Some(w.dir) && kind_of(plan.disk[k])
            == want implies #[trigger] out.contains(k) by {
        lemma_tree_untouched(plan, w, k);
        assert(disk.dom().contains(k));
        let i = choose|i: int| 0 <= i < entries.len() && #[trigger] entries[i].path == k;
    }
}

/// The walk goes on as it should when it is told what is in the directory
/// whose turn it is: the directories in it wait their turn from then on.
pub proof fn lemma_step_list_dirs(
    plan: Plan,
    disk: Disk,
    w: WalkView,
    request: RequestView,
    reply: ReplyView,
    after: Disk,
)
    requires
        plan.sound(),
        w.phase is ListDirs,
        plan.on_course(disk, w, Some(request)),
        faithful(disk, request, reply, after),
    ensures
        plan.on_course(after, w.next(reply).0, w.next(reply).1),
{
    let (next, ask) = w.next(reply);
    let entries = reply->Entries_0;
    let found = listed(entries, Some(EntryKind::Directory));
    lemma_tree_untouched(plan, w, w.dir);
    assert forall|k: Seq<Seq<char>>|
        plan.in_tree(k) && parent_of(k) == Some(w.dir) && is_file(plan.disk, k) implies #[trigger] plan.owed(
        w,
        k,
    ) by {
        lemma_parent_is_take(k, w.dir);
    }
    lemma_listing_of_tree(plan, w, entries, EntryKind::Directory);
    crate::lemma_rebase_within(w.dir, plan.root, plan.to);
    assert(next.queue == w.queue + found);
    assert forall|i: int| 0 <= i < next.queue.len() implies plan.in_tree(#[trigger] next.queue[i])
        && is_dir(plan.disk, next.queue[i]) && !starts_with(w.dir, next.queue[i]) by {
        if i >= w.queue.len() {
            let c = found[i - w.queue.len()];
            assert(next.queue[i] == c);
            lemma_parent_is_take(c, w.dir);
        } else {
            assert(next.queue[i] == w.queue[i]);
        }
    }
    assert forall|i: int, j: int|
        0 <= i < next.queue.len() && 0 <= j < next.queue.len() && i != j implies !starts_with(
        #[trigger] next.queue[i],
        #[trigger] next.queue[j],
    ) by {
        let (a, b) = (next.queue[i], next.queue[j]);
        if i < w.queue.len() && j < w.queue.len() {
            assert(a == w.queue[i] && b == w.queue[j]);
        } else if i >= w.queue.len() && j >= w.queue.len() {
            assert(a == found[i - w.queue.len()] && b == found[j - w.queue.len()]);
            lemma_parent_is_take(a, w.dir);
            lemma_parent_is_take(b, w.dir);
            if starts_with(a, b) {
                assert(a.take(b.len() as int) =~= a);
            }
        } else if i < w.queue.len() {
            assert(a == w.queue[i] && b == found[j - w.queue.len()]);
            lemma_parent_is_take(b, w.dir);
            if starts_with(a, b) {
                lemma_starts_with_trans(a, b, w.dir);
            }
        } else {
            assert(b == w.queue[j] && a == found[i - w.queue.len()]);
            lemma_parent_is_take(a, w.dir);
            if starts_with(a, b) {
                if b.len() <= w.dir.len() {
                    assert(w.dir.take(b.len() as int) =~= a.take(b.len() as int));
                } else {
                    assert(a.take(b.len() as int) =~= a);
                    assert(starts_with(b, w.dir));
                }
            }
        }
    }
    assert(w.dir.take(w.dir.len() as int) =~= w.dir);
    assert forall|k: Seq<Seq<char>>| plan.owed(next, k) implies plan.owed(w, k) by {
        if under_any(k, next.queue) {
            let i = choose|i: int|
                0 <= i < next.queue.len() && starts_with(k, #[trigger] next.queue[i]);
            if i >= w.queue.len() {
                let c = found[i - w.queue.len()];
                assert(next.queue[i] == c);
                lemma_parent_is_take(c, w.dir);
                lemma_starts_with_trans(k, c, w.dir);
            } else {
                assert(next.queue[i] == w.queue[i]);
            }
        } else if k != w.dir {
            lemma_parent_is_take(k, w.dir);
        }
    }
    assert forall|k: Seq<Seq<char>>| plan.owed(w, k) implies plan.owed(next, k) by {
        if under_any(k, w.queue) {
            let i = choose|i: int| 0 <= i < w.queue.len() && starts_with(k, #[trigger] w.queue[i]);
            assert(next.queue[i] == w.queue[i]);
        } else if k != w.dir {
            assert(k.len() > w.dir.len()) by {
                if k.len() == w.dir.len() {
                    assert(k.take(w.dir.len() as int) =~= k);
                }
            }
            lemma_child_on_the_way(k, w.dir);
            let c = k.take(w.dir.len() as int + 1);
            lemma_way_down(plan, k, w.dir.len() as int + 1);
            if c.len() == k.len() {
                assert(c =~= k);
            }
            if is_dir(plan.disk, c) {
                assert(kind_of(plan.disk[c]) == EntryKind::Directory);
                assert(found.contains(c));
                let j = choose|j: int| 0 <= j < found.len() && found[j] == c;
                assert(next.queue[w.queue.len() + j] == c);
                assert(under_any(k, next.queue));
            } else {
                assert(c == k);
                assert(is_file(plan.disk, k));
            }
        }
    }
    assert forall|k: Seq<Seq<char>>| plan.owed(next, k) == plan.owed(w, k) by {}
    assert(plan.so_far(next) =~= plan.so_far(w));
    assert(plan.settled(next)) by {
        assert forall|p: Seq<Seq<char>>, a: Seq<Seq<char>>|
            (p == next.dir || next.queue.contains(p)) && #[trigger] below(p, a) && starts_with(
                a,
                plan.root,
            ) implies a == next.dir || !plan.owed(next, a) by {
            if p != w.dir && !w.queue.contains(p) {
                let i = choose|i: int| 0 <= i < next.queue.len() && next.queue[i] == p;
                if i < w.queue.len() {
                    assert(w.queue[i] == p);
                }
                let c = found[i - w.queue.len()];
                assert(c == p);
                lemma_parent_is_take(p, w.dir);
                if a != w.dir {
                    assert(w.dir.take(a.len() as int) =~= p.take(a.len() as int));
                    assert(a.len() < w.dir.len()) by {
                        if a.len() == w.dir.len() {
                            assert(w.dir.take(a.len() as int) =~= w.dir);
                        }
                    }
                    assert(below(w.dir, a));
                }
            }
        }
    }
}

/// The walk goes on as it should when it is told whether the directory
/// whose turn it is exists at the destination: one that is there is used
/// as it is, and one that is not is created.
pub proof fn lemma_step_check_dest(
    plan: Plan,
    disk: Disk,
    w: WalkView,
    request: RequestView,
    reply: ReplyView,
    after: Disk,
)
    requires
        plan.sound(),
        w.phase is CheckDest,
        plan.on_course(disk, w, Some(request)),
        faithful(disk, request, reply, after),
    ensures
        plan.on_course(after, w.next(reply).0, w.next(reply).1),
{
    let (next, ask) = w.next(reply);
    let land = w.dir_path;
    lemma_mirror_back(plan.root, plan.to, w.dir);
    assert(plan.owed(w, w.dir));
    assert(disk.dom().contains(land) == plan.disk.dom().contains(land));
    if is_dir(disk, land) {
        assert forall|k: Seq<Seq<char>>| plan.owed(next, k) == (plan.owed(w, k) && k != w.dir) by {
            if k == w.dir {
                assert(!under_any(k, w.queue));
                if parent_of(k) == Some(w.dir) {
                    lemma_parent_is_take(k, w.dir);
                }
            }
        }
        assert(plan.so_far(next) =~= plan.so_far(w)) by {
            assert forall|m: Seq<Seq<char>>| #[trigger]
                plan.so_far(next).dom().contains(m) == plan.so_far(w).dom().contains(m)
                && (plan.so_far(next).dom().contains(m) ==> plan.so_far(next)[m] == plan.so_far(
                w,
            )[m]) by {
                if plan.mirrors(m) && mirror(plan.to, plan.root, m) == w.dir {
                    lemma_mirror_unique(plan.root, plan.to, w.dir, m);
                }
            }
        }
        assert(plan.settled(next));
    } else {
        assert(!plan.disk.dom().contains(land)) by {
            if plan.disk.dom().contains(land) {
                assert(kind_of(plan.disk[land]) == kind_of(plan.disk[w.dir]));
            }
        }
        assert forall|k: Seq<Seq<char>>| plan.owed(next, k) == plan.owed(w, k) by {}
        assert(plan.so_far(next) =~= plan.so_far(w));
    }
}

/// The walk goes on as it should when the directory whose turn it is was
/// created at the destination: that and nothing else was created.
pub proof fn lemma_step_make_dest(
    plan: Plan,
    disk: Disk,
    w: WalkView,
    request: RequestView,
    reply: ReplyView,
    after: Disk,
)
    requires
        plan.sound(),
        w.phase is MakeDest,
        plan.on_course(disk, w, Some(request)),
        faithful(disk, request, reply, after),
    ensures
        plan.on_course(after, w.next(reply).0, w.next(reply).1),
{
    let (next, ask) = w.next(reply);
    let land = w.dir_path;
    let up = parent_of(plan.to)->0;
    lemma_mirror_back(plan.root, plan.to, w.dir);
    assert(plan.to.drop_last() =~= plan.to.take(plan.to.len() - 1));
    assert(land.take(land.len() as int) =~= land);
    assert(plan.owed(w, w.dir));
    assert(!disk.dom().contains(land));
    // Whatever stands above the place where the directory lands is a
    // directory that is there.
    assert forall|n: int| 0 < n < land.len() implies is_dir(disk, #[trigger] land.take(n)) by {
        let k = land.take(n);
        if n < plan.to.len() {
            assert(k =~= up.take(n));
            assert(is_dir(plan.disk, up.take(n)));
            lemma_take_is_prefix(plan.to, n);
            if plan.mirrors(k) {
                assert(k.take(plan.to.len() as int) == plan.to);
            }
        } else {
            let a = w.dir.take(plan.root.len() + n - plan.to.len());
            lemma_way_down(plan, w.dir, plan.root.len() + n - plan.to.len());
            lemma_take_is_prefix(w.dir, plan.root.len() + n - plan.to.len());
            assert(a.take(plan.root.len() as int) =~= w.dir.take(plan.root.len() as int));
            assert(starts_with(a, plan.root));
            assert(k =~= mirror(plan.root, plan.to, a));
            lemma_mirror_back(plan.root, plan.to, a);
            assert(below(w.dir, a));
            assert(!plan.owed(w, a));
            assert(plan.mirrors(k));
            assert(disk[k] == plan.disk[a]);
        }
    }
    assert(crate::disk::can_hold_dirs(disk, land));
    assert(reply == ReplyView::Done);
    assert(after == with_dirs(disk, land));
    assert forall|k: Seq<Seq<char>>| plan.owed(next, k) == (plan.owed(w, k) && k != w.dir) by {
        if k == w.dir {
            assert(!under_any(k, w.queue));
            if parent_of(k) == Some(w.dir) {
                lemma_parent_is_take(k, w.dir);
            }
        }
    }
    assert forall|m: Seq<Seq<char>>| 0 < m.len() && starts_with(land, m) && m != land implies disk.dom().contains(
        m,
    ) by {
        assert(m == land.take(m.len() as int));
        assert(m.len() < land.len()) by {
            if m.len() == land.len() {
                assert(land.take(m.len() as int) =~= land);
            }
        }
    }
    assert(plan.so_far(next) =~= after) by {
        assert forall|m: Seq<Seq<char>>| #[trigger]
            plan.so_far(next).dom().contains(m) == after.dom().contains(m) && (plan.so_far(
            next,
        ).dom().contains(m) ==> plan.so_far(next)[m] == after[m]) by {
            if plan.mirrors(m) && mirror(plan.to, plan.root, m) == w.dir {
                lemma_mirror_unique(plan.root, plan.to, w.dir, m);
            }
        }
    }
    assert(plan.settled(next));
}

/// The walk goes on as it should when it is told what is in the directory
/// whose turn it is, for the second time: the files in it are transferred
/// from then on.
pub proof fn lemma_step_list_files(
    plan: Plan,
    disk: Disk,
    w: WalkView,
    request: RequestView,
    reply: ReplyView,
    after: Disk,
)
    requires
        plan.sound(),
        w.phase is ListFiles,
        plan.on_course(disk, w, Some(request)),
        faithful(disk, request, reply, after),
    ensures
        plan.on_course(after, w.next(reply).0, w.next(reply).1),
{
    let entries = reply->Entries_0;
    let found = listed(entries, Some(EntryKind::File));
    lemma_tree_untouched(plan, w, w.dir);
    lemma_listing_of_tree(plan, w, entries, EntryKind::File);
    let told = WalkView { files: found, ..w };
    assert forall|k: Seq<Seq<char>>| plan.owed_at_rest(told, k) == plan.owed(w, k) by {
        if found.contains(k) {
            let j = choose|j: int| 0 <= j < found.len() && found[j] == k;
        }
        if plan.in_tree(k) && parent_of(k) == Some(w.dir) && is_file(plan.disk, k) {
            assert(kind_of(plan.disk[k]) == EntryKind::File);
            assert(found.contains(k));
        }
    }
    assert(plan.at_rest(told) =~= plan.so_far(w));
    assert(plan.settled_at_rest(told)) by {
        assert forall|q: Seq<Seq<char>>, a: Seq<Seq<char>>|
            (q == told.dir || told.queue.contains(q)) && #[trigger] below(q, a) && starts_with(
                a,
                plan.root,
            ) implies !plan.owed_at_rest(told, a) by {
            if a == w.dir {
                assert(!under_any(a, w.queue));
                if parent_of(a) == Some(w.dir) {
                    lemma_parent_is_take(a, w.dir);
                }
            }
        }
    }
    lemma_advance(plan, disk, told);
}

/// What is known of the file in flight and of its mirror, whatever the
/// transfer is about to ask: the file is in the tree and owed, nothing lies
/// under it, its mirror lies in the directory that the walk has made or
/// found at the destination, and neither is the other.
pub proof fn lemma_in_flight(plan: Plan, w: WalkView, t: FileTransferView)
    requires
        plan.sound(),
        plan.framed(w),
        plan.at_dir(w),
        plan.apart(w),
        plan.settled(w),
        plan.files_left(w),
        w.dir_path == mirror(plan.root, plan.to, w.dir),
        w.phase == WalkPhaseView::Transfer(t) || w.phase == WalkPhaseView::Recover(t),
        parent_of(t.source) == Some(w.dir),
        is_file(plan.disk, t.source),
        t.dest == mirror(plan.root, plan.to, t.source),
    ensures
        plan.in_tree(t.source),
        plan.owed(w, t.source),
        !plan.owed(w, w.dir),
        !starts_with(t.source, plan.to),
        !starts_with(t.dest, plan.root),
        plan.mirrors(t.dest),
        mirror(plan.to, plan.root, t.dest) == t.source,
        plan.mirrors(w.dir_path),
        mirror(plan.to, plan.root, w.dir_path) == w.dir,
        parent_of(t.dest) == Some(w.dir_path),
        w.dir_path != t.dest,
        plan.so_far(w).dom().contains(t.source),
        plan.so_far(w)[t.source] == plan.disk[t.source],
        plan.so_far(w).dom().contains(t.dest) == plan.disk.dom().contains(t.dest),
        plan.disk.dom().contains(t.dest) ==> plan.so_far(w)[t.dest] == plan.disk[t.dest]
            && is_file(plan.disk, t.dest),
        is_dir(plan.so_far(w), w.dir_path),
        crate::disk::nothing_under(plan.so_far(w), t.source),
        forall|n: int| 0 < n <= w.dir_path.len() ==> is_dir(plan.so_far(w), #[trigger] w.dir_path.take(n)),
{
    let f = t.source;
    let land = w.dir_path;
    lemma_start_of_file(plan, w.dir, f);
    lemma_mirror_back(plan.root, plan.to, f);
    lemma_mirror_back(plan.root, plan.to, w.dir);
    lemma_parent_is_take(f, w.dir);
    lemma_tree_untouched(plan, w, f);
    lemma_sides_apart(plan, f);
    lemma_sides_apart(plan, t.dest);
    lemma_sides_apart(plan, land);
    assert forall|j: int| 0 <= j < w.files.len() implies #[trigger] w.files[j] != w.dir by {
        lemma_parent_is_take(w.files[j], w.dir);
    }
    assert(!under_any(w.dir, w.queue));
    assert(!plan.owed(w, w.dir));
    if plan.disk.dom().contains(t.dest) {
        assert(kind_of(plan.disk[t.dest]) == kind_of(plan.disk[f]));
    }
    assert forall|k: Seq<Seq<char>>| #[trigger]
        plan.so_far(w).dom().contains(k) && starts_with(k, f) implies k == f by {
        lemma_starts_with_trans(k, f, plan.root);
        lemma_tree_untouched(plan, w, k);
        if k.len() > f.len() {
            lemma_way_down(plan, k, f.len() as int);
        } else {
            assert(k.take(f.len() as int) =~= k);
        }
    }
    lemma_way_to_land(plan, w);
    assert(land.take(land.len() as int) =~= land);
}

/// Whatever stands above the place where the directory whose turn it is
/// lands is a directory that is there.
pub proof fn lemma_way_to_land(plan: Plan, w: WalkView)
    requires
        plan.sound(),
        plan.at_dir(w),
        plan.settled(w),
    ensures
        forall|n: int|
            0 < n < mirror(plan.root, plan.to, w.dir).len() ==> is_dir(
                plan.so_far(w),
                #[trigger] mirror(plan.root, plan.to, w.dir).take(n),
            ),
{
    let land = mirror(plan.root, plan.to, w.dir);
    let up = parent_of(plan.to)->0;
    let disk = plan.so_far(w);
    lemma_mirror_back(plan.root, plan.to, w.dir);
    assert(plan.to.drop_last() =~= plan.to.take(plan.to.len() - 1));
    assert forall|n: int| 0 < n < land.len() implies is_dir(disk, #[trigger] land.take(n)) by {
        let k = land.take(n);
        if n < plan.to.len() {
            assert(k =~= up.take(n));
            assert(is_dir(plan.disk, up.take(n)));
            lemma_take_is_prefix(plan.to, n);
            if plan.mirrors(k) {
                assert(k.take(plan.to.len() as int) == plan.to);
            }
        } else {
            let a = w.dir.take(plan.root.len() + n - plan.to.len());
            lemma_way_down(plan, w.dir, plan.root.len() + n - plan.to.len());
            lemma_take_is_prefix(w.dir, plan.root.len() + n - plan.to.len());
            assert(a.take(plan.root.len() as int) =~= w.dir.take(plan.root.len() as int));
            assert(starts_with(a, plan.root));
            assert(k =~= mirror(plan.root, plan.to, a));
            lemma_mirror_back(plan.root, plan.to, a);
            assert(below(w.dir, a));
            assert(!plan.owed(w, a));
            assert(plan.mirrors(k));
            assert(disk[k] == plan.disk[a]);
        }
    }
}

/// The walk goes on as it should once the file in flight has arrived: the
/// mirror of the file holds what the file held, in a move the file has left
/// the tree, and the next file is taken up.
pub proof fn lemma_next_file(
    plan: Plan,
    w: WalkView,
    t: FileTransferView,
    again: bool,
    ask: Option<RequestView>,
    disk: Disk,
    after: Disk,
)
    requires
        plan.sound(),
        plan.on_course(disk, w, ask),
        w.phase == (if again {
            WalkPhaseView::Recover(t)
        } else {
            WalkPhaseView::Transfer(t)
        }),
        after == (if plan.is_copy {
            plan.landed(w, t)
        } else {
            plan.landed(w, t).remove(t.source)
        }),
    ensures
        plan.on_course(after, w.advance().0, w.advance().1),
{
    let f = t.source;
    lemma_in_flight(plan, w, t);
    assert(!under_any(f, w.queue)) by {
        if under_any(f, w.queue) {
            let i = choose|i: int| 0 <= i < w.queue.len() && starts_with(f, #[trigger] w.queue[i]);
            let q = w.queue[i];
            lemma_parent_is_take(f, w.dir);
            if q.len() <= w.dir.len() {
                assert(w.dir.take(q.len() as int) =~= f.take(q.len() as int));
            } else {
                assert(f.take(q.len() as int) =~= f);
            }
        }
    }
    assert forall|k: Seq<Seq<char>>| plan.owed_at_rest(w, k) == (plan.owed(w, k) && k != f) by {}
    assert(!plan.owed_at_rest(w, f));
    assert(plan.at_rest(w) =~= after) by {
        assert forall|m: Seq<Seq<char>>| #[trigger]
            plan.at_rest(w).dom().contains(m) == after.dom().contains(m) && (plan.at_rest(
            w,
        ).dom().contains(m) ==> plan.at_rest(w)[m] == after[m]) by {
            if plan.mirrors(m) && mirror(plan.to, plan.root, m) == f {
                lemma_mirror_unique(plan.root, plan.to, f, m);
            }
        }
    }
    assert(plan.settled_at_rest(w)) by {
        assert forall|q: Seq<Seq<char>>, a: Seq<Seq<char>>|
            (q == w.dir || w.queue.contains(q)) && #[trigger] below(q, a) && starts_with(
                a,
                plan.root,
            ) implies !plan.owed_at_rest(w, a) by {
            if a == w.dir {
                assert(!plan.owed(w, w.dir));
            }
        }
    }
    lemma_advance(plan, after, w);
}

/// The walk goes on as it should when it is told whether anything is at
/// the mirror of the file that it transfers: to a free mirror the file is
/// copied or moved, and over one that is taken the transfer is started
/// again.
pub proof fn lemma_step_probe(
    plan: Plan,
    disk: Disk,
    w: WalkView,
    request: RequestView,
    reply: ReplyView,
    after: Disk,
)
    requires
        plan.sound(),
        w.phase matches WalkPhaseView::Transfer(t) && t.phase is Probe,
        plan.on_course(disk, w, Some(request)),
        faithful(disk, request, reply, after),
    ensures
        plan.on_course(after, w.next(reply).0, w.next(reply).1),
{
    let (next, ask) = w.next(reply);
    let t = w.phase->Transfer_0;
    lemma_in_flight(plan, w, t);
    assert forall|k: Seq<Seq<char>>| plan.owed(next, k) == plan.owed(w, k) by {}
    assert(plan.so_far(next) =~= plan.so_far(w));
    if !plan.disk.dom().contains(t.dest) {
        assert(plan.so_far(w).remove(t.dest) =~= plan.so_far(w));
    }
}

/// The walk goes on as it should when, in a move, the directory that the
/// file goes to was seen to: it is there already, so that nothing changes.
pub proof fn lemma_step_make_parent(
    plan: Plan,
    disk: Disk,
    w: WalkView,
    request: RequestView,
    reply: ReplyView,
    after: Disk,
)
    requires
        plan.sound(),
        w.phase matches WalkPhaseView::Transfer(t) && t.phase is MakeParent,
        plan.on_course(disk, w, Some(request)),
        faithful(disk, request, reply, after),
    ensures
        plan.on_course(after, w.next(reply).0, w.next(reply).1),
{
    let (next, ask) = w.next(reply);
    let t = w.phase->Transfer_0;
    let land = w.dir_path;
    lemma_in_flight(plan, w, t);
    lemma_mirror_is_clean(plan, t.source);
    assert(crate::disk::can_hold_dirs(disk, land));
    assert(after =~= disk) by {
        assert forall|m: Seq<Seq<char>>| 0 < m.len() && starts_with(land, m) implies disk.dom().contains(
            m,
        ) by {
            assert(m == land.take(m.len() as int));
        }
    }
    assert forall|k: Seq<Seq<char>>| plan.owed(next, k) == plan.owed(w, k) by {}
    assert(plan.so_far(next) =~= plan.so_far(w));
    assert(plan.so_far(w).remove(t.dest) =~= plan.so_far(w));
}

/// The walk goes on as it should when, in a move, the file was renamed or
/// could not be: a file that was renamed has arrived, and one that was not
/// is copied.
pub proof fn lemma_step_rename(
    plan: Plan,
    disk: Disk,
    w: WalkView,
    t: FileTransferView,
    request: RequestView,
    reply: ReplyView,
    after: Disk,
)
    requires
        plan.sound(),
        w.phase == WalkPhaseView::Transfer(t) || w.phase == WalkPhaseView::Recover(t),
        t.phase is Rename,
        plan.on_course(disk, w, Some(request)),
        faithful(disk, request, reply, after),
    ensures
        plan.on_course(after, w.next(reply).0, w.next(reply).1),
{
    let (next, ask) = w.next(reply);
    lemma_in_flight(plan, w, t);
    if reply is Failed {
        assert forall|k: Seq<Seq<char>>| plan.owed(next, k) == plan.owed(w, k) by {}
        assert(plan.so_far(next) =~= plan.so_far(w));
    } else {
        if starts_with(t.dest, t.source) {
            lemma_starts_with_trans(t.dest, t.source, plan.root);
        }
        assert(crate::disk::nothing_under(disk, t.source));
        crate::disk::lemma_file_moved(disk, t.source, t.dest);
        assert(after =~= plan.landed(w, t).remove(t.source));
        assert(w.next(reply) == w.advance());
        lemma_next_file(plan, w, t, w.phase is Recover, Some(request), disk, after);
    }
}

/// The walk goes on as it should while it removes a file: the file is made
/// writable where it is not, and removed. That is how the mirror of a file
/// is cleared before the file is transferred again, and how a file leaves
/// the tree after it was copied in a move.
pub proof fn lemma_step_unlink(
    plan: Plan,
    disk: Disk,
    w: WalkView,
    t: FileTransferView,
    request: RequestView,
    reply: ReplyView,
    after: Disk,
)
    requires
        plan.sound(),
        w.phase == WalkPhaseView::Transfer(t) || w.phase == WalkPhaseView::Recover(t),
        t.phase is Clear || t.phase is Unlink,
        plan.on_course(disk, w, Some(request)),
        faithful(disk, request, reply, after),
    ensures
        plan.on_course(after, w.next(reply).0, w.next(reply).1),
{
    let (next, ask) = w.next(reply);
    lemma_in_flight(plan, w, t);
    let clearing = t.phase is Clear;
    let d = if clearing {
        t.phase->Clear_0
    } else {
        t.phase->Unlink_0
    };
    if clearing || d.phase != DeletePhase::Remove {
        assert forall|k: Seq<Seq<char>>| plan.owed(next, k) == plan.owed(w, k) by {}
        assert(plan.so_far(next) =~= plan.so_far(w));
    }
    let p = d.path;
    let base = if clearing {
        plan.so_far(w)
    } else {
        plan.landed(w, t)
    };
    assert(base.dom().contains(p) && base[p] == plan.disk[p]);
    let open = base.insert(p, with_permission(plan.disk[p], false));
    match d.phase {
        DeletePhase::Inspect => {
            if !plan.disk[p]->readonly {
                assert(open =~= base);
            }
        },
        DeletePhase::Relax => {},
        DeletePhase::Classify => {},
        DeletePhase::Remove => {
            assert(after =~= base.remove(p));
            if !clearing {
                assert(w.next(reply) == w.advance());
                lemma_next_file(plan, w, t, w.phase is Recover, Some(request), disk, after);
            }
        },
        DeletePhase::Done => {},
    }
}

/// The walk goes on as it should when the file that it transfers was
/// copied: in a copy the file has arrived, and in a move it is removed from
/// the tree next.
pub proof fn lemma_step_copy(
    plan: Plan,
    disk: Disk,
    w: WalkView,
    t: FileTransferView,
    request: RequestView,
    reply: ReplyView,
    after: Disk,
)
    requires
        plan.sound(),
        w.phase == WalkPhaseView::Transfer(t) || w.phase == WalkPhaseView::Recover(t),
        t.phase is Copy,
        plan.on_course(disk, w, Some(request)),
        faithful(disk, request, reply, after),
    ensures
        plan.on_course(after, w.next(reply).0, w.next(reply).1),
{
    let (next, ask) = w.next(reply);
    lemma_in_flight(plan, w, t);
    assert(dir_above(disk, t.dest));
    assert(is_file(disk, t.source));
    assert(reply == ReplyView::Done);
    assert(after =~= plan.landed(w, t));
    if plan.is_copy {
        assert(w.next(reply) == w.advance());
        lemma_next_file(plan, w, t, w.phase is Recover, Some(request), disk, after);
    } else {
        assert forall|k: Seq<Seq<char>>| plan.owed(next, k) == plan.owed(w, k) by {}
        assert(plan.so_far(next) =~= plan.so_far(w));
    }
}

/// The walk goes on as it should while, at the end of a move, it removes
/// what is left of the tree: the directories, with nothing in them.
pub proof fn lemma_step_cleanup(
    plan: Plan,
    disk: Disk,
    w: WalkView,
    request: RequestView,
    reply: ReplyView,
    after: Disk,
)
    requires
        plan.sound(),
        w.phase is Cleanup,
        plan.on_course(disk, w, Some(request)),
        faithful(disk, request, reply, after),
    ensures
        plan.on_course(after, w.next(reply).0, w.next(reply).1),
{
    let (next, ask) = w.next(reply);
    let d = w.phase->Cleanup_0;
    assert(plan.root.take(plan.root.len() as int) =~= plan.root);
    lemma_tree_untouched(plan, w, plan.root);
    assert forall|k: Seq<Seq<char>>| !plan.owed(next, k) && !plan.owed(w, k) by {}
    assert(plan.so_far(next) =~= plan.so_far(w));
    if d.phase == DeletePhase::Remove {
        assert(after =~= plan.moved()) by {
            assert forall|m: Seq<Seq<char>>| #[trigger]
                after.dom().contains(m) == plan.moved().dom().contains(m) && (after.dom().contains(
                m,
            ) ==> after[m] == plan.moved()[m]) by {
                lemma_sides_apart(plan, m);
                if plan.disk.dom().contains(m) && starts_with(m, plan.root) {
                    lemma_tree_untouched(plan, w, m);
                }
            }
        }
    }
}

/// Every step of the walk keeps it on course.
pub proof fn lemma_step(
    plan: Plan,
    disk: Disk,
    w: WalkView,
    request: RequestView,
    reply: ReplyView,
    after: Disk,
)
    requires
        plan.sound(),
        plan.on_course(disk, w, Some(request)),
        faithful(disk, request, reply, after),
    ensures
        plan.on_course(after, w.next(reply).0, w.next(reply).1),
{
    match w.phase {
        WalkPhaseView::ListDirs => lemma_step_list_dirs(plan, disk, w, request, reply, after),
        WalkPhaseView::CheckDest => lemma_step_check_dest(plan, disk, w, request, reply, after),
        WalkPhaseView::MakeDest => lemma_step_make_dest(plan, disk, w, request, reply, after),
        WalkPhaseView::ListFiles => lemma_step_list_files(plan, disk, w, request, reply, after),
        WalkPhaseView::Transfer(t) => match t.phase {
            TransferPhaseView::Probe => lemma_step_probe(plan, disk, w, request, reply, after),
            TransferPhaseView::MakeParent => lemma_step_make_parent(
                plan,
                disk,
                w,
                request,
                reply,
                after,
            ),
            TransferPhaseView::Rename => lemma_step_rename(plan, disk, w, t, request, reply, after),
            TransferPhaseView::Copy => lemma_step_copy(plan, disk, w, t, request, reply, after),
            _ => lemma_step_unlink(plan, disk, w, t, request, reply, after),
        },
        WalkPhaseView::Recover(t) => match t.phase {
            TransferPhaseView::Rename => lemma_step_rename(plan, disk, w, t, request, reply, after),
            TransferPhaseView::Copy => lemma_step_copy(plan, disk, w, t, request, reply, after),
            _ => lemma_step_unlink(plan, disk, w, t, request, reply, after),
        },
        WalkPhaseView::Cleanup(d) => lemma_step_cleanup(plan, disk, w, request, reply, after),
        WalkPhaseView::Done => {},
    }
}

/// The walk starts on course.
pub proof fn lemma_start_on_course(plan: Plan)
    requires
        plan.sound(),
    ensures
        plan.on_course(
            plan.disk,
            WalkView::start(plan.root, plan.to, plan.home, plan.is_copy).0,
            WalkView::start(plan.root, plan.to, plan.home, plan.is_copy).1,
        ),
{
    let (w, ask) = WalkView::start(plan.root, plan.to, plan.home, plan.is_copy);
    assert(plan.root.take(plan.root.len() as int) =~= plan.root);
    assert forall|k: Seq<Seq<char>>| plan.in_tree(k) implies plan.owed(w, k) by {}
    assert(plan.so_far(w) =~= plan.disk);
    assert(plan.settled(w)) by {
        assert forall|q: Seq<Seq<char>>, a: Seq<Seq<char>>|
            (q == w.dir || w.queue.contains(q)) && #[trigger] below(q, a) && starts_with(
                a,
                plan.root,
            ) implies a == w.dir || !plan.owed(w, a) by {
            assert(a.len() < plan.root.len());
        }
    }
}

/// A walk on course stays on course to its end.
pub proof fn lemma_stays_on_course(
    plan: Plan,
    disk: Disk,
    w: WalkView,
    ask: Option<RequestView>,
    trace: Seq<(ReplyView, Disk)>,
)
    requires
        plan.sound(),
        plan.on_course(disk, w, ask),
        run_of(disk, Job::Walk(w), ask, trace),
    ensures
        end_of(Job::Walk(w), trace) is Walk,
        plan.on_course(disk_after(disk, trace), end_of(Job::Walk(w), trace)->Walk_0, None),
    decreases trace.len(),
{
    match ask {
        Some(request) => {
            lemma_run_step(disk, Job::Walk(w), request, trace);
            lemma_step(plan, disk, w, request, trace[0].0, trace[0].1);
            lemma_stays_on_course(
                plan,
                trace[0].1,
                w.next(trace[0].0).0,
                w.next(trace[0].0).1,
                trace.skip(1),
            );
        },
        None => {
            lemma_run_end(disk, Job::Walk(w), trace);
        },
    }
}

/// Copying or moving a tree: however the walk that transfers the tree at
/// the root to the destination runs, it ends well; then everything that
/// was in the tree is at its mirror under the destination, files with their
/// bytes and their permission, in the place of what was there; after a copy
/// the tree is as it was, and after a move it is gone; and nothing else has
/// changed: what was at the destination and is no mirror is as it was. The
/// destination may be free, or hold a tree of its own that the walk merges
/// into.
pub proof fn lemma_transfer_tree(plan: Plan, trace: Seq<(ReplyView, Disk)>)
    requires
        plan.sound(),
        run_of(
            plan.disk,
            Job::Walk(WalkView::start(plan.root, plan.to, plan.home, plan.is_copy).0),
            WalkView::start(plan.root, plan.to, plan.home, plan.is_copy).1,
            trace,
        ),
    ensures
        ({
            let end = end_of(
                Job::Walk(WalkView::start(plan.root, plan.to, plan.home, plan.is_copy).0),
                trace,
            );
            &&& end is Walk
            &&& end->Walk_0.done()
            &&& end->Walk_0.outcome() is Ok
            &&& disk_after(plan.disk, trace) == plan.finished()
        }),
{
    let (w, ask) = WalkView::start(plan.root, plan.to, plan.home, plan.is_copy);
    lemma_start_on_course(plan);
    lemma_stays_on_course(plan, plan.disk, w, ask, trace);
}

/// Once the tree is copied, what is at the mirror of something in the tree
/// is what is in the tree; what was anywhere else is there as it was, the
/// tree itself too; and nothing has come to be but mirrors.
pub proof fn lemma_copied_holds(plan: Plan, k: Seq<Seq<char>>)
    requires
        plan.sound(),
    ensures
        plan.in_tree(k) ==> plan.copied().dom().contains(mirror(plan.root, plan.to, k))
            && plan.copied()[mirror(plan.root, plan.to, k)] == plan.disk[k],
        plan.disk.dom().contains(k) && !plan.mirrors(k) ==> plan.copied().dom().contains(k)
            && plan.copied()[k] == plan.disk[k],
        plan.in_tree(k) ==> plan.copied()[k] == plan.disk[k],
        plan.copied().dom().contains(k) && !plan.disk.dom().contains(k) ==> plan.mirrors(k),
{
    if plan.in_tree(k) {
        lemma_mirror_back(plan.root, plan.to, k);
        lemma_sides_apart(plan, k);
    }
}

/// Once the tree is moved, what is at the mirror of something that was in
/// the tree is what was in the tree; the tree is gone; what was anywhere
/// else is there as it was; and nothing has come to be but mirrors.
pub proof fn lemma_moved_holds(plan: Plan, k: Seq<Seq<char>>)
    requires
        plan.sound(),
    ensures
        plan.in_tree(k) ==> plan.moved().dom().contains(mirror(plan.root, plan.to, k))
            && plan.moved()[mirror(plan.root, plan.to, k)] == plan.disk[k],
        starts_with(k, plan.root) ==> !plan.moved().dom().contains(k),
        plan.disk.dom().contains(k) && !starts_with(k, plan.root) && !plan.mirrors(k)
            ==> plan.moved().dom().contains(k) && plan.moved()[k] == plan.disk[k],
        plan.moved().dom().contains(k) && !plan.disk.dom().contains(k) ==> plan.mirrors(k),
{
    lemma_sides_apart(plan, k);
    if plan.in_tree(k) {
        lemma_mirror_back(plan.root, plan.to, k);
    }
}

/// While the transfer of a directory walks the tree, it runs as the walk
/// runs, and it ends as the walk ends.
pub proof fn lemma_transfer_walks(
    disk: Disk,
    s: DirTransferView,
    w: WalkView,
    request: RequestView,
    trace: Seq<(ReplyView, Disk)>,
)
    requires
        s.phase == TreePhaseView::Walking(w),
        run_of(disk, Job::Tree(s), Some(request), trace),
    ensures
        run_of(disk, Job::Walk(w), Some(request), trace),
        end_of(Job::Tree(s), trace) == Job::Tree(
            match end_of(Job::Walk(w), trace)->Walk_0.outcome() {
                Ok(_) => s.arrived().0,
                Err(e) => s.failed(e).0,
            },
        ),
        end_of(Job::Walk(w), trace) is Walk,
    decreases trace.len(),
{
    reveal_with_fuel(run_of, 2);
    lemma_run_step(disk, Job::Tree(s), request, trace);
    let (w2, ask) = w.next(trace[0].0);
    let rest = trace.skip(1);
    assert(faithful(disk, request, trace[0].0, trace[0].1));
    match ask {
        Some(r) => {
            let s2 = s.at(TreePhaseView::Walking(w2));
            assert(s.next(trace[0].0) == (s2, Some(r)));
            lemma_transfer_walks(trace[0].1, s2, w2, r, rest);
            assert(Job::Walk(w).next(trace[0].0) == (Job::Walk(w2), Some(r)));
            assert(run_of(trace[0].1, Job::Walk(w2), Some(r), rest));
        },
        None => {
            lemma_run_end(trace[0].1, Job::Tree(s.next(trace[0].0).0), rest);
            assert(rest.len() == 0);
            lemma_run_end(trace[0].1, Job::Walk(w2), rest);
        },
    }
}

/// Copying a directory to a fresh place: however the copy of the directory
/// at the root of the tree to the free path `raw` runs, it ends well and
/// knows the directory where it was; then everything that was in the tree
/// is also at its mirror under the destination, files with their bytes and
/// their permission, and nothing else has changed.
pub proof fn lemma_copy_directory(plan: Plan, raw: Seq<Seq<char>>, trace: Seq<(ReplyView, Disk)>)
    requires
        plan.sound(),
        plan.is_copy,
        plan.fresh(),
        absolute(raw),
        crate::normalize::fixed(raw, None, plan.home) == Some(plan.to),
        run_of(
            plan.disk,
            Job::Tree(DirTransferView::start(plan.root, raw, plan.home, true).0),
            DirTransferView::start(plan.root, raw, plan.home, true).1,
            trace,
        ),
    ensures
        ({
            let end = end_of(
                Job::Tree(DirTransferView::start(plan.root, raw, plan.home, true).0),
                trace,
            );
            &&& end is Tree
            &&& end->Tree_0.done()
            &&& end->Tree_0.outcome() is Ok
            &&& end->Tree_0.source == plan.root
            &&& disk_after(plan.disk, trace) == plan.copied()
        }),
{
    let (s0, a0) = DirTransferView::start(plan.root, raw, plan.home, true);
    lemma_run_step(plan.disk, Job::Tree(s0), a0->0, trace);
    assert(plan.to.take(plan.to.len() as int) =~= plan.to);
    assert(!plan.disk.dom().contains(plan.to));
    let (s1, a1) = s0.next(trace[0].0);
    let (w, ask) = WalkView::start(plan.root, plan.to, plan.home, true);
    let rest = trace.skip(1);
    lemma_transfer_walks(plan.disk, s1, w, a1->0, rest);
    lemma_transfer_tree(plan, rest);
}

/// Moving a directory to a fresh place: however the move of the directory
/// at the root of the tree to the free path `raw` runs, whether the system
/// renames the tree or the tree has to be walked, it ends well and knows
/// the directory at the destination; then everything that was in the tree
/// is at its mirror under the destination, files with their bytes and their
/// permission; the tree is gone; and nothing else has changed.
pub proof fn lemma_move_directory(plan: Plan, raw: Seq<Seq<char>>, trace: Seq<(ReplyView, Disk)>)
    requires
        plan.sound(),
        !plan.is_copy,
        plan.fresh(),
        absolute(raw),
        crate::normalize::fixed(raw, None, plan.home) == Some(plan.to),
        run_of(
            plan.disk,
            Job::Tree(DirTransferView::start(plan.root, raw, plan.home, false).0),
            DirTransferView::start(plan.root, raw, plan.home, false).1,
            trace,
        ),
    ensures
        ({
            let end = end_of(
                Job::Tree(DirTransferView::start(plan.root, raw, plan.home, false).0),
                trace,
            );
            &&& end is Tree
            &&& end->Tree_0.done()
            &&& end->Tree_0.outcome() is Ok
            &&& end->Tree_0.source == plan.to
            &&& disk_after(plan.disk, trace) == plan.moved()
        }),
{
    let (s0, a0) = DirTransferView::start(plan.root, raw, plan.home, false);
    lemma_run_step(plan.disk, Job::Tree(s0), a0->0, trace);
    assert(plan.to.take(plan.to.len() as int) =~= plan.to);
    assert(!plan.disk.dom().contains(plan.to));
    let (s1, a1) = s0.next(trace[0].0);
    let t1 = trace.skip(1);
    lemma_run_step(plan.disk, Job::Tree(s1), a1->0, t1);
    let (s2, a2) = s1.next(t1[0].0);
    let t2 = t1.skip(1);
    if t1[0].0 is Failed {
        let (w, ask) = WalkView::start(plan.root, plan.to, plan.home, false);
        lemma_transfer_walks(plan.disk, s2, w, a2->0, t2);
        lemma_transfer_tree(plan, t2);
    } else {
        lemma_run_end(t1[0].1, Job::Tree(s2), t2);
        assert(t1[0].1 =~= plan.moved()) by {
            assert forall|m: Seq<Seq<char>>| #[trigger]
                t1[0].1.dom().contains(m) == plan.moved().dom().contains(m) && (
                t1[0].1.dom().contains(m) ==> t1[0].1[m] == plan.moved()[m]) by {
                let back = plan.root + m.skip(plan.to.len() as int);
                assert(back.take(plan.root.len() as int) =~= plan.root);
            }
        }
    }
}

/// An attempt to put the failed transfer of a directory right runs as the
/// transfer runs that it starts, and ends as that ends.
pub proof fn lemma_recovery_runs(
    disk: Disk,
    s: DirTransferView,
    ask: Option<RequestView>,
    trace: Seq<(ReplyView, Disk)>,
)
    requires
        run_of(disk, Job::Recover(RecoveryView::Directory(s)), ask, trace),
    ensures
        run_of(disk, Job::Tree(s), ask, trace),
        end_of(Job::Tree(s), trace) is Tree,
        end_of(Job::Recover(RecoveryView::Directory(s)), trace) == Job::Recover(
            RecoveryView::Directory(end_of(Job::Tree(s), trace)->Tree_0),
        ),
    decreases trace.len(),
{
    match ask {
        Some(request) => {
            lemma_run_step(disk, Job::Recover(RecoveryView::Directory(s)), request, trace);
            let (s2, a2) = s.next(trace[0].0);
            assert(Job::Recover(RecoveryView::Directory(s)).next(trace[0].0) == (
                Job::Recover(RecoveryView::Directory(s2)),
                a2,
            ));
            assert(Job::Tree(s).next(trace[0].0) == (Job::Tree(s2), a2));
            lemma_recovery_runs(trace[0].1, s2, a2, trace.skip(1));
        },
        None => {
            lemma_run_end(disk, Job::Recover(RecoveryView::Directory(s)), trace);
        },
    }
}

/// Copying a directory onto one that is there: however the copy of the
/// directory at the root of the tree to the path `raw` runs, where a
/// directory is, it ends with the failure that says what was being done,
/// and has changed nothing; and however the attempt to put that failure
/// right then runs, it ends well; then everything that was in the tree is
/// also at its mirror under the destination, in the place of what was
/// there, and nothing else has changed: what is new at the destination is
/// there, what was there under the same name holds what the tree holds, and
/// the rest of the destination is as it was.
pub proof fn lemma_copy_onto_directory(
    plan: Plan,
    raw: Seq<Seq<char>>,
    first: Seq<(ReplyView, Disk)>,
    second: Seq<(ReplyView, Disk)>,
)
    requires
        plan.sound(),
        plan.is_copy,
        is_dir(plan.disk, plan.to),
        absolute(raw),
        crate::normalize::fixed(raw, None, plan.home) == Some(plan.to),
        run_of(
            plan.disk,
            Job::Tree(DirTransferView::start(plan.root, raw, plan.home, true).0),
            DirTransferView::start(plan.root, raw, plan.home, true).1,
            first,
        ),
        ({
            let failed = end_of(
                Job::Tree(DirTransferView::start(plan.root, raw, plan.home, true).0),
                first,
            );
            failed is Tree && failed->Tree_0.failure is Some ==> run_of(
                disk_after(plan.disk, first),
                Job::Recover(failed->Tree_0.failure->0.try_recover(plan.home).0),
                failed->Tree_0.failure->0.try_recover(plan.home).1,
                second,
            )
        }),
    ensures
        ({
            let failed = end_of(
                Job::Tree(DirTransferView::start(plan.root, raw, plan.home, true).0),
                first,
            );
            &&& disk_after(plan.disk, first) == plan.disk
            &&& failed is Tree
            &&& failed->Tree_0.done()
            &&& failed->Tree_0.failure is Some
            &&& failed->Tree_0.failure->0.recoverable()
            &&& failed->Tree_0.failure->0.status == Some(
                StatusView::CopyDirectory(plan.root, plan.to),
            )
            &&& ({
                let end = end_of(
                    Job::Recover(failed->Tree_0.failure->0.try_recover(plan.home).0),
                    second,
                );
                &&& end is Recover
                &&& end->Recover_0.done()
                &&& end->Recover_0.outcome() is Ok
                &&& end->Recover_0.entity() == Some(plan.root)
                &&& disk_after(plan.disk, second) == plan.copied()
            })
        }),
{
    let (s0, a0) = DirTransferView::start(plan.root, raw, plan.home, true);
    lemma_run_step(plan.disk, Job::Tree(s0), a0->0, first);
    let (s1, a1) = s0.next(first[0].0);
    lemma_run_end(first[0].1, Job::Tree(s1), first.skip(1));
    let failure = s1.failure->0;
    let (r0, b0) = failure.try_recover(plan.home);
    let again = r0->Directory_0;
    let (w, ask) = WalkView::start(plan.root, plan.to, plan.home, true);
    lemma_recovery_runs(plan.disk, again, b0, second);
    lemma_transfer_walks(plan.disk, again, w, b0->0, second);
    lemma_transfer_tree(plan, second);
}

/// Moving a directory onto one that is there: however the move of the
/// directory at the root of the tree to the path `raw` runs, where a
/// directory is, it ends with the failure that says what was being done,
/// and has changed nothing; and however the attempt to put that failure
/// right then runs, it ends well and knows the directory at the
/// destination; then everything that was in the tree is at its mirror under
/// the destination, in the place of what was there; the tree is gone; and
/// nothing else has changed.
pub proof fn lemma_move_onto_directory(
    plan: Plan,
    raw: Seq<Seq<char>>,
    first: Seq<(ReplyView, Disk)>,
    second: Seq<(ReplyView, Disk)>,
)
    requires
        plan.sound(),
        !plan.is_copy,
        is_dir(plan.disk, plan.to),
        absolute(raw),
        crate::normalize::fixed(raw, None, plan.home) == Some(plan.to),
        run_of(
            plan.disk,
            Job::Tree(DirTransferView::start(plan.root, raw, plan.home, false).0),
            DirTransferView::start(plan.root, raw, plan.home, false).1,
            first,
        ),
        ({
            let failed = end_of(
                Job::Tree(DirTransferView::start(plan.root, raw, plan.home, false).0),
                first,
            );
            failed is Tree && failed->Tree_0.failure is Some ==> run_of(
                disk_after(plan.disk, first),
                Job::Recover(failed->Tree_0.failure->0.try_recover(plan.home).0),
                failed->Tree_0.failure->0.try_recover(plan.home).1,
                second,
            )
        }),
    ensures
        ({
            let failed = end_of(
                Job::Tree(DirTransferView::start(plan.root, raw, plan.home, false).0),
                first,
            );
            &&& disk_after(plan.disk, first) == plan.disk
            &&& failed is Tree
            &&& failed->Tree_0.done()
            &&& failed->Tree_0.failure is Some
            &&& failed->Tree_0.failure->0.recoverable()
            &&& failed->Tree_0.failure->0.status == Some(
                StatusView::MoveDirectory(plan.root, plan.to),
            )
            &&& ({
                let end = end_of(
                    Job::Recover(failed->Tree_0.failure->0.try_recover(plan.home).0),
                    second,
                );
                &&& end is Recover
                &&& end->Recover_0.done()
                &&& end->Recover_0.outcome() is Ok
                &&& end->Recover_0.entity() == Some(plan.to)
                &&& disk_after(plan.disk, second) == plan.moved()
            })
        }),
{
    let (s0, a0) = DirTransferView::start(plan.root, raw, plan.home, false);
    lemma_run_step(plan.disk, Job::Tree(s0), a0->0, first);
    let (s1, a1) = s0.next(first[0].0);
    lemma_run_end(first[0].1, Job::Tree(s1), first.skip(1));
    let failure = s1.failure->0;
    let (r0, b0) = failure.try_recover(plan.home);
    let again = r0->Directory_0;
    lemma_recovery_runs(plan.disk, again, b0, second);
    lemma_run_step(plan.disk, Job::Tree(again), b0->0, second);
    let (s2, a2) = again.next(second[0].0);
    let rest = second.skip(1);
    let (w, ask) = WalkView::start(plan.root, plan.to, plan.home, false);
    lemma_transfer_walks(plan.disk, s2, w, a2->0, rest);
    lemma_transfer_tree(plan, rest);
}

} // verus!
