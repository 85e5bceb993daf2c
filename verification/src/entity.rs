//! What files and directories have in common: what can be asked of them,
//! and what can be done to them.

use vstd::prelude::*;
use crate::delete::{Delete, DeleteView};
use crate::error::{Error, ErrorView};
use crate::measure::{Measure, MeasureView};
use crate::normalize::{lookup_home, mentions_home, owned_view};
use crate::open::{Open, OpenKind, OpenView};
use crate::path::{file_name_of, parent_of, text_of, FsPath};
use crate::request::{asked, Reply, ReplyView, Request, RequestView};

verus! {

/// Whether what the reply describes is read-only.
pub open spec fn read_only_of(reply: ReplyView) -> Result<bool, ErrorView> {
    match reply.meta() {
        Ok(m) => Ok(m.readonly),
        Err(e) => Err(e),
    }
}

/// What can be asked of a file or a directory.
pub trait Info: Sized {
    /// Where the entity is.
    spec fn place(&self) -> Seq<Seq<char>>;

    /// Where the entity is.
    fn as_path(&self) -> (p: &FsPath)
        ensures
            p@ == self.place(),
    ;

    /// The name of the entity, as a path of one component. The root has no
    /// name, nor has a path that ends in `.` or `..`.
    fn file_name(&self) -> (r: Option<FsPath>)
        ensures
            r.is_some() == file_name_of(self.place()).is_some(),
            r matches Some(name) ==> name@ == seq![file_name_of(self.place())->0],
    {
        self.as_path().file_name()
    }

    /// The path of the entity, written out.
    fn to_string(&self) -> (s: String)
        ensures
            s@ == text_of(self.place()),
    {
        self.as_path().to_text()
    }

    /// The request for the size and the permissions of the entity.
    fn metadata(&self) -> (ask: Request)
        ensures
            ask@ == RequestView::Metadata(self.place()),
    {
        Request::Metadata(self.as_path().clone())
    }

    /// How the measurement of the entity starts: that of a file with the
    /// length that the system reports for it, that of a directory with what
    /// is in it.
    spec fn measuring(&self) -> (MeasureView, RequestView);

    /// Starts to measure the entity. A measurement never fails: what cannot
    /// be measured counts as 0.
    fn size(&self) -> (r: (Measure, Request))
        ensures
            (r.0@, r.1@) == self.measuring(),
    ;

    /// Starts to open the directory that holds the entity, where the path
    /// has one above it. Whoever drives the opening takes its failure to
    /// mean that there is no parent.
    fn parent(&self) -> (r: Option<(Open, Option<Request>)>)
        ensures
            r.is_some() == parent_of(self.place()).is_some(),
            r matches Some(o) ==> exists|home: Option<Seq<Seq<char>>>|
                (!mentions_home(parent_of(self.place())->0) ==> home is None)
                    && #[trigger] OpenView::start(
                    OpenKind::Directory,
                    parent_of(self.place())->0,
                    home,
                ) == (o.0@, asked(o.1)),
    {
        match self.as_path().parent() {
            Some(dir) => {
                let home = lookup_home(&dir);
                let ghost h = owned_view(home);
                let ghost d = dir@;
                let o = Open::start(OpenKind::Directory, dir, home);
                assert(d == parent_of(self.place())->0);
                assert(!mentions_home(d) ==> h is None);
                assert(OpenView::start(OpenKind::Directory, parent_of(self.place())->0, h) == (
                    o.0@,
                    asked(o.1),
                ));
                Some(o)
            },
            None => None,
        }
    }

    /// Whether the entity is read-only, from the reply to
    /// [`metadata`](Info::metadata). A failure is handed on.
    fn read_only(&self, metadata: Reply) -> (r: Result<bool, Error>)
        ensures
            match read_only_of(metadata@) {
                Ok(b) => r == Ok::<bool, Error>(b),
                Err(e) => r matches Err(x) && x@ == e,
            },
    {
        match metadata.meta() {
            Ok(m) => Ok(m.readonly),
            Err(e) => Err(e),
        }
    }
}

/// What can be done to a file or a directory.
pub trait Action: Info {
    /// The copy or the move of such an entity, in progress.
    type Transfer;

    /// Where the entity is after it was renamed to `name`.
    spec fn renamed(&self, name: Seq<Seq<char>>) -> Seq<Seq<char>>;

    /// What an entity of this kind is opened as.
    spec fn opens() -> OpenKind;

    /// Starts to open the entity at `path`. The home directory is looked up
    /// where it can matter.
    fn open(path: &FsPath) -> (r: (Open, Option<Request>))
        ensures
            exists|home: Option<Seq<Seq<char>>>| #[trigger]
                OpenView::start(Self::opens(), path@, home) == (r.0@, asked(r.1)),
    ;

    /// The entity at `path`, taken on trust: nothing is looked at. It is
    /// for a path that is known to be the absolute, normal path of such an
    /// entity, as one that a listing has just given.
    fn open_uncheck(path: FsPath) -> (r: Self)
        ensures
            r.place() == path@,
    ;

    /// The path that renaming the entity to `name` gives it: a sibling of
    /// where it is now.
    fn rename_to(&self, name: &FsPath) -> (r: FsPath)
        ensures
            r@ == self.renamed(name@),
    ;

    /// The request that renames the entity to `name`.
    fn rename_request(&self, name: &FsPath) -> (ask: Request)
        ensures
            ask@ == RequestView::Rename(self.place(), self.renamed(name@)),
    {
        Request::Rename(self.as_path().clone(), self.rename_to(name))
    }

    /// Takes the reply to [`rename_request`](Action::rename_request): where
    /// the entity was renamed it is now at its new path, and where it was
    /// not it stays where it is and the failure is handed on.
    fn rename(&mut self, name: &FsPath, reply: Reply) -> (r: Result<(), Error>)
        ensures
            match reply@.unit() {
                Ok(_) => r is Ok && final(self).place() == old(self).renamed(name@),
                Err(e) => r matches Err(x) && x@ == e && final(self).place() == old(
                    self,
                ).place(),
            },
    {
        match reply.unit() {
            Ok(_) => {
                let to = self.rename_to(name);
                *self = Self::open_uncheck(to);
                Ok(())
            },
            Err(e) => Err(e),
        }
    }

    /// The request that makes the entity read-only, or writable again.
    fn set_readonly(&self, readonly: bool) -> (ask: Request)
        ensures
            ask@ == RequestView::SetReadonly(self.place(), readonly),
    {
        Request::SetReadonly(self.as_path().clone(), readonly)
    }

    /// Starts to delete the entity: a directory with all that it holds, and
    /// what is read-only too.
    fn delete(self) -> (r: (Delete, Request))
        ensures
            (r.0@, r.1@) == DeleteView::start(self.place()),
    {
        Delete::start(self.as_path().clone())
    }

    /// Starts to copy the entity into the directory `path`, under its own
    /// name.
    fn copy_to(&self, path: &FsPath) -> (r: (Self::Transfer, Option<Request>))
    ;

    /// Starts to copy the entity to the exact path `path`.
    fn copy_new(&self, path: &FsPath) -> (r: (Self::Transfer, Option<Request>))
    ;

    /// Starts to move the entity into the directory `path`, under its own
    /// name.
    fn move_to(&self, path: &FsPath) -> (r: (Self::Transfer, Option<Request>))
    ;

    /// Starts to move the entity to the exact path `path`.
    fn move_new(&self, path: &FsPath) -> (r: (Self::Transfer, Option<Request>))
    ;
}

} // verus!
