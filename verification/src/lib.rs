//! Files and directories as values, and the decisions behind copying, moving,
//! renaming and deleting them, kept apart from the system calls that carry
//! those decisions out.
//!
//! Nothing here touches a file system. An operation is a value that hands
//! out one [`Request`] at a time and is stepped with the [`Reply`] to it,
//! until it asks nothing more. Whoever drives it decides how the requests
//! are carried out, with blocking calls or with calls that can be awaited:
//! what is decided is the same.
//!
//! - [`path`]: paths as sequences of components.
//! - [`normalize`]: making a path absolute and free of `.`, `..` and `~`.
//! - [`error`], [`recover`]: failures, and the failure of a transfer that
//!   can be put right.
//! - [`request`]: requests and replies.
//! - [`entity`], [`file`], [`dir`]: files and directories, their transfers,
//!   and the walk that transfers a tree.
//! - [`delete`], [`open`], [`measure`]: deleting, opening and measuring.
//! - [`response`]: a file offered for download.
//! - [`disk`], [`tree`]: a model of a working file system, and what the
//!   operations achieve on it.

pub mod delete;
pub mod dir;
pub mod disk;
pub mod entity;
pub mod error;
pub mod file;
pub mod measure;
pub mod normalize;
pub mod open;
pub mod path;
pub mod recover;
pub mod request;
pub mod response;
pub mod tree;

pub use crate::delete::Delete;
pub use crate::dir::{read_dir, DirTransfer, DirectoryInfo, Walk};
pub use crate::entity::{Action, Info};
pub use crate::error::{already_exist, Error, ErrorKind, INVALID_PATH};
pub use crate::file::{FileInfo, FileTransfer};
pub use crate::measure::Measure;
pub use crate::normalize::{fix_path, fix_path_with, home_dir, push_os_str, push_os_str_with};
pub use crate::open::{Open, OpenKind};
pub use crate::path::FsPath;
pub use crate::recover::{Recovery, Status, TryRecover};
pub use crate::request::{DirEntry, EntryKind, Metadata, Reply, Request};
pub use crate::response::{response, Response};

use vstd::prelude::*;
use crate::error::invalid_path;
use crate::path::{
    absolute, can_pop, common_prefix_len, is_root, joined, lemma_common_prefix_len, starts_with,
    well_formed,
};

verus! {

/// A position in a stream of `len` bytes.
pub struct Recorder {
    pub pos: u64,
    pub len: u64,
}

impl Recorder {
    /// A reader at the start of `len` bytes.
    pub fn read(len: u64) -> (r: Recorder)
        ensures
            r.pos == 0,
            r.len == len,
    {
        Recorder { pos: 0, len }
    }

    /// A writer at `pos`, with nothing to read.
    pub fn write(pos: u64) -> (r: Recorder)
        ensures
            r.pos == pos,
            r.len == 0,
    {
        Recorder { pos, len: 0 }
    }

    /// Whether the position has reached the end.
    #[allow(non_snake_case)]
    pub fn EOF(&self) -> (r: bool)
        ensures
            r == (self.pos >= self.len),
    {
        self.pos >= self.len
    }
}

/// The index of the first `"` in `s`, or the length of `s`.
pub open spec fn first_quote(s: Seq<char>) -> int
    decreases s.len(),
{
    if s.len() == 0 || s[0] == '"' {
        0
    } else {
        1 + first_quote(s.skip(1))
    }
}

/// What stands between the first `"` of `s` and the next one, or the end.
pub open spec fn between_quotes(s: Seq<char>) -> Seq<char> {
    let rest = s.skip(first_quote(s) + 1);
    rest.take(first_quote(rest))
}

/// The first quote is at `i` when a quote stands there, or the text ends
/// there, and none stands before.
pub proof fn lemma_first_quote(s: Seq<char>, i: int)
    requires
        0 <= i <= s.len(),
        forall|j: int| 0 <= j < i ==> s[j] != '"',
        i == s.len() || s[i] == '"',
    ensures
        first_quote(s) == i,
    decreases i,
{
    if i > 0 {
        lemma_first_quote(s.skip(1), i - 1);
    }
}

fn find_quote(s: &str, from: usize) -> (i: usize)
    requires
        from <= s@.len(),
    ensures
        from <= i <= s@.len(),
        i - from == first_quote(s@.skip(from as int)),
{
    let n: usize = s.unicode_len();
    let mut i: usize = from;
    while i < n
        invariant
            n == s@.len(),
            from <= i <= n,
            forall|j: int| from <= j < i ==> s@[j] != '"',
        decreases n - i,
    {
        if s.get_char(i) == '"' {
            proof {
                lemma_first_quote(s@.skip(from as int), i - from);
            }
            return i;
        }
        i += 1;
    }
    proof {
        lemma_first_quote(s@.skip(from as int), i - from);
    }
    i
}

/// The path that the debug text of an open file quotes: what stands between
/// its first two quotation marks.
pub fn get_file_path(file_debug: String) -> (path: String)
    requires
        file_debug@.contains('"'),
    ensures
        path@ == between_quotes(file_debug@),
{
    let s = file_debug.as_str();
    let n: usize = s.unicode_len();
    assert(s@.skip(0) =~= s@);
    let a: usize = find_quote(s, 0);
    proof {
        if a == n {
            let k = choose|k: int| 0 <= k < s@.len() && s@[k] == '"';
            lemma_first_quote_bound(s@, k);
        }
    }
    let b: usize = find_quote(s, a + 1);
    let path = String::from_str(s.substring_char(a + 1, b));
    assert(path@ =~= between_quotes(file_debug@));
    path
}

proof fn lemma_first_quote_bound(s: Seq<char>, k: int)
    requires
        0 <= k < s.len(),
        s[k] == '"',
    ensures
        first_quote(s) <= k,
    decreases k,
{
    if k > 0 && s[0] != '"' {
        lemma_first_quote_bound(s.skip(1), k - 1);
    }
}

/// `path` with the name `file_name` appended, or the failure for a path that
/// cannot be used where there is no name.
pub fn push_file_name(file_name: Option<&FsPath>, path: &FsPath) -> (r: Result<FsPath, Error>)
    ensures
        match file_name {
            Some(name) => r matches Ok(p) && p@ == joined(path@, name@),
            None => r matches Err(e) && e@ == invalid_path(),
        },
{
    let mut path = path.clone();
    let file_name = match file_name {
        Some(file_name) => file_name,
        None => {
            return INVALID_PATH();
        },
    };
    path.push(file_name);
    Ok(path)
}

/// Whether `to` lies under the root that `path` starts at. A relative
/// `path` starts at no root, and every path lies under that.
pub open spec fn same_root(path: Seq<Seq<char>>, to: Seq<Seq<char>>) -> bool {
    absolute(path) ==> absolute(to)
}

/// Whether `to` lies under the root that `path` starts at: whether a file
/// at `path` can be renamed to `to` at all.
pub fn is_same_root(path: &FsPath, to: &FsPath) -> (r: bool)
    ensures
        r == same_root(path@, to@),
{
    let mut root = path.clone();
    let mut more = root.pop();
    while more
        invariant
            absolute(root@) == absolute(path@),
            more || !can_pop(root@),
        decreases root@.len() + if more { 1int } else { 0int },
    {
        more = root.pop();
    }
    let r = to.starts_with(&root);
    proof {
        if absolute(path@) {
            assert(root@.len() == 1);
            if absolute(to@) {
                assert(to@[0] =~= root@[0]);
                assert(to@.take(1) =~= root@);
            } else if to@.len() > 0 {
                assert(to@.take(1)[0] == to@[0]);
            }
        } else {
            assert(to@.take(0) =~= root@);
        }
    }
    r
}

/// Where `path` lands when the tree under `base` is laid out under `to`:
/// what follows the components that `path` shares with `base`, appended to
/// `to`.
pub open spec fn rebased(path: Seq<Seq<char>>, base: Seq<Seq<char>>, to: Seq<Seq<char>>) -> Seq<
    Seq<char>,
> {
    joined(to, path.skip(common_prefix_len(path, base) as int))
}

/// The place under `to` that corresponds to `path` under `base`.
pub fn replace(path: &FsPath, base: &FsPath, to: &FsPath) -> (r: FsPath)
    ensures
        r@ == rebased(path@, base@, to@),
{
    let i: usize = path.common_prefix_len(base);
    let rest = path.subpath(i, path.len());
    let mut to = to.clone();
    proof {
        lemma_common_prefix_bound(path@, base@);
        assert(rest@ =~= path@.skip(i as int));
    }
    to.push(&rest);
    to
}

/// The common prefix is no longer than either path.
pub proof fn lemma_common_prefix_bound(a: Seq<Seq<char>>, b: Seq<Seq<char>>)
    ensures
        common_prefix_len(a, b) <= a.len(),
        common_prefix_len(a, b) <= b.len(),
    decreases a.len(),
{
    if a.len() > 0 && b.len() > 0 && a[0] == b[0] {
        lemma_common_prefix_bound(a.skip(1), b.skip(1));
    }
}

/// A path under `base` keeps what follows `base`, appended to `to`.
pub proof fn lemma_rebase_within(path: Seq<Seq<char>>, base: Seq<Seq<char>>, to: Seq<Seq<char>>)
    requires
        well_formed(path),
        starts_with(path, base),
        base.len() > 0,
    ensures
        rebased(path, base, to) == to + path.skip(base.len() as int),
        starts_with(rebased(path, base, to), to),
{
    assert forall|j: int| 0 <= j < base.len() implies path[j] == base[j] by {
        assert(path.take(base.len() as int)[j] == path[j]);
    }
    lemma_common_prefix_len(path, base, base.len() as int);
    let rest = path.skip(base.len() as int);
    if rest.len() > 0 {
        assert(rest[0] == path[base.len() as int]);
    }
    assert((to + rest).take(to.len() as int) =~= to);
}

/// The root of the tree lands on the destination itself.
pub proof fn lemma_rebase_root(base: Seq<Seq<char>>, to: Seq<Seq<char>>)
    ensures
        rebased(base, base, to) == to,
{
    lemma_common_prefix_len(base, base, base.len() as int);
    assert(base.skip(base.len() as int) =~= Seq::<Seq<char>>::empty());
    assert(to + Seq::<Seq<char>>::empty() =~= to);
}

/// Laid out under its own root, a tree stays where it is.
pub proof fn lemma_rebase_identity(path: Seq<Seq<char>>, base: Seq<Seq<char>>)
    requires
        well_formed(path),
        starts_with(path, base),
    ensures
        rebased(path, base, base) == path,
{
    if base.len() > 0 {
        lemma_rebase_within(path, base, base);
        assert(path.take(base.len() as int) + path.skip(base.len() as int) =~= path);
    } else {
        lemma_common_prefix_len(path, base, 0);
        assert(path.skip(0) =~= path);
        assert(base + path =~= path);
    }
}

/// Moving a tree from `base` to `to` and back again puts every path under
/// `base` back in its place.
pub proof fn lemma_rebase_round_trip(path: Seq<Seq<char>>, base: Seq<Seq<char>>, to: Seq<Seq<char>>)
    requires
        well_formed(path),
        well_formed(to),
        starts_with(path, base),
        base.len() > 0,
        to.len() > 0,
    ensures
        rebased(rebased(path, base, to), to, base) == path,
{
    lemma_rebase_within(path, base, to);
    let there = to + path.skip(base.len() as int);
    assert forall|i: int| 0 <= i < there.len() implies path::valid_component(#[trigger] there[i])
        && (i > 0 ==> !is_root(there[i])) by {
        if i >= to.len() {
            assert(there[i] == path[base.len() + i - to.len()]);
        }
    }
    lemma_rebase_within(there, to, base);
    assert(there.skip(to.len() as int) =~= path.skip(base.len() as int));
    assert(path.take(base.len() as int) + path.skip(base.len() as int) =~= path);
}

} // verus!
