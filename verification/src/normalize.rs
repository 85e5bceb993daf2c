//! Making a path absolute and free of `.`, `..` and `~`.

use vstd::prelude::*;
use crate::error::{invalid_path, Error, INVALID_PATH};
use crate::path::{
    absolute, can_pop, is_cur_dir, is_home, is_parent_dir, is_root, joined, popped,
    text_is_cur_dir, text_is_home, text_is_parent_dir, valid_component, well_formed, FsPath,
};

verus! {

/// The view of a path that may be absent.
pub open spec fn view_of(p: Option<&FsPath>) -> Option<Seq<Seq<char>>> {
    match p {
        Some(p) => Some(p@),
        None => None,
    }
}

/// The view of an owned path that may be absent.
pub open spec fn owned_view(p: Option<FsPath>) -> Option<Seq<Seq<char>>> {
    match p {
        Some(p) => Some(p@),
        None => None,
    }
}

/// The path that a result holds, if it holds one.
pub open spec fn found(r: Result<FsPath, Error>) -> Option<Seq<Seq<char>>> {
    match r {
        Ok(p) => Some(p@),
        Err(_) => None,
    }
}

/// What pushing `os` onto `acc` gives: `.` changes nothing, `~` stands for
/// the home directory, `..` gives up the last component, and anything else
/// is appended. Without a home directory `~` has no meaning.
pub open spec fn pushed(acc: Seq<Seq<char>>, os: Seq<Seq<char>>, home: Option<Seq<Seq<char>>>) -> Option<
    Seq<Seq<char>>,
> {
    if os.len() == 1 && is_cur_dir(os[0]) {
        Some(acc)
    } else if os.len() == 1 && is_home(os[0]) {
        home
    } else if os.len() == 1 && is_parent_dir(os[0]) {
        Some(popped(acc))
    } else {
        Some(joined(acc, os))
    }
}

/// The components of `rest` pushed onto `acc` one after the other.
pub open spec fn resolved(acc: Seq<Seq<char>>, rest: Seq<Seq<char>>, home: Option<Seq<Seq<char>>>) -> Option<
    Seq<Seq<char>>,
>
    decreases rest.len(),
{
    if rest.len() == 0 {
        Some(acc)
    } else {
        match pushed(acc, seq![rest[0]], home) {
            Some(next) => resolved(next, rest.skip(1), home),
            None => None,
        }
    }
}

/// The normal form of `path`: an absolute path is resolved from nothing, a
/// relative one from the working directory `cwd`, which it then needs.
pub open spec fn fixed(
    path: Seq<Seq<char>>,
    cwd: Option<Seq<Seq<char>>>,
    home: Option<Seq<Seq<char>>>,
) -> Option<Seq<Seq<char>>> {
    if absolute(path) {
        resolved(Seq::empty(), path, home)
    } else {
        match cwd {
            Some(start) => resolved(start, path, home),
            None => None,
        }
    }
}

/// Whether some component of the path is `~`.
pub open spec fn mentions_home(path: Seq<Seq<char>>) -> bool {
    exists|i: int| 0 <= i < path.len() && is_home(#[trigger] path[i])
}

/// No component is `.` or `..`.
pub open spec fn plain(path: Seq<Seq<char>>) -> bool {
    forall|i: int| 0 <= i < path.len() ==> !is_cur_dir(#[trigger] path[i]) && !is_parent_dir(path[i])
}

/// A starting point, or a home directory, that a normal form can be built
/// on: absolute, well formed and free of `.` and `..`.
pub open spec fn normal(p: Seq<Seq<char>>) -> bool {
    absolute(p) && plain(p) && well_formed(p)
}

proof fn lemma_resolved_normal(
    acc: Seq<Seq<char>>,
    rest: Seq<Seq<char>>,
    home: Option<Seq<Seq<char>>>,
)
    requires
        well_formed(acc),
        plain(acc),
        forall|i: int| 0 <= i < rest.len() ==> valid_component(#[trigger] rest[i]),
        absolute(acc) || absolute(rest),
        home matches Some(h) ==> normal(h),
    ensures
        resolved(acc, rest, home) matches Some(r) ==> normal(r),
    decreases rest.len(),
{
    if rest.len() > 0 {
        let c = rest[0];
        let os = seq![c];
        assert(os[0] == c);
        match pushed(acc, os, home) {
            Some(next) => {
                if !is_cur_dir(c) && !is_home(c) && !is_parent_dir(c) {
                    if is_root(c) {
                        assert(next =~= os);
                    } else {
                        assert(next =~= acc.push(c));
                        assert forall|i: int| 0 <= i < next.len() implies valid_component(
                            #[trigger] next[i],
                        ) && (i > 0 ==> !is_root(next[i])) by {
                            if i < acc.len() {
                                assert(next[i] == acc[i]);
                            }
                        }
                        assert forall|i: int| 0 <= i < next.len() implies !is_cur_dir(
                            #[trigger] next[i],
                        ) && !is_parent_dir(next[i]) by {
                            if i < acc.len() {
                                assert(next[i] == acc[i]);
                            }
                        }
                    }
                } else if is_parent_dir(c) {
                    if can_pop(acc) {
                        assert forall|i: int| 0 <= i < next.len() implies valid_component(
                            #[trigger] next[i],
                        ) && (i > 0 ==> !is_root(next[i])) && !is_cur_dir(next[i])
                            && !is_parent_dir(next[i]) by {
                            assert(next[i] == acc[i]);
                        }
                    }
                }
                assert forall|i: int| 0 <= i < rest.skip(1).len() implies valid_component(
                    #[trigger] rest.skip(1)[i],
                ) by {
                    assert(rest.skip(1)[i] == rest[i + 1]);
                }
                lemma_resolved_normal(next, rest.skip(1), home);
            },
            None => {},
        }
    }
}

/// The normal form is absolute, well formed and free of `.` and `..`,
/// given a working directory and a home directory that are.
pub proof fn lemma_fixed_is_normal(
    path: Seq<Seq<char>>,
    cwd: Option<Seq<Seq<char>>>,
    home: Option<Seq<Seq<char>>>,
)
    requires
        well_formed(path),
        cwd matches Some(c) ==> normal(c),
        home matches Some(h) ==> normal(h),
    ensures
        fixed(path, cwd, home) matches Some(r) ==> normal(r),
{
    if absolute(path) {
        lemma_resolved_normal(Seq::empty(), path, home);
    } else if cwd is Some {
        lemma_resolved_normal(cwd->0, path, home);
    }
}

proof fn lemma_resolved_appends(
    acc: Seq<Seq<char>>,
    rest: Seq<Seq<char>>,
    home: Option<Seq<Seq<char>>>,
)
    requires
        forall|i: int|
            0 <= i < rest.len() ==> !is_root(#[trigger] rest[i]) && !is_cur_dir(rest[i])
                && !is_parent_dir(rest[i]) && !is_home(rest[i]),
    ensures
        resolved(acc, rest, home) == Some(acc + rest),
    decreases rest.len(),
{
    if rest.len() > 0 {
        let os = seq![rest[0]];
        assert(os[0] == rest[0]);
        let next = acc + os;
        assert(pushed(acc, os, home) == Some(next));
        assert forall|i: int| 0 <= i < rest.skip(1).len() implies !is_root(
            #[trigger] rest.skip(1)[i],
        ) && !is_cur_dir(rest.skip(1)[i]) && !is_parent_dir(rest.skip(1)[i]) && !is_home(
            rest.skip(1)[i],
        ) by {
            assert(rest.skip(1)[i] == rest[i + 1]);
        }
        lemma_resolved_appends(next, rest.skip(1), home);
        assert(next + rest.skip(1) =~= acc + rest);
    } else {
        assert(acc + rest =~= acc);
    }
}

/// A path that is already normal, and mentions no `~`, is its own normal
/// form, whatever the working directory and the home directory are.
pub proof fn lemma_fixed_idempotent(
    path: Seq<Seq<char>>,
    cwd: Option<Seq<Seq<char>>>,
    home: Option<Seq<Seq<char>>>,
)
    requires
        normal(path),
        !mentions_home(path),
    ensures
        fixed(path, cwd, home) == Some(path),
{
    let os = seq![path[0]];
    assert(os[0] == path[0]);
    assert(pushed(Seq::empty(), os, home) == Some(os));
    let rest = path.skip(1);
    assert forall|i: int| 0 <= i < rest.len() implies !is_root(#[trigger] rest[i]) && !is_cur_dir(
        rest[i],
    ) && !is_parent_dir(rest[i]) && !is_home(rest[i]) by {
        assert(rest[i] == path[i + 1]);
    }
    lemma_resolved_appends(os, rest, home);
    assert(os + rest =~= path);
}

proof fn lemma_resolved_without_home(
    acc: Seq<Seq<char>>,
    rest: Seq<Seq<char>>,
    h1: Option<Seq<Seq<char>>>,
    h2: Option<Seq<Seq<char>>>,
)
    requires
        !mentions_home(rest),
    ensures
        resolved(acc, rest, h1) == resolved(acc, rest, h2),
    decreases rest.len(),
{
    if rest.len() > 0 {
        let os = seq![rest[0]];
        assert(os[0] == rest[0]);
        assert(!is_home(rest[0]));
        assert(pushed(acc, os, h1) == pushed(acc, os, h2));
        assert forall|i: int| 0 <= i < rest.skip(1).len() implies !is_home(
            #[trigger] rest.skip(1)[i],
        ) by {
            assert(rest.skip(1)[i] == rest[i + 1]);
        }
        lemma_resolved_without_home(pushed(acc, os, h1)->0, rest.skip(1), h1, h2);
    }
}

/// The home directory matters only to a path that mentions `~`.
pub proof fn lemma_fixed_without_home(
    path: Seq<Seq<char>>,
    cwd: Option<Seq<Seq<char>>>,
    h1: Option<Seq<Seq<char>>>,
    h2: Option<Seq<Seq<char>>>,
)
    requires
        !mentions_home(path),
    ensures
        fixed(path, cwd, h1) == fixed(path, cwd, h2),
{
    if absolute(path) {
        lemma_resolved_without_home(Seq::empty(), path, h1, h2);
    } else if cwd is Some {
        lemma_resolved_without_home(cwd->0, path, h1, h2);
    }
}

/// Whether a result is the one that the model `want` asks for: the path, or
/// the failure for a path that cannot be used.
pub open spec fn answers(r: Result<FsPath, Error>, want: Option<Seq<Seq<char>>>) -> bool {
    match want {
        Some(p) => r matches Ok(q) && q@ == p,
        None => r matches Err(e) && e@ == invalid_path(),
    }
}

/// Asks `dirs::home_dir` for the user's home directory and hands back its
/// components as text. Nothing is claimed of the answer: it depends on the
/// environment of the process.
#[verifier::external_body]
fn os_home_dir() -> (r: Option<Vec<String>>) {
    dirs::home_dir().map(|p| p.iter().map(|c| c.to_string_lossy().into_owned()).collect())
}

/// The user's home directory, where the system names one that is a path.
pub fn home_dir() -> (r: Option<FsPath>) {
    home_from(os_home_dir())
}

/// Pushes `os_str` onto `path` with the home directory given: see [`pushed`].
/// A `~` without a home directory is refused and leaves `path` as it was.
pub fn push_os_str_with(os_str: &FsPath, path: &mut FsPath, home: Option<&FsPath>) -> (r: Result<
    (),
    Error,
>)
    ensures
        match pushed(old(path)@, os_str@, view_of(home)) {
            Some(p) => r is Ok && final(path)@ == p,
            None => r matches Err(e) && e@ == invalid_path() && final(path)@ == old(path)@,
        },
{
    if os_str.len() == 1 {
        let c = os_str.component(0);
        if text_is_cur_dir(c) {
            return Ok(());
        }
        if text_is_home(c) {
            match home {
                Some(h) => {
                    *path = h.clone();
                    return Ok(());
                },
                None => {
                    return INVALID_PATH();
                },
            }
        }
        if text_is_parent_dir(c) {
            path.pop();
            return Ok(());
        }
    }
    path.push(os_str);
    Ok(())
}

/// Pushes `os_str` onto `path`, asking the system for the home directory
/// where `os_str` is `~`. Whatever the system answers, the outcome is that
/// of [`push_os_str_with`] for some home directory, and for none at all
/// where `os_str` is not `~`.
pub fn push_os_str(os_str: &FsPath, path: &mut FsPath) -> (r: Result<(), Error>)
    ensures
        exists|home: Option<Seq<Seq<char>>>|
            (!mentions_home(os_str@) ==> home is None) && match #[trigger] pushed(
                old(path)@,
                os_str@,
                home,
            ) {
                Some(p) => r is Ok && final(path)@ == p,
                None => r matches Err(e) && e@ == invalid_path() && final(path)@ == old(path)@,
            },
{
    let home = lookup_home(os_str);
    let ghost before = path@;
    let known = home.as_ref();
    let r = push_os_str_with(os_str, path, known);
    assert(match pushed(before, os_str@, view_of(known)) {
        Some(p) => r is Ok && path@ == p,
        None => r matches Err(e) && e@ == invalid_path() && path@ == before,
    });
    r
}

/// The home directory, looked up only for a path that mentions `~`: for
/// any other path the system is not asked, and there is none. Whether the
/// path mentions `~` is decided by [`needs_home`]; what the system names
/// then is not known here.
pub fn lookup_home(path: &FsPath) -> (home: Option<FsPath>)
    ensures
        !mentions_home(path@) ==> home is None,
{
    if needs_home(path) {
        home_dir()
    } else {
        None
    }
}

/// The normal form of `path`, with the working directory and the home
/// directory given: see [`fixed`]. The path is refused where it is relative
/// and no working directory is given, or mentions `~` and no home directory
/// is given.
pub fn fix_path_with(path: &FsPath, cwd: Option<&FsPath>, home: Option<&FsPath>) -> (r: Result<
    FsPath,
    Error,
>)
    ensures
        answers(r, fixed(path@, view_of(cwd), view_of(home))),
{
    let mut builder = if path.is_absolute() {
        FsPath::new()
    } else {
        match cwd {
            Some(start) => start.clone(),
            None => {
                return INVALID_PATH();
            },
        }
    };
    let ghost goal = fixed(path@, view_of(cwd), view_of(home));
    let n: usize = path.len();
    let mut i: usize = 0;
    assert(path@.skip(0) =~= path@);
    while i < n
        invariant
            n == path@.len(),
            i <= n,
            goal == fixed(path@, view_of(cwd), view_of(home)),
            resolved(builder@, path@.skip(i as int), view_of(home)) == goal,
        decreases n - i,
    {
        let os = path.subpath(i, i + 1);
        proof {
            assert(os@ =~= seq![path@.skip(i as int)[0]]);
            assert(path@.skip(i as int).skip(1) =~= path@.skip(i + 1));
        }
        match push_os_str_with(&os, &mut builder, home) {
            Ok(()) => {},
            Err(e) => {
                return Err(e);
            },
        }
        i += 1;
    }
    Ok(builder)
}

/// The normal form of `path`, asking the system for the home directory where
/// the path mentions `~`. Whatever the system answers, the outcome is that
/// of [`fix_path_with`] for some home directory, and for none at all where
/// the path does not mention `~`.
pub fn fix_path(path: &FsPath, cwd: Option<&FsPath>) -> (r: Result<FsPath, Error>)
    ensures
        exists|home: Option<Seq<Seq<char>>>|
            (!mentions_home(path@) ==> home is None) && answers(
                r,
                #[trigger] fixed(path@, view_of(cwd), home),
            ),
{
    let home = lookup_home(path);
    let known = home.as_ref();
    let r = fix_path_with(path, cwd, known);
    assert(answers(r, fixed(path@, view_of(cwd), view_of(known))));
    r
}

/// What becomes of the home directory that the system names, handed over
/// as it came: its components are taken as a path where they form one, and
/// a home directory that is no path counts as none.
pub fn home_from(named: Option<Vec<String>>) -> (r: Option<FsPath>)
    ensures
        match named {
            Some(parts) => (r is Some <==> well_formed(crate::path::texts(parts@))) && (
            r matches Some(p) ==> p@ == crate::path::texts(parts@)),
            None => r is None,
        },
{
    match named {
        Some(parts) => FsPath::from_components(parts),
        None => None,
    }
}

/// Whether the home directory matters to `path`: whether one of its
/// components is `~`.
pub fn needs_home(path: &FsPath) -> (r: bool)
    ensures
        r == mentions_home(path@),
{
    let n: usize = path.len();
    let mut i: usize = 0;
    while i < n
        invariant
            n == path@.len(),
            i <= n,
            forall|j: int| 0 <= j < i ==> !is_home(#[trigger] path@[j]),
        decreases n - i,
    {
        if text_is_home(path.component(i)) {
            return true;
        }
        i += 1;
    }
    false
}

} // verus!
