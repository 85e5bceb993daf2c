//! Paths as sequences of components.
//!
//! A path is the list of its components, first to last. An absolute path
//! starts with the root component `/`; no other component holds a separator.

use vstd::prelude::*;
use vstd::std_specs::cmp::PartialEqSpecImpl;

verus! {

/// The component that stands for the root of the file system.
pub open spec fn is_root(c: Seq<char>) -> bool {
    c.len() == 1 && c[0] == '/'
}

/// The component `.`, the directory itself.
pub open spec fn is_cur_dir(c: Seq<char>) -> bool {
    c.len() == 1 && c[0] == '.'
}

/// The component `..`, the directory above.
pub open spec fn is_parent_dir(c: Seq<char>) -> bool {
    c.len() == 2 && c[0] == '.' && c[1] == '.'
}

/// The component `~`, the user's home directory.
pub open spec fn is_home(c: Seq<char>) -> bool {
    c.len() == 1 && c[0] == '~'
}

/// A component is the root, or a non-empty name without a separator.
pub open spec fn valid_component(c: Seq<char>) -> bool {
    c.len() > 0 && (is_root(c) || !c.contains('/'))
}

/// Every component is valid, and only the first may be the root.
pub open spec fn well_formed(p: Seq<Seq<char>>) -> bool {
    forall|i: int|
        0 <= i < p.len() ==> valid_component(#[trigger] p[i]) && (i > 0 ==> !is_root(p[i]))
}

/// A path is absolute when it starts at the root.
pub open spec fn absolute(p: Seq<Seq<char>>) -> bool {
    p.len() > 0 && is_root(p[0])
}

/// A component that names an entry: neither the root, `.` nor `..`.
pub open spec fn is_normal(c: Seq<char>) -> bool {
    !is_root(c) && !is_cur_dir(c) && !is_parent_dir(c)
}

/// Whether a last component can be taken off: the empty path and the bare
/// root have nothing above them.
pub open spec fn can_pop(p: Seq<Seq<char>>) -> bool {
    p.len() > 0 && !(p.len() == 1 && is_root(p[0]))
}

/// The path without its last component, where it has one to give up.
pub open spec fn popped(p: Seq<Seq<char>>) -> Seq<Seq<char>> {
    if can_pop(p) {
        p.drop_last()
    } else {
        p
    }
}

/// The containing directory, if any.
pub open spec fn parent_of(p: Seq<Seq<char>>) -> Option<Seq<Seq<char>>> {
    if can_pop(p) {
        Some(p.drop_last())
    } else {
        None
    }
}

/// The last component, where it names an entry.
pub open spec fn file_name_of(p: Seq<Seq<char>>) -> Option<Seq<char>> {
    if p.len() > 0 && is_normal(p.last()) {
        Some(p.last())
    } else {
        None
    }
}

/// `other` appended to `p`. An absolute `other` replaces `p`.
pub open spec fn joined(p: Seq<Seq<char>>, other: Seq<Seq<char>>) -> Seq<Seq<char>> {
    if absolute(other) {
        other
    } else {
        p + other
    }
}

/// Whether `base` is a prefix of `p`, component by component.
pub open spec fn starts_with(p: Seq<Seq<char>>, base: Seq<Seq<char>>) -> bool {
    base.len() <= p.len() && p.take(base.len() as int) == base
}

/// The index of the last `.` in a name, or -1.
pub open spec fn last_dot(name: Seq<char>) -> int
    decreases name.len(),
{
    if name.len() == 0 {
        -1
    } else if name.last() == '.' {
        name.len() - 1
    } else {
        last_dot(name.drop_last())
    }
}

/// What follows the last `.` of a name, unless that dot starts the name.
pub open spec fn extension_of_name(name: Seq<char>) -> Option<Seq<char>> {
    if last_dot(name) > 0 {
        Some(name.skip(last_dot(name) + 1))
    } else {
        None
    }
}

/// The name up to its extension.
pub open spec fn stem_of_name(name: Seq<char>) -> Seq<char> {
    if last_dot(name) > 0 {
        name.take(last_dot(name))
    } else {
        name
    }
}

/// The extension of the entry that the path names.
pub open spec fn extension_of(p: Seq<Seq<char>>) -> Option<Seq<char>> {
    match file_name_of(p) {
        Some(name) => extension_of_name(name),
        None => None,
    }
}

/// A name with its extension replaced by `ext`; an empty `ext` leaves the stem.
pub open spec fn name_with_extension(name: Seq<char>, ext: Seq<char>) -> Seq<char> {
    if ext.len() == 0 {
        stem_of_name(name)
    } else {
        stem_of_name(name) + seq!['.'] + ext
    }
}

/// The path with the extension of its entry replaced. A path that names no
/// entry stays as it is.
pub open spec fn with_extension(p: Seq<Seq<char>>, ext: Seq<char>) -> Seq<Seq<char>> {
    match file_name_of(p) {
        Some(name) => p.drop_last().push(name_with_extension(name, ext)),
        None => p,
    }
}

/// The path with its entry replaced by `name`: a sibling of the entry.
pub open spec fn with_file_name(p: Seq<Seq<char>>, name: Seq<Seq<char>>) -> Seq<Seq<char>> {
    if file_name_of(p) is Some {
        joined(p.drop_last(), name)
    } else {
        joined(p, name)
    }
}

/// The components that a list of strings spells out.
pub open spec fn texts(v: Seq<String>) -> Seq<Seq<char>> {
    Seq::new(v.len(), |i: int| v[i]@)
}

/// The components of `p` from `from` up to `to`, both cut to the path's
/// bounds.
pub open spec fn subrange_of(p: Seq<Seq<char>>, from: int, to: int) -> Seq<Seq<char>> {
    let to = if to > p.len() { p.len() as int } else { to };
    if 0 <= from < to {
        p.subrange(from, to)
    } else {
        Seq::<Seq<char>>::empty()
    }
}

/// How many leading components `a` and `b` have in common.
pub open spec fn common_prefix_len(a: Seq<Seq<char>>, b: Seq<Seq<char>>) -> nat
    decreases a.len(),
{
    if a.len() > 0 && b.len() > 0 && a[0] == b[0] {
        1 + common_prefix_len(a.skip(1), b.skip(1))
    } else {
        0
    }
}

/// The common prefix is the longest run of equal leading components.
pub proof fn lemma_common_prefix_len(a: Seq<Seq<char>>, b: Seq<Seq<char>>, n: int)
    requires
        0 <= n <= a.len(),
        n <= b.len(),
        forall|j: int| 0 <= j < n ==> a[j] == b[j],
        n == a.len() || n == b.len() || a[n] != b[n],
    ensures
        common_prefix_len(a, b) == n,
    decreases n,
{
    if n > 0 {
        lemma_common_prefix_len(a.skip(1), b.skip(1), n - 1);
    }
}

/// Whether a separator goes between a path and a component that follows it.
pub open spec fn needs_separator(p: Seq<Seq<char>>) -> bool {
    p.len() > 0 && !is_root(p.last())
}

/// The path written out: its components, with `/` between them.
pub open spec fn text_of(p: Seq<Seq<char>>) -> Seq<char>
    decreases p.len(),
{
    if p.len() == 0 {
        Seq::<char>::empty()
    } else if needs_separator(p.drop_last()) {
        text_of(p.drop_last()) + seq!['/'] + p.last()
    } else {
        text_of(p.drop_last()) + p.last()
    }
}

/// A location in the file system.
#[derive(Debug)]
pub struct FsPath {
    parts: Vec<String>,
}

impl View for FsPath {
    type V = Seq<Seq<char>>;

    closed spec fn view(&self) -> Seq<Seq<char>> {
        texts(self.parts@)
    }
}

/// A dot that no dot follows is the last dot.
pub proof fn lemma_last_dot_at(name: Seq<char>, i: int)
    requires
        0 <= i < name.len(),
        name[i] == '.',
        forall|j: int| i < j < name.len() ==> name[j] != '.',
    ensures
        last_dot(name) == i,
    decreases name.len(),
{
    if name.len() - 1 > i {
        lemma_last_dot_at(name.drop_last(), i);
    }
}

proof fn lemma_last_dot_none(name: Seq<char>)
    requires
        forall|j: int| 0 <= j < name.len() ==> name[j] != '.',
    ensures
        last_dot(name) == -1,
    decreases name.len(),
{
    if name.len() > 0 {
        lemma_last_dot_none(name.drop_last());
    }
}

/// The last dot of a name is a dot, and no dot follows it.
pub proof fn lemma_last_dot(name: Seq<char>)
    ensures
        -1 <= last_dot(name) < name.len(),
        last_dot(name) >= 0 ==> name[last_dot(name)] == '.',
        forall|j: int| last_dot(name) < j < name.len() ==> name[j] != '.',
    decreases name.len(),
{
    if name.len() > 0 && name.last() != '.' {
        let front = name.drop_last();
        lemma_last_dot(front);
        assert forall|j: int| last_dot(name) < j < name.len() implies name[j] != '.' by {
            if j < front.len() {
                assert(name[j] == front[j]);
            }
        }
    }
}

pub fn text_is_root(s: &String) -> (r: bool)
    ensures
        r == is_root(s@),
{
    s.as_str().unicode_len() == 1 && s.as_str().get_char(0) == '/'
}

pub fn text_is_cur_dir(s: &String) -> (r: bool)
    ensures
        r == is_cur_dir(s@),
{
    s.as_str().unicode_len() == 1 && s.as_str().get_char(0) == '.'
}

pub fn text_is_home(s: &String) -> (r: bool)
    ensures
        r == is_home(s@),
{
    s.as_str().unicode_len() == 1 && s.as_str().get_char(0) == '~'
}

pub fn text_is_parent_dir(s: &String) -> (r: bool)
    ensures
        r == is_parent_dir(s@),
{
    s.as_str().unicode_len() == 2 && s.as_str().get_char(0) == '.' && s.as_str().get_char(1) == '.'
}

fn text_has_separator(s: &String) -> (r: bool)
    ensures
        r == s@.contains('/'),
{
    let n: usize = s.as_str().unicode_len();
    let mut i: usize = 0;
    while i < n
        invariant
            n == s@.len(),
            i <= n,
            forall|j: int| 0 <= j < i ==> s@[j] != '/',
        decreases n - i,
    {
        if s.as_str().get_char(i) == '/' {
            return true;
        }
        i += 1;
    }
    false
}

fn find_last_dot(name: &String) -> (r: Option<usize>)
    ensures
        match r {
            Some(i) => last_dot(name@) == i && i < name@.len(),
            None => last_dot(name@) == -1,
        },
{
    let n: usize = name.as_str().unicode_len();
    let mut i: usize = n;
    while i > 0
        invariant
            n == name@.len(),
            i <= n,
            forall|j: int| i <= j < n ==> name@[j] != '.',
        decreases i,
    {
        if name.as_str().get_char(i - 1) == '.' {
            proof {
                lemma_last_dot_at(name@, i - 1);
            }
            return Some(i - 1);
        }
        i -= 1;
    }
    proof {
        lemma_last_dot_none(name@);
    }
    None
}

fn name_extension(name: &String) -> (r: Option<String>)
    ensures
        r.is_some() == extension_of_name(name@).is_some(),
        r matches Some(ext) ==> Some(ext@) == extension_of_name(name@),
{
    match find_last_dot(name) {
        Some(i) => {
            if i > 0 {
                let n: usize = name.as_str().unicode_len();
                let ext = String::from_str(name.as_str().substring_char(i + 1, n));
                assert(ext@ =~= name@.skip(i + 1));
                Some(ext)
            } else {
                None
            }
        },
        None => None,
    }
}

fn name_with_ext(name: &String, ext: &String) -> (r: String)
    ensures
        r@ == name_with_extension(name@, ext@),
{
    let mut r = match find_last_dot(name) {
        Some(i) => {
            if i > 0 {
                let stem = String::from_str(name.as_str().substring_char(0, i));
                assert(stem@ =~= name@.take(i as int));
                stem
            } else {
                name.clone()
            }
        },
        None => name.clone(),
    };
    if ext.as_str().unicode_len() > 0 {
        proof {
            reveal_strlit(".");
        }
        r.append(".");
        assert("."@ =~= seq!['.']);
        r.append(ext.as_str());
    }
    r
}

fn text_is_valid_component(s: &String) -> (r: bool)
    ensures
        r == valid_component(s@),
{
    s.as_str().unicode_len() > 0 && (text_is_root(s) || !text_has_separator(s))
}

impl FsPath {
    #[verifier::type_invariant]
    pub open spec fn inv(&self) -> bool {
        well_formed(self@)
    }

    /// The empty path.
    pub fn new() -> (p: FsPath)
        ensures
            p@ == Seq::<Seq<char>>::empty(),
    {
        let p = FsPath { parts: Vec::new() };
        assert(p@ =~= Seq::<Seq<char>>::empty());
        p
    }

    /// The number of components.
    pub fn len(&self) -> (n: usize)
        ensures
            n == self@.len(),
    {
        self.parts.len()
    }

    /// The path that the given components spell, where they form one.
    pub fn from_components(parts: Vec<String>) -> (p: Option<FsPath>)
        ensures
            p is Some <==> well_formed(texts(parts@)),
            p matches Some(path) ==> path@ == texts(parts@),
    {
        let n: usize = parts.len();
        let mut i: usize = 0;
        while i < n
            invariant
                n == parts@.len(),
                i <= n,
                well_formed(texts(parts@).take(i as int)),
            decreases n - i,
        {
            if !text_is_valid_component(&parts[i]) || (i > 0 && text_is_root(&parts[i])) {
                assert(texts(parts@)[i as int] == parts@[i as int]@);
                return None;
            }
            proof {
                let before = texts(parts@).take(i as int);
                let after = texts(parts@).take(i + 1);
                assert forall|j: int| 0 <= j < after.len() implies valid_component(
                    #[trigger] after[j],
                ) && (j > 0 ==> !is_root(after[j])) by {
                    if j < i {
                        assert(after[j] == before[j]);
                    }
                }
            }
            i += 1;
        }
        assert(texts(parts@).take(n as int) =~= texts(parts@));
        Some(FsPath { parts })
    }

    /// The components, first to last.
    pub fn components(&self) -> (parts: Vec<String>)
        ensures
            texts(parts@) == self@,
    {
        let parts = self.parts.clone();
        assert(texts(parts@) =~= self@);
        parts
    }

    /// Whether the path starts at the root.
    pub fn is_absolute(&self) -> (r: bool)
        ensures
            r == absolute(self@),
    {
        self.parts.len() > 0 && text_is_root(&self.parts[0])
    }

    /// Appends `other`. An absolute `other` takes the place of this path.
    pub fn push(&mut self, other: &FsPath)
        ensures
            final(self)@ == joined(old(self)@, other@),
    {
        proof {
            use_type_invariant(&*self);
            use_type_invariant(other);
        }
        if other.is_absolute() {
            self.parts = other.parts.clone();
            assert(self@ =~= other@);
        } else {
            let mut parts = self.parts.clone();
            assert(texts(parts@) =~= old(self)@);
            let n: usize = other.parts.len();
            let mut i: usize = 0;
            while i < n
                invariant
                    n == other.parts@.len(),
                    i <= n,
                    texts(parts@) == old(self)@ + other@.take(i as int),
                    well_formed(old(self)@),
                    well_formed(other@),
                    !absolute(other@),
                    well_formed(texts(parts@)),
                decreases n - i,
            {
                let ghost before = texts(parts@);
                parts.push(other.parts[i].clone());
                proof {
                    let now = texts(parts@);
                    assert(now =~= before.push(other@[i as int]));
                    assert(other@.take(i + 1) =~= other@.take(i as int).push(other@[i as int]));
                    assert(now =~= old(self)@ + other@.take(i + 1));
                    assert forall|j: int| 0 <= j < now.len() implies valid_component(
                        #[trigger] now[j],
                    ) && (j > 0 ==> !is_root(now[j])) by {
                        if j < before.len() {
                            assert(now[j] == before[j]);
                        }
                    }
                }
                i += 1;
            }
            assert(other@.take(n as int) =~= other@);
            self.parts = parts;
        }
    }

    /// Takes the last component off, where there is one to take.
    pub fn pop(&mut self) -> (r: bool)
        ensures
            r == can_pop(old(self)@),
            final(self)@ == popped(old(self)@),
    {
        proof {
            use_type_invariant(&*self);
        }
        if self.parts.len() == 0 || (self.parts.len() == 1 && text_is_root(&self.parts[0])) {
            false
        } else {
            let ghost before = self@;
            let mut parts = self.parts.clone();
            parts.pop();
            proof {
                let now = texts(parts@);
                assert(now =~= before.drop_last());
                assert forall|j: int| 0 <= j < now.len() implies valid_component(
                    #[trigger] now[j],
                ) && (j > 0 ==> !is_root(now[j])) by {
                    assert(now[j] == before[j]);
                }
            }
            self.parts = parts;
            true
        }
    }

    /// The containing directory, if any.
    pub fn parent(&self) -> (r: Option<FsPath>)
        ensures
            r.is_some() == parent_of(self@).is_some(),
            r matches Some(dir) ==> Some(dir@) == parent_of(self@),
    {
        let mut dir = self.clone();
        if dir.pop() {
            Some(dir)
        } else {
            None
        }
    }

    /// The last component, where it names an entry, as a path of its own.
    pub fn file_name(&self) -> (r: Option<FsPath>)
        ensures
            r.is_some() == file_name_of(self@).is_some(),
            r matches Some(name) ==> name@ == seq![file_name_of(self@)->0],
    {
        let n: usize = self.parts.len();
        if n == 0 {
            return None;
        }
        let last = &self.parts[n - 1];
        assert(last@ == self@.last());
        if text_is_root(last) || text_is_cur_dir(last) || text_is_parent_dir(last) {
            None
        } else {
            Some(self.subpath(n - 1, n))
        }
    }

    /// The components from `from` up to, not including, `to`. Bounds beyond
    /// the path's end are cut to it.
    pub fn subpath(&self, from: usize, to: usize) -> (r: FsPath)
        ensures
            r@ == subrange_of(self@, from as int, to as int),
    {
        proof {
            use_type_invariant(self);
        }
        let n: usize = self.parts.len();
        let to: usize = if to > n { n } else { to };
        let mut parts: Vec<String> = Vec::new();
        if from >= to {
            assert(texts(parts@) =~= Seq::<Seq<char>>::empty());
            return FsPath { parts };
        }
        let mut i: usize = from;
        assert(texts(parts@) =~= self@.subrange(from as int, i as int));
        while i < to
            invariant
                n == self@.len(),
                from <= i <= to <= n,
                texts(parts@) == self@.subrange(from as int, i as int),
            decreases to - i,
        {
            let ghost before = texts(parts@);
            parts.push(self.parts[i].clone());
            assert(texts(parts@) =~= before.push(self@[i as int]));
            assert(texts(parts@) =~= self@.subrange(from as int, i + 1));
            i += 1;
        }
        proof {
            let now = texts(parts@);
            assert forall|j: int| 0 <= j < now.len() implies valid_component(#[trigger] now[j]) && (
            j > 0 ==> !is_root(now[j])) by {
                assert(now[j] == self@[from + j]);
            }
        }
        FsPath { parts }
    }

    /// The name of the entry that the path names, as text.
    pub fn file_name_text(&self) -> (r: Option<String>)
        ensures
            r.is_some() == file_name_of(self@).is_some(),
            r matches Some(name) ==> Some(name@) == file_name_of(self@),
    {
        let n: usize = self.parts.len();
        if n == 0 {
            return None;
        }
        let last = &self.parts[n - 1];
        assert(last@ == self@.last());
        if text_is_root(last) || text_is_cur_dir(last) || text_is_parent_dir(last) {
            None
        } else {
            Some(last.clone())
        }
    }

    /// How many leading components this path and `other` share.
    pub fn common_prefix_len(&self, other: &FsPath) -> (n: usize)
        ensures
            n == common_prefix_len(self@, other@),
    {
        let a: usize = self.parts.len();
        let b: usize = other.parts.len();
        let mut i: usize = 0;
        while i < a && i < b && self.parts[i] == other.parts[i]
            invariant
                a == self@.len(),
                b == other@.len(),
                i <= a,
                i <= b,
                forall|j: int| 0 <= j < i ==> self@[j] == other@[j],
            decreases a - i,
        {
            i += 1;
        }
        proof {
            lemma_common_prefix_len(self@, other@, i as int);
        }
        i
    }

    /// The extension of the entry that the path names.
    pub fn extension(&self) -> (r: Option<String>)
        ensures
            r.is_some() == extension_of(self@).is_some(),
            r matches Some(ext) ==> Some(ext@) == extension_of(self@),
    {
        match self.file_name_text() {
            Some(name) => name_extension(&name),
            None => None,
        }
    }

    /// Puts `name` in the place of the entry that the path names: the result
    /// is a sibling of that entry.
    pub fn set_file_name(&mut self, name: &FsPath)
        ensures
            final(self)@ == with_file_name(old(self)@, name@),
    {
        if self.file_name().is_some() {
            self.pop();
        }
        self.push(name);
    }

    /// Replaces the extension of the entry that the path names; an empty
    /// `ext` removes it. Returns whether the path names an entry.
    pub fn set_extension(&mut self, ext: &String) -> (r: bool)
        requires
            !ext@.contains('/'),
        ensures
            r == file_name_of(old(self)@).is_some(),
            final(self)@ == with_extension(old(self)@, ext@),
    {
        proof {
            use_type_invariant(&*self);
        }
        match self.file_name_text() {
            Some(name) => {
                let renamed = name_with_ext(&name, ext);
                let ghost before = self@;
                let mut parts = self.parts.clone();
                parts.pop();
                parts.push(renamed);
                proof {
                    let now = texts(parts@);
                    lemma_last_dot(name@);
                    assert(now =~= before.drop_last().push(renamed@));
                    assert(valid_component(name@));
                    assert(!name@.contains('/'));
                    assert forall|k: int| 0 <= k < renamed@.len() implies renamed@[k] != '/' by {
                        let stem = stem_of_name(name@);
                        if k < stem.len() {
                            assert(renamed@[k] == name@[k]);
                            assert(name@.contains(name@[k]));
                        } else if ext@.len() > 0 && k > stem.len() {
                            assert(renamed@[k] == ext@[k - stem.len() - 1]);
                            assert(ext@.contains(ext@[k - stem.len() - 1]));
                        }
                    }
                    assert(!renamed@.contains('/'));
                    assert forall|j: int| 0 <= j < now.len() implies valid_component(
                        #[trigger] now[j],
                    ) && (j > 0 ==> !is_root(now[j])) by {
                        if j < now.len() - 1 {
                            assert(now[j] == before[j]);
                        } else {
                            assert(now[j] == renamed@);
                            assert(renamed@.len() > 0 ==> renamed@.contains(renamed@[0]));
                        }
                    }
                }
                self.parts = parts;
                true
            },
            None => false,
        }
    }

    /// The path written out, with `/` between its components.
    pub fn to_text(&self) -> (text: String)
        ensures
            text@ == text_of(self@),
    {
        let mut text = String::new();
        let n: usize = self.parts.len();
        let mut i: usize = 0;
        while i < n
            invariant
                n == self@.len(),
                i <= n,
                text@ == text_of(self@.take(i as int)),
            decreases n - i,
        {
            proof {
                reveal_strlit("/");
                assert(self@.take(i + 1).drop_last() =~= self@.take(i as int));
                assert(self@.take(i + 1).last() == self@[i as int]);
            }
            if i > 0 && !text_is_root(&self.parts[i - 1]) {
                assert(self@.take(i as int).last() == self@[i - 1]);
                text.append("/");
                assert("/"@ =~= seq!['/']);
            }
            text.append(self.parts[i].as_str());
            i += 1;
        }
        assert(self@.take(n as int) =~= self@);
        text
    }

    /// Whether `base` is a prefix of this path, component by component.
    pub fn starts_with(&self, base: &FsPath) -> (r: bool)
        ensures
            r == starts_with(self@, base@),
    {
        let n: usize = base.parts.len();
        if n > self.parts.len() {
            return false;
        }
        let mut i: usize = 0;
        while i < n
            invariant
                n == base@.len(),
                n <= self@.len(),
                i <= n,
                self@.take(i as int) == base@.take(i as int),
            decreases n - i,
        {
            if self.parts[i] != base.parts[i] {
                assert(self@.take(n as int)[i as int] != base@[i as int]);
                return false;
            }
            assert(self@.take(i + 1) =~= self@.take(i as int).push(self@[i as int]));
            assert(base@.take(i + 1) =~= base@.take(i as int).push(base@[i as int]));
            i += 1;
        }
        assert(base@.take(n as int) =~= base@);
        true
    }

    /// The component at `i`.
    pub fn component(&self, i: usize) -> (c: &String)
        requires
            i < self@.len(),
        ensures
            c@ == self@[i as int],
    {
        &self.parts[i]
    }
}

impl Clone for FsPath {
    fn clone(&self) -> (p: FsPath)
        ensures
            p@ == self@,
    {
        proof {
            use_type_invariant(self);
        }
        let p = FsPath { parts: self.parts.clone() };
        assert(p@ =~= self@);
        p
    }
}

impl PartialEq for FsPath {
    fn eq(&self, other: &FsPath) -> (r: bool) {
        let same = self.len() == other.len() && self.starts_with(other);
        assert(self@.len() == other@.len() ==> self@.take(other@.len() as int) =~= self@);
        same
    }
}

impl PartialEqSpecImpl for FsPath {
    open spec fn obeys_eq_spec() -> bool {
        true
    }

    open spec fn eq_spec(&self, other: &FsPath) -> bool {
        self@ == other@
    }
}

} // verus!
