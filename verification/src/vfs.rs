//! A value-level view of the served directory tree.
//!
//! The resolution logic never touches the real filesystem: the caller walks
//! the canonicalized server root and hands the library one `FsSnapshot`,
//! a list of entries keyed by their root-relative segment paths. Because
//! every snapshot path is a well-formed relative path (no empty, `.` or
//! `..` segments), everything resolved out of a snapshot is a descendant
//! of the root by construction.

use vstd::prelude::*;

use crate::strutil::lex_le;
use crate::strutil::lemma_lex_antisym;
use crate::strutil::lemma_lex_total;
use crate::strutil::str_eq;
use crate::strutil::str_lex_le;

verus! {

/// A point in time: seconds and subsecond nanoseconds since the Unix epoch.
pub struct Timestamp {
    pub secs: i64,
    pub nanos: u32,
}

/// One entry of the tree: a file or a directory with its shallow metadata.
pub struct FsEntry {
    /// Root-relative path, one segment per component.
    pub path: Vec<String>,
    pub is_dir: bool,
    /// Size in bytes; zero for directories.
    pub len: u64,
    pub readonly: bool,
    pub modified: Option<Timestamp>,
    pub accessed: Option<Timestamp>,
    pub created: Option<Timestamp>,
}

/// The text of one per-directory override file, keyed by its directory.
pub struct DirOverride {
    /// Root-relative path of the directory holding the override file.
    pub dir: Vec<String>,
    /// Raw text of the override document.
    pub text: String,
}

/// A snapshot of the directory tree under the canonicalized server root.
pub struct FsSnapshot {
    pub entries: Vec<FsEntry>,
    pub overrides: Vec<DirOverride>,
}

/// A well-formed path segment: non-empty, no separator, not `.` or `..`.
pub open spec fn seg_ok(s: Seq<char>) -> bool {
    &&& s.len() > 0
    &&& !s.contains('/')
    &&& s != seq!['.']
    &&& s != seq!['.', '.']
}

/// A well-formed root-relative path: every segment is well-formed.
pub open spec fn path_ok(p: Seq<Seq<char>>) -> bool {
    forall|i: int| 0 <= i < p.len() ==> seg_ok(#[trigger] p[i])
}

impl FsSnapshot {
    /// Some entry carries exactly this path.
    pub open spec fn has_entry_at(&self, p: Seq<Seq<char>>) -> bool {
        exists|i: int|
            0 <= i < self.entries@.len() && #[trigger] self.entries@[i].path.deep_view() == p
    }

    /// A regular file sits at this path.
    pub open spec fn has_file_at(&self, p: Seq<Seq<char>>) -> bool {
        exists|i: int|
            0 <= i < self.entries@.len() && #[trigger] self.entries@[i].path.deep_view() == p
                && !self.entries@[i].is_dir
    }

    /// A directory sits at this path; the root itself is always a directory.
    pub open spec fn has_dir_at(&self, p: Seq<Seq<char>>) -> bool {
        ||| p.len() == 0
        ||| exists|i: int|
            0 <= i < self.entries@.len() && #[trigger] self.entries@[i].path.deep_view() == p
                && self.entries@[i].is_dir
    }

    /// Well-formed snapshot: every path well-formed and non-empty, no two
    /// entries share a path, no two overrides share a directory.
    pub open spec fn wf(&self) -> bool {
        &&& forall|i: int|
            0 <= i < self.entries@.len() ==> path_ok(#[trigger] self.entries@[i].path.deep_view())
                && self.entries@[i].path@.len() > 0
        &&& forall|i: int, j: int|
            0 <= i < j < self.entries@.len() ==> #[trigger] self.entries@[i].path.deep_view()
                != #[trigger] self.entries@[j].path.deep_view()
        &&& forall|i: int, j: int|
            0 <= i < j < self.overrides@.len() ==> #[trigger] self.overrides@[i].dir.deep_view()
                != #[trigger] self.overrides@[j].dir.deep_view()
    }

    /// A per-directory override file sits in this directory.
    pub open spec fn has_override_at(&self, dir: Seq<Seq<char>>) -> bool {
        exists|i: int|
            0 <= i < self.overrides@.len() && #[trigger] self.overrides@[i].dir.deep_view() == dir
    }

    /// The text of the override file in this directory, if one exists.
    pub open spec fn override_text_at(&self, dir: Seq<Seq<char>>) -> Option<Seq<char>> {
        if self.has_override_at(dir) {
            let i = choose|i: int|
                0 <= i < self.overrides@.len() && #[trigger] self.overrides@[i].dir.deep_view()
                    == dir;
            Some(self.overrides@[i].text@)
        } else {
            None
        }
    }

    /// Finds the override text of a directory.
    pub fn override_lookup(&self, dir: &Vec<String>) -> (r: Option<String>)
        requires
            self.wf(),
        ensures
            r.deep_view() == self.override_text_at(dir.deep_view()),
    {
        let n = self.overrides.len();
        let mut i: usize = 0;
        while i < n
            invariant
                n == self.overrides@.len(),
                i <= n,
                self.wf(),
                forall|j: int|
                    0 <= j < i ==> #[trigger] self.overrides@[j].dir.deep_view()
                        != dir.deep_view(),
            decreases n - i,
        {
            if path_eq(&self.overrides[i].dir, dir) {
                let text = self.overrides[i].text.clone();
                proof {
                    assert(self.has_override_at(dir.deep_view()));
                    let w = choose|w: int|
                        0 <= w < self.overrides@.len()
                            && #[trigger] self.overrides@[w].dir.deep_view() == dir.deep_view();
                    if w != i as int {
                        assert(self.overrides@[w].dir.deep_view() != self.overrides@[
                            i as int].dir.deep_view());
                    }
                }
                return Some(text);
            }
            i = i + 1;
        }
        None
    }
}

/// The override texts found along the ancestor chain of `p`, root-first,
/// the path's own directory last; a directory without an override file
/// contributes nothing at its position.
pub fn ancestor_texts(snap: &FsSnapshot, p: &Vec<String>) -> (r: Vec<Option<String>>)
    requires
        snap.wf(),
    ensures
        r@.len() == p@.len() + 1,
        forall|k: int|
            0 <= k <= p@.len() ==> #[trigger] r.deep_view()[k] == snap.override_text_at(
                p.deep_view().subrange(0, k),
            ),
{
    let prefixes = path_prefixes(p);
    let n = prefixes.len();
    let mut out: Vec<Option<String>> = Vec::new();
    let mut k: usize = 0;
    while k < n
        invariant
            snap.wf(),
            n == prefixes@.len(),
            n == p@.len() + 1,
            forall|t: int|
                0 <= t < n ==> #[trigger] prefixes.deep_view()[t] == p.deep_view().subrange(0, t),
            k <= n,
            out@.len() == k,
            forall|t: int|
                0 <= t < k ==> #[trigger] out.deep_view()[t] == snap.override_text_at(
                    p.deep_view().subrange(0, t),
                ),
        decreases n - k,
    {
        let ghost dv0 = out.deep_view();
        let found = snap.override_lookup(&prefixes[k]);
        proof {
            assert(prefixes.deep_view()[k as int] == prefixes@[k as int].deep_view());
        }
        out.push(found);
        proof {
            assert forall|t: int| 0 <= t < k + 1 implies #[trigger] out.deep_view()[t]
                == snap.override_text_at(p.deep_view().subrange(0, t)) by {
                if t < k {
                    assert(out.deep_view()[t] == dv0[t]);
                }
            }
        }
        k = k + 1;
    }
    out
}

/// Segment-by-segment equality of two paths.
pub fn path_eq(a: &Vec<String>, b: &Vec<String>) -> (r: bool)
    ensures
        r == (a.deep_view() == b.deep_view()),
{
    if a.len() != b.len() {
        assert(a.deep_view().len() != b.deep_view().len());
        return false;
    }
    let n = a.len();
    let mut i: usize = 0;
    while i < n
        invariant
            n == a@.len() == b@.len(),
            i <= n,
            forall|j: int| 0 <= j < i ==> a.deep_view()[j] == b.deep_view()[j],
        decreases n - i,
    {
        if !str_eq(a[i].as_str(), b[i].as_str()) {
            assert(a.deep_view()[i as int] != b.deep_view()[i as int]);
            return false;
        }
        i = i + 1;
    }
    proof {
        assert(a.deep_view() =~= b.deep_view());
    }
    true
}

impl FsSnapshot {
    /// Finds the entry holding exactly this path.
    pub fn lookup(&self, p: &Vec<String>) -> (r: Option<usize>)
        ensures
            match r {
                Some(i) => i < self.entries@.len() && self.entries@[i as int].path.deep_view()
                    == p.deep_view(),
                None => !self.has_entry_at(p.deep_view()),
            },
    {
        let n = self.entries.len();
        let mut i: usize = 0;
        while i < n
            invariant
                n == self.entries@.len(),
                i <= n,
                forall|j: int|
                    0 <= j < i ==> #[trigger] self.entries@[j].path.deep_view() != p.deep_view(),
            decreases n - i,
        {
            if path_eq(&self.entries[i].path, p) {
                return Some(i);
            }
            i = i + 1;
        }
        None
    }

    /// Is there a regular file at this path?
    pub fn is_file(&self, p: &Vec<String>) -> (r: bool)
        requires
            self.wf(),
        ensures
            r == self.has_file_at(p.deep_view()),
    {
        match self.lookup(p) {
            Some(i) => {
                let e = &self.entries[i];
                proof {
                    if e.is_dir {
                        assert forall|j: int|
                            0 <= j < self.entries@.len()
                                && #[trigger] self.entries@[j].path.deep_view() == p.deep_view()
                            implies self.entries@[j].is_dir by {
                            if j != i as int {
                                assert(self.entries@[j].path.deep_view() != self.entries@[
                                    i as int].path.deep_view());
                            }
                        }
                    }
                }
                !e.is_dir
            },
            None => false,
        }
    }

    /// Is there a directory at this path (the root always counts)?
    pub fn is_dir(&self, p: &Vec<String>) -> (r: bool)
        requires
            self.wf(),
        ensures
            r == self.has_dir_at(p.deep_view()),
    {
        if p.len() == 0 {
            return true;
        }
        assert(p.deep_view().len() == p@.len());
        match self.lookup(p) {
            Some(i) => {
                let e = &self.entries[i];
                proof {
                    if !e.is_dir {
                        assert forall|j: int|
                            0 <= j < self.entries@.len()
                                && #[trigger] self.entries@[j].path.deep_view() == p.deep_view()
                            implies !self.entries@[j].is_dir by {
                            if j != i as int {
                                assert(self.entries@[j].path.deep_view() != self.entries@[
                                    i as int].path.deep_view());
                            }
                        }
                    }
                }
                e.is_dir
            },
            None => false,
        }
    }
}

/// An entry directly inside the directory `dir`.
pub open spec fn is_child_of(e: FsEntry, dir: Seq<Seq<char>>) -> bool {
    &&& e.path.deep_view().len() == dir.len() + 1
    &&& e.path.deep_view().subrange(0, dir.len() as int) == dir
}

/// The indices of the entries directly inside `dir`, in entry order.
pub open spec fn child_indices(s: Seq<FsEntry>, dir: Seq<Seq<char>>) -> Seq<int>
    decreases s.len(),
{
    if s.len() == 0 {
        Seq::empty()
    } else {
        let r = child_indices(s.drop_last(), dir);
        if is_child_of(s.last(), dir) {
            r.push(s.len() - 1)
        } else {
            r
        }
    }
}

/// Every child index is a valid index of a child entry.
pub proof fn lemma_child_indices_valid(s: Seq<FsEntry>, dir: Seq<Seq<char>>)
    ensures
        forall|k: int|
            0 <= k < child_indices(s, dir).len() ==> 0 <= #[trigger] child_indices(s, dir)[k]
                < s.len() && is_child_of(s[child_indices(s, dir)[k]], dir),
    decreases s.len(),
{
    if s.len() > 0 {
        lemma_child_indices_valid(s.drop_last(), dir);
        let r = child_indices(s.drop_last(), dir);
        assert(forall|i: int| 0 <= i < s.len() - 1 ==> s.drop_last()[i] == s[i]);
        assert forall|k: int| 0 <= k < child_indices(s, dir).len() implies 0
            <= #[trigger] child_indices(s, dir)[k] < s.len() && is_child_of(
            s[child_indices(s, dir)[k]],
            dir,
        ) by {
            if k < r.len() {
                assert(child_indices(s, dir)[k] == r[k]);
            } else {
                assert(child_indices(s, dir)[k] == s.len() - 1);
            }
        }
    }
}

/// Checks whether an entry sits directly inside `dir`.
fn entry_is_child(e: &FsEntry, dir: &Vec<String>) -> (r: bool)
    ensures
        r == is_child_of(*e, dir.deep_view()),
{
    let dn = dir.len();
    let pn = e.path.len();
    if pn == 0 || pn - 1 != dn {
        return false;
    }
    let mut j: usize = 0;
    while j < dn
        invariant
            dn == dir@.len(),
            e.path@.len() == dn + 1,
            j <= dn,
            forall|k: int| 0 <= k < j ==> e.path.deep_view()[k] == dir.deep_view()[k],
        decreases dn - j,
    {
        if !str_eq(e.path[j].as_str(), dir[j].as_str()) {
            assert(e.path.deep_view()[j as int] != dir.deep_view()[j as int]);
            assert(e.path.deep_view().subrange(0, dn as int)[j as int] == e.path.deep_view()[
                j as int]);
            return false;
        }
        j = j + 1;
    }
    proof {
        assert(e.path.deep_view().subrange(0, dn as int) =~~= dir.deep_view());
    }
    true
}

impl FsSnapshot {
    /// The indices of the entries directly inside `dir`, in entry order.
    pub fn children(&self, dir: &Vec<String>) -> (r: Vec<usize>)
        ensures
            r@.map_values(|u: usize| u as int) == child_indices(self.entries@, dir.deep_view()),
    {
        let n = self.entries.len();
        let mut out: Vec<usize> = Vec::new();
        let mut i: usize = 0;
        proof {
            assert(out@.map_values(|u: usize| u as int) =~= Seq::<int>::empty());
            assert(self.entries@.subrange(0, 0) =~= Seq::<FsEntry>::empty());
        }
        while i < n
            invariant
                n == self.entries@.len(),
                i <= n,
                out@.map_values(|u: usize| u as int) == child_indices(
                    self.entries@.subrange(0, i as int),
                    dir.deep_view(),
                ),
            decreases n - i,
        {
            let ghost pre = self.entries@.subrange(0, i as int);
            let ghost post = self.entries@.subrange(0, i + 1);
            let ghost m0 = out@.map_values(|u: usize| u as int);
            proof {
                assert(post.drop_last() =~= pre);
                assert(post.last() == self.entries@[i as int]);
            }
            if entry_is_child(&self.entries[i], dir) {
                out.push(i);
                proof {
                    assert(out@.map_values(|u: usize| u as int) =~= m0.push(i as int));
                }
            }
            i = i + 1;
        }
        proof {
            assert(self.entries@.subrange(0, n as int) =~= self.entries@);
        }
        out
    }
}

/// The chain of prefixes of `p`: the root, then each deeper directory,
/// ending with `p` itself.
pub fn path_prefixes(p: &Vec<String>) -> (r: Vec<Vec<String>>)
    ensures
        r@.len() == p@.len() + 1,
        forall|k: int|
            0 <= k <= p@.len() ==> #[trigger] r.deep_view()[k] == p.deep_view().subrange(0, k),
{
    let n = p.len();
    let mut out: Vec<Vec<String>> = Vec::new();
    let mut prefix: Vec<String> = Vec::new();
    let mut k: usize = 0;
    proof {
        assert(prefix.deep_view() =~~= p.deep_view().subrange(0, 0));
    }
    while k < n
        invariant
            n == p@.len(),
            k <= n,
            out@.len() == k,
            prefix.deep_view() == p.deep_view().subrange(0, k as int),
            forall|j: int|
                0 <= j < k ==> #[trigger] out.deep_view()[j] == p.deep_view().subrange(0, j),
        decreases n - k,
    {
        let ghost dv0 = out.deep_view();
        out.push(prefix.clone());
        proof {
            assert(out.deep_view() =~~= dv0.push(p.deep_view().subrange(0, k as int)));
        }
        let ghost pv0 = prefix.deep_view();
        prefix.push(p[k].clone());
        proof {
            assert(prefix.deep_view() =~~= pv0.push(p.deep_view()[k as int]));
            assert(p.deep_view().subrange(0, k as int).push(p.deep_view()[k as int])
                =~~= p.deep_view().subrange(0, k + 1));
        }
        k = k + 1;
    }
    let ghost dv0 = out.deep_view();
    out.push(prefix);
    proof {
        assert(p.deep_view().subrange(0, n as int) =~~= p.deep_view());
        assert(out.deep_view() =~~= dv0.push(p.deep_view().subrange(0, n as int)));
    }
    out
}

/// A copy of `dir` with one more segment at the end.
pub fn path_join(dir: &Vec<String>, name: &String) -> (r: Vec<String>)
    ensures
        r.deep_view() == dir.deep_view().push(name@),
{
    let mut out = dir.clone();
    let ghost dv0 = out.deep_view();
    proof {
        assert(dv0 =~~= dir.deep_view());
    }
    out.push(name.clone());
    proof {
        assert(out.deep_view() =~= dir.deep_view().push(name@));
    }
    out
}

/// The names among `names` whose file `dir/<name>` exists in the snapshot,
/// in the order given.
pub open spec fn existing_names(
    snap: FsSnapshot,
    dir: Seq<Seq<char>>,
    names: Seq<Seq<char>>,
) -> Seq<Seq<char>> {
    names.filter(|n: Seq<char>| snap.has_file_at(dir.push(n)))
}

/// Every existing name is one of the candidates and names a file.
pub proof fn lemma_existing_names_are_files(
    snap: FsSnapshot,
    dir: Seq<Seq<char>>,
    names: Seq<Seq<char>>,
)
    ensures
        forall|k: int|
            0 <= k < existing_names(snap, dir, names).len() ==> names.contains(
                #[trigger] existing_names(snap, dir, names)[k],
            ) && snap.has_file_at(dir.push(existing_names(snap, dir, names)[k])),
    decreases names.len(),
{
    reveal(Seq::filter);
    if names.len() > 0 {
        lemma_existing_names_are_files(snap, dir, names.drop_last());
        let ex = existing_names(snap, dir, names);
        let expre = existing_names(snap, dir, names.drop_last());
        assert forall|k: int| 0 <= k < ex.len() implies names.contains(#[trigger] ex[k])
            && snap.has_file_at(dir.push(ex[k])) by {
            if k < expre.len() {
                assert(ex[k] == expre[k]);
                assert(names.drop_last().contains(expre[k]));
                let j = choose|j: int|
                    0 <= j < names.drop_last().len() && names.drop_last()[j] == expre[k];
                assert(names[j] == expre[k]);
            } else {
                assert(ex[k] == names.last());
                assert(names[names.len() - 1] == names.last());
            }
        }
    }
}

/// A candidate whose file exists is among the existing names.
pub proof fn lemma_existing_names_complete(
    snap: FsSnapshot,
    dir: Seq<Seq<char>>,
    names: Seq<Seq<char>>,
    x: Seq<char>,
)
    requires
        names.contains(x),
        snap.has_file_at(dir.push(x)),
    ensures
        existing_names(snap, dir, names).contains(x),
    decreases names.len(),
{
    reveal(Seq::filter);
    let ex = existing_names(snap, dir, names);
    let j = choose|j: int| 0 <= j < names.len() && names[j] == x;
    if j == names.len() - 1 {
        assert(ex.last() == x);
        assert(ex.contains(x)) by {
            assert(ex[ex.len() - 1] == x);
        }
    } else {
        assert(names.drop_last()[j] == x);
        assert(names.drop_last().contains(x)) by {
            assert(names.drop_last()[j] == x);
        }
        lemma_existing_names_complete(snap, dir, names.drop_last(), x);
        let expre = existing_names(snap, dir, names.drop_last());
        let k = choose|k: int| 0 <= k < expre.len() && expre[k] == x;
        assert(ex[k] == x);
        assert(ex.contains(x)) by {
            assert(ex[k] == x);
        }
    }
}

/// In a well-formed snapshot, anything that exists on disk sits on a
/// well-formed root-relative path — it is a descendant of the root.
pub proof fn lemma_entry_path_ok(snap: FsSnapshot, p: Seq<Seq<char>>)
    requires
        snap.wf(),
        snap.has_file_at(p) || snap.has_dir_at(p),
    ensures
        path_ok(p),
{
    if p.len() > 0 {
        if snap.has_file_at(p) {
            let i = choose|i: int|
                0 <= i < snap.entries@.len() && #[trigger] snap.entries@[i].path.deep_view() == p
                    && !snap.entries@[i].is_dir;
            assert(path_ok(snap.entries@[i].path.deep_view()));
        } else {
            let i = choose|i: int|
                0 <= i < snap.entries@.len() && #[trigger] snap.entries@[i].path.deep_view() == p
                    && snap.entries@[i].is_dir;
            assert(path_ok(snap.entries@[i].path.deep_view()));
        }
    }
}

/// `x` occurs in `s` and is lexicographically no greater than any element.
pub open spec fn is_min_name(x: Seq<char>, s: Seq<Seq<char>>) -> bool {
    &&& s.contains(x)
    &&& forall|k: int| 0 <= k < s.len() ==> lex_le(x, #[trigger] s[k])
}

/// The minimum is determined by which names exist, not by their order:
/// two name lists with the same members elect the same minimum.
pub proof fn lemma_min_name_unique(x: Seq<char>, y: Seq<char>, s: Seq<Seq<char>>, t: Seq<Seq<char>>)
    requires
        is_min_name(x, s),
        is_min_name(y, t),
        forall|z: Seq<char>| s.contains(z) <==> t.contains(z),
    ensures
        x == y,
{
    assert(t.contains(x));
    assert(s.contains(y));
    let kx = choose|k: int| 0 <= k < t.len() && t[k] == x;
    let ky = choose|k: int| 0 <= k < s.len() && s[k] == y;
    assert(lex_le(y, t[kx]));
    assert(lex_le(x, s[ky]));
    lemma_lex_antisym(x, y);
}

impl FsSnapshot {
    /// Of the given candidate names, picks the lexicographically smallest
    /// one for which `dir/<name>` is a regular file.
    pub fn pick_min_existing(&self, dir: &Vec<String>, names: &Vec<String>) -> (r: Option<String>)
        requires
            self.wf(),
        ensures
            match r {
                Some(n) => is_min_name(
                    n@,
                    existing_names(*self, dir.deep_view(), names.deep_view()),
                ),
                None => existing_names(*self, dir.deep_view(), names.deep_view()).len() == 0,
            },
    {
        let m = names.len();
        let ghost dirv = dir.deep_view();
        let mut best: Option<String> = None;
        let mut i: usize = 0;
        proof {
            reveal(Seq::filter);
            assert(names.deep_view().subrange(0, 0) =~~= Seq::<Seq<char>>::empty());
            assert(existing_names(*self, dirv, names.deep_view().subrange(0, 0)).len() == 0);
        }
        while i < m
            invariant
                m == names@.len(),
                i <= m,
                self.wf(),
                dirv == dir.deep_view(),
                match best {
                    Some(b) => is_min_name(
                        b@,
                        existing_names(*self, dirv, names.deep_view().subrange(0, i as int)),
                    ),
                    None => existing_names(
                        *self,
                        dirv,
                        names.deep_view().subrange(0, i as int),
                    ).len() == 0,
                },
            decreases m - i,
        {
            let ghost pre = names.deep_view().subrange(0, i as int);
            let ghost post = names.deep_view().subrange(0, i + 1);
            let ghost expre = existing_names(*self, dirv, pre);
            let ghost expost = existing_names(*self, dirv, post);
            proof {
                reveal(Seq::filter);
                assert(post.drop_last() =~~= pre);
                assert(post.last() == names.deep_view()[i as int]);
            }
            let name = &names[i];
            let full = path_join(dir, name);
            let exists_here = self.is_file(&full);
            proof {
                reveal(Seq::filter);
                assert(full.deep_view() == dirv.push(name@));
                if exists_here {
                    assert(expost == expre.push(name@));
                } else {
                    assert(expost == expre);
                }
            }
            if exists_here {
                match &best {
                    None => {
                        proof {
                            assert(expost.len() == 1);
                            assert(expost[0] == name@);
                            assert(expost.contains(name@));
                        }
                        best = Some(name.clone());
                    },
                    Some(b) => {
                        let keep = str_lex_le(b.as_str(), name.as_str());
                        proof {
                            assert(forall|k: int|
                                0 <= k < expre.len() ==> expost[k] == #[trigger] expre[k]);
                            assert(expost.last() == name@);
                            if !keep {
                                lemma_lex_total(b@, name@);
                                assert(lex_le(name@, b@));
                                assert forall|k: int| 0 <= k < expost.len() implies lex_le(
                                    name@,
                                    #[trigger] expost[k],
                                ) by {
                                    if k < expre.len() {
                                        crate::strutil::lemma_lex_trans(name@, b@, expre[k]);
                                    }
                                }
                                assert(expost.contains(name@)) by {
                                    assert(expost.last() == name@);
                                }
                            } else {
                                assert(expre.contains(b@));
                                let kb = choose|k: int| 0 <= k < expre.len() && expre[k] == b@;
                                assert(expost[kb] == b@);
                                assert(expost.contains(b@));
                            }
                        }
                        if !keep {
                            best = Some(name.clone());
                        }
                    },
                }
            }
            i = i + 1;
        }
        proof {
            assert(names.deep_view().subrange(0, m as int) =~~= names.deep_view());
        }
        best
    }
}

/// Normalizing raw URI segments: empty and `.` segments vanish, `..` pops
/// the previous segment, and popping past the root fails — such a request
/// escapes the root and must resolve to nothing.
pub open spec fn normalize_spec(raw: Seq<Seq<char>>) -> Option<Seq<Seq<char>>>
    decreases raw.len(),
{
    if raw.len() == 0 {
        Some(Seq::empty())
    } else {
        match normalize_spec(raw.drop_last()) {
            None => None,
            Some(p) => {
                let s = raw.last();
                if s.len() == 0 || s == seq!['.'] {
                    Some(p)
                } else if s == seq!['.', '.'] {
                    if p.len() == 0 {
                        None
                    } else {
                        Some(p.drop_last())
                    }
                } else {
                    Some(p.push(s))
                }
            },
        }
    }
}

/// Normalizes raw URI segments into a root-relative path.
pub fn normalize_segments(raw: &Vec<String>) -> (r: Option<Vec<String>>)
    ensures
        match r {
            Some(p) => normalize_spec(raw.deep_view()) == Some(p.deep_view()),
            None => normalize_spec(raw.deep_view()) is None,
        },
{
    let n = raw.len();
    let mut out: Vec<String> = Vec::new();
    let mut i: usize = 0;
    proof {
        assert(raw.deep_view().subrange(0, 0) =~= Seq::<Seq<char>>::empty());
        assert(out.deep_view() =~= Seq::<Seq<char>>::empty());
    }
    while i < n
        invariant
            n == raw@.len(),
            i <= n,
            normalize_spec(raw.deep_view().subrange(0, i as int)) == Some(out.deep_view()),
        decreases n - i,
    {
        let ghost pre = raw.deep_view().subrange(0, i as int);
        let ghost post = raw.deep_view().subrange(0, i + 1);
        let ghost dv0 = out.deep_view();
        proof {
            assert(post.drop_last() =~= pre);
            assert(post.last() == raw.deep_view()[i as int]);
        }
        let s = &raw[i];
        let empty_or_dot = s.as_str().unicode_len() == 0 || str_eq(s.as_str(), ".");
        proof {
            reveal_strlit(".");
            reveal_strlit("..");
            assert("."@ =~= seq!['.']);
            assert(".."@ =~= seq!['.', '.']);
        }
        if empty_or_dot {
            // the segment vanishes
        } else if str_eq(s.as_str(), "..") {
            if out.len() == 0 {
                proof {
                    assert(dv0.len() == 0);
                    assert(normalize_spec(post) is None);
                    assert(raw.deep_view().subrange(0, n as int) =~= raw.deep_view());
                    lemma_normalize_none_extends(raw.deep_view(), i + 1);
                }
                return None;
            }
            out.pop();
            proof {
                assert(out.deep_view() =~= dv0.drop_last());
            }
        } else {
            let seg = s.clone();
            out.push(seg);
            proof {
                assert(out.deep_view() =~= dv0.push(raw.deep_view()[i as int]));
            }
        }
        i = i + 1;
    }
    proof {
        assert(raw.deep_view().subrange(0, n as int) =~= raw.deep_view());
    }
    Some(out)
}

/// Once normalization has failed on a prefix, it fails on the whole input.
pub proof fn lemma_normalize_none_extends(raw: Seq<Seq<char>>, k: int)
    requires
        0 <= k <= raw.len(),
        normalize_spec(raw.subrange(0, k)) is None,
    ensures
        normalize_spec(raw) is None,
    decreases raw.len() - k,
{
    if k < raw.len() {
        assert(raw.subrange(0, k + 1).drop_last() =~= raw.subrange(0, k));
        lemma_normalize_none_extends(raw, k + 1);
    } else {
        assert(raw.subrange(0, k) =~= raw);
    }
}

} // verus!
