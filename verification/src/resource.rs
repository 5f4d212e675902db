//! Resources: the outcome of resolving a request path against the tree.
//!
//! A resource is either nothing, a concrete file, or a directory whose
//! listing is generated. Resolution follows a fixed priority order:
//! explicit file match, extension elision, implicit directory index,
//! generated index; ties among elision or index candidates go to the
//! lexicographically smallest candidate, so the choice is deterministic
//! and independent of the configured extension order.

use vstd::prelude::*;

use crate::request_config::ServerConfig;
use crate::strutil::split_spec;
use crate::strutil::split_on;
use crate::vfs::FsEntry;
use crate::vfs::FsSnapshot;
use crate::vfs::Timestamp;
use crate::vfs::child_indices;
use crate::vfs::existing_names;
use crate::vfs::is_min_name;
use crate::vfs::lemma_child_indices_valid;
use crate::vfs::lemma_existing_names_are_files;
use crate::vfs::normalize_spec;
use crate::vfs::normalize_segments;
use crate::vfs::path_join;
use crate::vfs::path_prefixes;

verus! {

/// The text standing in for a name or a timestamp that cannot be read.
pub const UNKNOWN: &'static str = "(unknown)";

/// What an out-of-range timestamp formats to is decided by chrono; the
/// text depends on the seconds and nanoseconds alone.
pub uninterp spec fn iso_datetime_of(secs: int, nanos: int) -> Option<Seq<char>>;

/// Relies on chrono: `DateTime::<Utc>::from_timestamp` and the `%+`
/// (ISO 8601 / RFC 3339) format. The text depends on the timestamp alone;
/// `None` comes exactly when chrono rejects the timestamp as out of range.
#[verifier::external_body]
fn format_timestamp(secs: i64, nanos: u32) -> (r: Option<String>)
    ensures
        match r {
            Some(s) => iso_datetime_of(secs as int, nanos as int) == Some(s@),
            None => iso_datetime_of(secs as int, nanos as int) is None,
        },
{
    match chrono::DateTime::<chrono::Utc>::from_timestamp(secs, nanos) {
        Some(dt) => Some(format!("{}", dt.format("%+"))),
        None => None,
    }
}

/// The text shown for a timestamp: its ISO 8601 form, or the unknown
/// sentinel when the timestamp is missing or out of range.
pub open spec fn timestamp_text(t: Option<Timestamp>) -> Seq<char> {
    match t {
        None => "(unknown)"@,
        Some(ts) => match iso_datetime_of(ts.secs as int, ts.nanos as int) {
            Some(s) => s,
            None => "(unknown)"@,
        },
    }
}

/// Shallow metadata of one entry, with timestamps already formatted.
pub struct ResourceMetadata {
    pub is_dir: bool,
    pub is_file: bool,
    pub len: u64,
    pub readonly: bool,
    pub modified: String,
    pub accessed: String,
    pub created: String,
}

/// The metadata fields mirror the entry, timestamps formatted.
pub open spec fn meta_matches(m: ResourceMetadata, e: FsEntry) -> bool {
    &&& m.is_dir == e.is_dir
    &&& m.is_file == !e.is_dir
    &&& m.len == e.len
    &&& m.readonly == e.readonly
    &&& m.modified@ == timestamp_text(e.modified)
    &&& m.accessed@ == timestamp_text(e.accessed)
    &&& m.created@ == timestamp_text(e.created)
}

impl ResourceMetadata {
    /// Formats one timestamp, falling back to the unknown sentinel.
    fn stamp(t: &Option<Timestamp>) -> (r: String)
        ensures
            r@ == timestamp_text(*t),
    {
        match t {
            None => String::from_str("(unknown)"),
            Some(ts) => match format_timestamp(ts.secs, ts.nanos) {
                Some(s) => s,
                None => String::from_str("(unknown)"),
            },
        }
    }

    /// The displayable metadata of one tree entry.
    pub fn from_entry(e: &FsEntry) -> (r: ResourceMetadata)
        ensures
            meta_matches(r, *e),
    {
        ResourceMetadata {
            is_dir: e.is_dir,
            is_file: !e.is_dir,
            len: e.len,
            readonly: e.readonly,
            modified: Self::stamp(&e.modified),
            accessed: Self::stamp(&e.accessed),
            created: Self::stamp(&e.created),
        }
    }
}

/// The render context of a resource: its name, its metadata if the entry
/// exists, its immediate children if it is a directory, and the shallow
/// contexts of its ancestor directories.
pub struct ResourceContext {
    pub name: String,
    pub metadata: Option<ResourceMetadata>,
    pub children: Option<Vec<ResourceContext>>,
    pub ancestors: Option<Vec<ResourceContext>>,
}

/// The display name of a path: its last segment, or the unknown sentinel
/// for the root.
pub open spec fn ctx_name_spec(p: Seq<Seq<char>>) -> Seq<char> {
    if p.len() == 0 {
        "(unknown)"@
    } else {
        p.last()
    }
}

/// A context that names the path and carries its metadata, nothing deeper.
pub open spec fn shallow_matches(c: ResourceContext, snap: FsSnapshot, p: Seq<Seq<char>>) -> bool {
    &&& c.name@ == ctx_name_spec(p)
    &&& match c.metadata {
        Some(m) => exists|i: int|
            0 <= i < snap.entries@.len() && #[trigger] snap.entries@[i].path.deep_view() == p
                && meta_matches(m, snap.entries@[i]),
        None => !snap.has_entry_at(p),
    }
    &&& c.children is None
    &&& c.ancestors is None
}

/// A context built straight from one entry: named after the entry's last
/// segment, carrying its metadata, nothing deeper.
pub open spec fn shallow_entry_matches(c: ResourceContext, e: FsEntry) -> bool {
    &&& e.path@.len() > 0 ==> c.name@ == e.path.deep_view().last()
    &&& c.metadata matches Some(m) && meta_matches(m, e)
    &&& c.children is None
    &&& c.ancestors is None
}

/// The full context of a resolved path: shallow data plus the immediate
/// children (for a directory) and the ancestor chain, root first.
pub open spec fn ctx_matches(c: ResourceContext, snap: FsSnapshot, p: Seq<Seq<char>>) -> bool {
    &&& c.name@ == ctx_name_spec(p)
    &&& match c.metadata {
        Some(m) => exists|i: int|
            0 <= i < snap.entries@.len() && #[trigger] snap.entries@[i].path.deep_view() == p
                && meta_matches(m, snap.entries@[i]),
        None => !snap.has_entry_at(p),
    }
    &&& match c.children {
        Some(cs) => snap.has_dir_at(p) && cs@.len() == child_indices(snap.entries@, p).len()
            && forall|k: int|
            0 <= k < cs@.len() ==> shallow_entry_matches(
                #[trigger] cs@[k],
                snap.entries@[child_indices(snap.entries@, p)[k]],
            ),
        None => !snap.has_dir_at(p),
    }
    &&& match c.ancestors {
        Some(av) => av@.len() == p.len() && forall|k: int|
            0 <= k < av@.len() ==> shallow_matches(#[trigger] av@[k], snap, p.subrange(0, k)),
        None => false,
    }
}

impl ResourceContext {
    /// The shallow context of a path: name and metadata only.
    fn shallow(snap: &FsSnapshot, p: &Vec<String>) -> (r: ResourceContext)
        ensures
            shallow_matches(r, *snap, p.deep_view()),
    {
        let name = if p.len() == 0 {
            String::from_str("(unknown)")
        } else {
            p[p.len() - 1].clone()
        };
        let metadata = match snap.lookup(p) {
            Some(i) => Some(ResourceMetadata::from_entry(&snap.entries[i])),
            None => None,
        };
        ResourceContext { name, metadata, children: None, ancestors: None }
    }

    /// The shallow context of one entry.
    fn shallow_of_entry(e: &FsEntry) -> (r: ResourceContext)
        requires
            e.path@.len() > 0,
        ensures
            shallow_entry_matches(r, *e),
    {
        ResourceContext {
            name: e.path[e.path.len() - 1].clone(),
            metadata: Some(ResourceMetadata::from_entry(e)),
            children: None,
            ancestors: None,
        }
    }

    /// The render context of a path: name, metadata, immediate children
    /// when it is a directory, and the ancestor chain root-first. With
    /// `shallow` set, only name and metadata.
    pub fn from_path(snap: &FsSnapshot, p: &Vec<String>, shallow: bool) -> (r: ResourceContext)
        requires
            snap.wf(),
        ensures
            shallow ==> shallow_matches(r, *snap, p.deep_view()),
            !shallow ==> ctx_matches(r, *snap, p.deep_view()),
    {
        if shallow {
            return Self::shallow(snap, p);
        }
        let base = Self::shallow(snap, p);
        let children = if snap.is_dir(p) {
            let idxs = snap.children(p);
            proof {
                lemma_child_indices_valid(snap.entries@, p.deep_view());
            }
            let ghost idxv = child_indices(snap.entries@, p.deep_view());
            let mut cs: Vec<ResourceContext> = Vec::new();
            let mut k: usize = 0;
            while k < idxs.len()
                invariant
                    snap.wf(),
                    idxs@.map_values(|u: usize| u as int) == idxv,
                    idxv == child_indices(snap.entries@, p.deep_view()),
                    forall|t: int|
                        0 <= t < idxv.len() ==> 0 <= #[trigger] idxv[t] < snap.entries@.len(),
                    k <= idxs@.len(),
                    cs@.len() == k,
                    forall|t: int|
                        0 <= t < k ==> shallow_entry_matches(
                            #[trigger] cs@[t],
                            snap.entries@[idxv[t]],
                        ),
                decreases idxs@.len() - k,
            {
                let i = idxs[k];
                proof {
                    assert(idxv[k as int] == i as int);
                    assert(crate::vfs::path_ok(snap.entries@[i as int].path.deep_view()));
                    assert(snap.entries@[i as int].path@.len() > 0);
                }
                cs.push(Self::shallow_of_entry(&snap.entries[i]));
                k = k + 1;
            }
            Some(cs)
        } else {
            None
        };
        let mut prefixes = path_prefixes(p);
        let ghost g0 = prefixes@;
        let ghost dv_all = prefixes.deep_view();
        // the chain runs from the root to the parent: drop the path itself
        let _own = prefixes.pop();
        proof {
            assert forall|t: int| 0 <= t < prefixes@.len() implies #[trigger] prefixes.deep_view()[t]
                == p.deep_view().subrange(0, t) by {
                assert(prefixes@[t] == g0[t]);
                assert(dv_all[t] == g0[t].deep_view());
                assert(prefixes.deep_view()[t] == prefixes@[t].deep_view());
            }
        }
        let mut av: Vec<ResourceContext> = Vec::new();
        let mut k: usize = 0;
        while k < prefixes.len()
            invariant
                snap.wf(),
                prefixes@.len() == p@.len(),
                forall|t: int|
                    0 <= t < prefixes@.len() ==> #[trigger] prefixes.deep_view()[t]
                        == p.deep_view().subrange(0, t),
                k <= prefixes@.len(),
                av@.len() == k,
                forall|t: int|
                    0 <= t < k ==> shallow_matches(
                        #[trigger] av@[t],
                        *snap,
                        p.deep_view().subrange(0, t),
                    ),
            decreases prefixes@.len() - k,
        {
            proof {
                assert(prefixes.deep_view()[k as int] == prefixes@[k as int].deep_view());
            }
            av.push(Self::shallow(snap, &prefixes[k]));
            k = k + 1;
        }
        ResourceContext {
            name: base.name,
            metadata: base.metadata,
            children,
            ancestors: Some(av),
        }
    }
}

/// `stem.ext`.
pub open spec fn dot_name(stem: Seq<char>, ext: Seq<char>) -> Seq<char> {
    stem + seq!['.'] + ext
}

/// `index.ext`.
pub open spec fn index_name(ext: Seq<char>) -> Seq<char> {
    seq!['i', 'n', 'd', 'e', 'x', '.'] + ext
}

/// The elision candidates for a stem: `stem.ext` per configured extension.
pub open spec fn elision_names_v(stem: Seq<char>, exts: Seq<Seq<char>>) -> Seq<Seq<char>> {
    exts.map_values(|e: Seq<char>| dot_name(stem, e))
}

/// The index candidates: `index.ext` per configured extension.
pub open spec fn index_names_v(exts: Seq<Seq<char>>) -> Seq<Seq<char>> {
    exts.map_values(|e: Seq<char>| index_name(e))
}

/// Builds the elision candidate names for a stem.
fn elision_names(stem: &String, exts: &Vec<String>) -> (r: Vec<String>)
    ensures
        r.deep_view() == elision_names_v(stem@, exts.deep_view()),
{
    let ghost stemv = stem@;
    let n = exts.len();
    let mut out: Vec<String> = Vec::new();
    let mut i: usize = 0;
    proof {
        assert(out.deep_view() =~~= elision_names_v(
            stemv,
            exts.deep_view().subrange(0, 0),
        ));
    }
    while i < n
        invariant
            n == exts@.len(),
            i <= n,
            stemv == stem@,
            out.deep_view() == elision_names_v(stemv, exts.deep_view().subrange(0, i as int)),
        decreases n - i,
    {
        let ghost dv0 = out.deep_view();
        let mut name = stem.clone();
        name.append(".");
        name.append(exts[i].as_str());
        proof {
            reveal_strlit(".");
            assert("."@ =~= seq!['.']);
            assert(name@ =~= dot_name(stemv, exts.deep_view()[i as int]));
        }
        out.push(name);
        proof {
            let target = elision_names_v(stemv, exts.deep_view().subrange(0, i + 1));
            assert(dv0.len() == i);
            assert(out@.len() == i + 1);
            assert(out.deep_view().len() == out@.len());
            assert(target.len() == i + 1);
            assert forall|k: int| 0 <= k < i + 1 implies out.deep_view()[k] =~= target[k] by {
                assert(target[k] == dot_name(stemv, exts.deep_view().subrange(0, i + 1)[k]));
                if k < i {
                    assert(out.deep_view()[k] == dv0[k]);
                    assert(dv0[k] == elision_names_v(
                        stemv,
                        exts.deep_view().subrange(0, i as int),
                    )[k]);
                } else {
                    assert(out.deep_view()[k] == name@);
                }
            }
            assert(out.deep_view() =~~= target);
        }
        i = i + 1;
    }
    proof {
        assert(exts.deep_view().subrange(0, n as int) =~~= exts.deep_view());
    }
    out
}

/// Builds the index candidate names.
fn index_names(exts: &Vec<String>) -> (r: Vec<String>)
    ensures
        r.deep_view() == index_names_v(exts.deep_view()),
{
    let n = exts.len();
    let mut out: Vec<String> = Vec::new();
    let mut i: usize = 0;
    proof {
        assert(out.deep_view() =~~= index_names_v(exts.deep_view().subrange(0, 0)));
    }
    while i < n
        invariant
            n == exts@.len(),
            i <= n,
            out.deep_view() == index_names_v(exts.deep_view().subrange(0, i as int)),
        decreases n - i,
    {
        let ghost dv0 = out.deep_view();
        let mut name = String::from_str("index.");
        name.append(exts[i].as_str());
        proof {
            reveal_strlit("index.");
            assert("index."@ =~= seq!['i', 'n', 'd', 'e', 'x', '.']);
            assert(name@ =~= index_name(exts.deep_view()[i as int]));
        }
        out.push(name);
        proof {
            let target = index_names_v(exts.deep_view().subrange(0, i + 1));
            assert(dv0.len() == i);
            assert(out@.len() == i + 1);
            assert(out.deep_view().len() == out@.len());
            assert(target.len() == i + 1);
            assert forall|k: int| 0 <= k < i + 1 implies out.deep_view()[k] =~= target[k] by {
                assert(target[k] == index_name(exts.deep_view().subrange(0, i + 1)[k]));
                if k < i {
                    assert(out.deep_view()[k] == dv0[k]);
                    assert(dv0[k] == index_names_v(exts.deep_view().subrange(0, i as int))[k]);
                } else {
                    assert(out.deep_view()[k] == name@);
                }
            }
            assert(out.deep_view() =~~= target);
        }
        i = i + 1;
    }
    proof {
        assert(exts.deep_view().subrange(0, n as int) =~~= exts.deep_view());
    }
    out
}

/// A concrete file to serve.
pub struct FileResource {
    /// Root-relative path of the file on disk.
    pub abs_path: Vec<String>,
    /// The request path as it arrived.
    pub url_path: String,
    /// Whether the file was found by convention rather than named exactly.
    pub is_implicit: bool,
    /// Whether the file is a directory's index file.
    pub is_index: bool,
    pub context: ResourceContext,
}

/// A directory whose listing is generated.
pub struct IndexResource {
    /// Root-relative path of the directory.
    pub abs_path: Vec<String>,
    /// The request path as it arrived.
    pub url_path: String,
    pub is_implicit: bool,
    pub context: ResourceContext,
}

/// The outcome of resolving a request path against the tree.
pub enum Resource {
    NotFound,
    File(FileResource),
    Index(IndexResource),
}

impl Resource {
    /// The filesystem path of the resolved resource, if any.
    pub fn fs_path(&self) -> (r: Option<&Vec<String>>)
        ensures
            match self {
                Resource::NotFound => r is None,
                Resource::File(f) => r == Some(&f.abs_path),
                Resource::Index(d) => r == Some(&d.abs_path),
            },
    {
        match self {
            Resource::NotFound => None,
            Resource::File(f) => Some(&f.abs_path),
            Resource::Index(d) => Some(&d.abs_path),
        }
    }

    /// The render context of the resolved resource, if any.
    pub fn context(&self) -> (r: Option<&ResourceContext>)
        ensures
            match self {
                Resource::NotFound => r is None,
                Resource::File(f) => r == Some(&f.context),
                Resource::Index(d) => r == Some(&d.context),
            },
    {
        match self {
            Resource::NotFound => None,
            Resource::File(f) => Some(&f.context),
            Resource::Index(d) => Some(&d.context),
        }
    }

    /// The ancestor contexts of the resolved resource, if any.
    pub fn ancestors(&self) -> (r: Option<&Vec<ResourceContext>>)
        ensures
            match self {
                Resource::NotFound => r is None,
                Resource::File(f) => ((r is Some) == (f.context.ancestors is Some)) && (
                r matches Some(v) ==> f.context.ancestors matches Some(w) && *v == w),
                Resource::Index(d) => ((r is Some) == (d.context.ancestors is Some)) && (
                r matches Some(v) ==> d.context.ancestors matches Some(w) && *v == w),
            },
    {
        match self {
            Resource::NotFound => None,
            Resource::File(f) => f.context.ancestors.as_ref(),
            Resource::Index(d) => d.context.ancestors.as_ref(),
        }
    }
}

/// The root-relative path a URI path denotes: split on `/`, drop the
/// leading empty segment, normalize away `.`/`..`; `None` when the path
/// escapes the root.
pub open spec fn uri_rel_path(uri: Seq<char>) -> Option<Seq<Seq<char>>> {
    normalize_spec(split_spec(uri, '/').skip(1))
}

/// Turns a URI path into a root-relative path.
pub fn uri_to_path(url_path: &str) -> (r: Option<Vec<String>>)
    ensures
        match r {
            Some(p) => uri_rel_path(url_path@) == Some(p.deep_view()),
            None => uri_rel_path(url_path@) is None,
        },
{
    let mut raw = split_on(url_path, '/');
    proof {
        crate::strutil::lemma_split_spec_len(url_path@, '/');
    }
    let _lead = raw.remove(0);
    proof {
        assert(raw.deep_view() =~~= split_spec(url_path@, '/').skip(1));
    }
    normalize_segments(&raw)
}

/// Finds the file a URI path names exactly, if it exists.
pub fn exists_file(snap: &FsSnapshot, path: &str) -> (r: Option<Vec<String>>)
    requires
        snap.wf(),
    ensures
        match r {
            Some(p) => uri_rel_path(path@) == Some(p.deep_view()) && snap.has_file_at(
                p.deep_view(),
            ),
            None => match uri_rel_path(path@) {
                Some(p) => !snap.has_file_at(p),
                None => true,
            },
        },
{
    match uri_to_path(path) {
        Some(p) => {
            if snap.is_file(&p) {
                Some(p)
            } else {
                None
            }
        },
        None => None,
    }
}

/// What resolving the root-relative path `p` must yield: the priority
/// order of the resolver, first match wins.
pub open spec fn resolve_rel(
    snap: FsSnapshot,
    cfgv: crate::request_config::ConfigV,
    p: Seq<Seq<char>>,
    url: Seq<char>,
    r: Resource,
) -> bool {
    let exts = cfgv.allow_extension_elision;
    if snap.has_file_at(p) {
        // Priority 1: explicit file match.
        r matches Resource::File(f) && f.abs_path.deep_view() == p && f.url_path@ == url
            && !f.is_implicit && !f.is_index && ctx_matches(f.context, snap, p)
    } else if p.len() > 0 && existing_names(snap, p.drop_last(), elision_names_v(p.last(), exts)).len() > 0 {
        // Priority 2: extension elision, smallest existing candidate.
        r matches Resource::File(f) && f.abs_path.deep_view().len() == p.len()
            && f.abs_path.deep_view().drop_last() == p.drop_last() && is_min_name(
            f.abs_path.deep_view().last(),
            existing_names(snap, p.drop_last(), elision_names_v(p.last(), exts)),
        ) && f.url_path@ == url && f.is_implicit && !f.is_index && ctx_matches(
            f.context,
            snap,
            f.abs_path.deep_view(),
        )
    } else if cfgv.use_index && snap.has_dir_at(p) && existing_names(
        snap,
        p,
        index_names_v(exts),
    ).len() > 0 {
        // Priority 3: implicit directory index, smallest existing candidate.
        r matches Resource::File(f) && f.abs_path.deep_view().len() == p.len() + 1
            && f.abs_path.deep_view().drop_last() == p && is_min_name(
            f.abs_path.deep_view().last(),
            existing_names(snap, p, index_names_v(exts)),
        ) && f.url_path@ == url && f.is_implicit && f.is_index && ctx_matches(
            f.context,
            snap,
            f.abs_path.deep_view(),
        )
    } else if cfgv.auto_index && snap.has_dir_at(p) {
        // Priority 4: generated directory index.
        r matches Resource::Index(d) && d.abs_path.deep_view() == p && d.url_path@ == url
            && d.is_implicit && ctx_matches(d.context, snap, p)
    } else {
        r is NotFound
    }
}

impl Resource {
    /// Resolves a URI path against the tree, in priority order: explicit
    /// file, extension elision, implicit directory index, generated
    /// index, nothing. A path that escapes the root resolves to nothing.
    /// Everything resolved exists in the snapshot, so it lies under the
    /// canonicalized root.
    pub fn resolve(snap: &FsSnapshot, url_path: &str, config: &ServerConfig) -> (r: Resource)
        requires
            snap.wf(),
        ensures
            match uri_rel_path(url_path@) {
                Some(p) => resolve_rel(*snap, config.view_spec(), p, url_path@, r),
                None => r is NotFound,
            },
            r matches Resource::File(f) ==> snap.has_file_at(f.abs_path.deep_view()),
            r matches Resource::Index(d) ==> snap.has_dir_at(d.abs_path.deep_view()),
    {
        let p = match uri_to_path(url_path) {
            Some(p) => p,
            None => {
                return Resource::NotFound;
            },
        };
        let ghost pv = p.deep_view();
        // Priority 1: explicit file match
        if snap.is_file(&p) {
            let context = ResourceContext::from_path(snap, &p, false);
            return Resource::File(
                FileResource {
                    abs_path: p,
                    url_path: url_path.to_owned(),
                    is_implicit: false,
                    is_index: false,
                    context,
                },
            );
        }
        // Priority 2: extension elision
        if p.len() > 0 {
            let mut dir = p.clone();
            proof {
                assert(dir.deep_view() == pv);
            }
            let stem = match dir.pop() {
                Some(s) => s,
                None => {
                    return Resource::NotFound;
                },
            };
            proof {
                assert(dir.deep_view() =~~= pv.drop_last());
                assert(stem@ == pv.last());
            }
            let names = elision_names(&stem, &config.allow_extension_elision);
            match snap.pick_min_existing(&dir, &names) {
                Some(name) => {
                    let abs = path_join(&dir, &name);
                    proof {
                        let ex = existing_names(
                            *snap,
                            pv.drop_last(),
                            elision_names_v(pv.last(), config.view_spec().allow_extension_elision),
                        );
                        lemma_existing_names_are_files(*snap, pv.drop_last(), names.deep_view());
                        assert(ex.contains(name@));
                        let k = choose|k: int| 0 <= k < ex.len() && ex[k] == name@;
                        assert(snap.has_file_at(pv.drop_last().push(name@)));
                        assert(abs.deep_view().drop_last() =~~= pv.drop_last());
                    }
                    let context = ResourceContext::from_path(snap, &abs, false);
                    return Resource::File(
                        FileResource {
                            abs_path: abs,
                            url_path: url_path.to_owned(),
                            is_implicit: true,
                            is_index: false,
                            context,
                        },
                    );
                },
                None => {},
            }
        }
        // Priority 3: implicit directory index
        let found_dir = snap.is_dir(&p);
        if config.use_index && found_dir {
            let names = index_names(&config.allow_extension_elision);
            match snap.pick_min_existing(&p, &names) {
                Some(name) => {
                    let abs = path_join(&p, &name);
                    proof {
                        let ex = existing_names(
                            *snap,
                            pv,
                            index_names_v(config.view_spec().allow_extension_elision),
                        );
                        lemma_existing_names_are_files(*snap, pv, names.deep_view());
                        assert(ex.contains(name@));
                        let k = choose|k: int| 0 <= k < ex.len() && ex[k] == name@;
                        assert(snap.has_file_at(pv.push(name@)));
                        assert(abs.deep_view().drop_last() =~~= pv);
                    }
                    let context = ResourceContext::from_path(snap, &abs, false);
                    return Resource::File(
                        FileResource {
                            abs_path: abs,
                            url_path: url_path.to_owned(),
                            is_implicit: true,
                            is_index: true,
                            context,
                        },
                    );
                },
                None => {},
            }
        }
        // Priority 4: generated directory index
        if config.auto_index && found_dir {
            let context = ResourceContext::from_path(snap, &p, false);
            return Resource::Index(
                IndexResource {
                    abs_path: p,
                    url_path: url_path.to_owned(),
                    is_implicit: true,
                    context,
                },
            );
        }
        Resource::NotFound
    }
}

/// Resolution never yields a filesystem path outside the canonicalized
/// root: everything resolved exists in the snapshot, and every snapshot
/// path is a well-formed root-relative path — no `..`, no empty and no
/// separator-bearing segment — so it names a descendant of the root,
/// whatever `..` segments the request path held. (Symbolic links are
/// flattened away when the caller builds the snapshot from the
/// canonicalized tree.)
pub proof fn lemma_resolution_contained(snap: FsSnapshot, r: Resource)
    requires
        snap.wf(),
        r matches Resource::File(f) ==> snap.has_file_at(f.abs_path.deep_view()),
        r matches Resource::Index(d) ==> snap.has_dir_at(d.abs_path.deep_view()),
    ensures
        r matches Resource::File(f) ==> crate::vfs::path_ok(f.abs_path.deep_view()),
        r matches Resource::Index(d) ==> crate::vfs::path_ok(d.abs_path.deep_view()),
{
    match r {
        Resource::File(f) => {
            crate::vfs::lemma_entry_path_ok(snap, f.abs_path.deep_view());
        },
        Resource::Index(d) => {
            crate::vfs::lemma_entry_path_ok(snap, d.abs_path.deep_view());
        },
        Resource::NotFound => {},
    }
}

/// Member-equal extension lists make member-equal elision candidates.
proof fn lemma_elision_names_member_equiv(stem: Seq<char>, e1: Seq<Seq<char>>, e2: Seq<Seq<char>>)
    requires
        forall|z: Seq<char>| e1.contains(z) <==> e2.contains(z),
    ensures
        forall|z: Seq<char>|
            elision_names_v(stem, e1).contains(z) <==> elision_names_v(stem, e2).contains(z),
{
    assert forall|z: Seq<char>|
        elision_names_v(stem, e1).contains(z) <==> elision_names_v(stem, e2).contains(z) by {
        if elision_names_v(stem, e1).contains(z) {
            let k = choose|k: int|
                0 <= k < elision_names_v(stem, e1).len() && elision_names_v(stem, e1)[k] == z;
            assert(z == dot_name(stem, e1[k]));
            assert(e1.contains(e1[k]));
            let j = choose|j: int| 0 <= j < e2.len() && e2[j] == e1[k];
            assert(elision_names_v(stem, e2)[j] == z);
            assert(elision_names_v(stem, e2).contains(z));
        }
        if elision_names_v(stem, e2).contains(z) {
            let k = choose|k: int|
                0 <= k < elision_names_v(stem, e2).len() && elision_names_v(stem, e2)[k] == z;
            assert(z == dot_name(stem, e2[k]));
            assert(e2.contains(e2[k]));
            let j = choose|j: int| 0 <= j < e1.len() && e1[j] == e2[k];
            assert(elision_names_v(stem, e1)[j] == z);
            assert(elision_names_v(stem, e1).contains(z));
        }
    }
}

/// Member-equal extension lists make member-equal index candidates.
proof fn lemma_index_names_member_equiv(e1: Seq<Seq<char>>, e2: Seq<Seq<char>>)
    requires
        forall|z: Seq<char>| e1.contains(z) <==> e2.contains(z),
    ensures
        forall|z: Seq<char>| index_names_v(e1).contains(z) <==> index_names_v(e2).contains(z),
{
    assert forall|z: Seq<char>|
        index_names_v(e1).contains(z) <==> index_names_v(e2).contains(z) by {
        if index_names_v(e1).contains(z) {
            let k = choose|k: int| 0 <= k < index_names_v(e1).len() && index_names_v(e1)[k] == z;
            assert(z == index_name(e1[k]));
            assert(e1.contains(e1[k]));
            let j = choose|j: int| 0 <= j < e2.len() && e2[j] == e1[k];
            assert(index_names_v(e2)[j] == z);
            assert(index_names_v(e2).contains(z));
        }
        if index_names_v(e2).contains(z) {
            let k = choose|k: int| 0 <= k < index_names_v(e2).len() && index_names_v(e2)[k] == z;
            assert(z == index_name(e2[k]));
            assert(e2.contains(e2[k]));
            let j = choose|j: int| 0 <= j < e1.len() && e1[j] == e2[k];
            assert(index_names_v(e1)[j] == z);
            assert(index_names_v(e1).contains(z));
        }
    }
}

/// Member-equal candidate lists exist as member-equal candidate sets.
proof fn lemma_existing_member_equiv(
    snap: FsSnapshot,
    dir: Seq<Seq<char>>,
    n1: Seq<Seq<char>>,
    n2: Seq<Seq<char>>,
)
    requires
        forall|z: Seq<char>| n1.contains(z) <==> n2.contains(z),
    ensures
        forall|z: Seq<char>|
            existing_names(snap, dir, n1).contains(z) <==> existing_names(snap, dir, n2).contains(
                z,
            ),
{
    crate::vfs::lemma_existing_names_are_files(snap, dir, n1);
    crate::vfs::lemma_existing_names_are_files(snap, dir, n2);
    assert forall|z: Seq<char>|
        existing_names(snap, dir, n1).contains(z) <==> existing_names(snap, dir, n2).contains(
            z,
        ) by {
        if existing_names(snap, dir, n1).contains(z) {
            let k = choose|k: int|
                0 <= k < existing_names(snap, dir, n1).len() && existing_names(snap, dir, n1)[k]
                    == z;
            assert(n1.contains(z) && snap.has_file_at(dir.push(z)));
            crate::vfs::lemma_existing_names_complete(snap, dir, n2, z);
        }
        if existing_names(snap, dir, n2).contains(z) {
            let k = choose|k: int|
                0 <= k < existing_names(snap, dir, n2).len() && existing_names(snap, dir, n2)[k]
                    == z;
            assert(n2.contains(z) && snap.has_file_at(dir.push(z)));
            crate::vfs::lemma_existing_names_complete(snap, dir, n1, z);
        }
    }
}

/// A member-equal nonempty set stays nonempty.
proof fn lemma_member_equiv_nonempty(s: Seq<Seq<char>>, t: Seq<Seq<char>>)
    requires
        forall|z: Seq<char>| s.contains(z) <==> t.contains(z),
        s.len() > 0,
    ensures
        t.len() > 0,
{
    assert(s.contains(s[0]));
    assert(t.contains(s[0]));
}

/// The tie-break is deterministic and blind to the configured order:
/// with the same extensions available — in any order, with any
/// repetition — two resolutions of the same path under otherwise equal
/// settings land on the same file (and the same generated directory),
/// because the chosen candidate is the lexicographic minimum of the set
/// of existing candidates, never the first configured hit.
pub proof fn lemma_resolve_order_independent(
    snap: FsSnapshot,
    cfg1: crate::request_config::ConfigV,
    cfg2: crate::request_config::ConfigV,
    p: Seq<Seq<char>>,
    url: Seq<char>,
    r1: Resource,
    r2: Resource,
)
    requires
        snap.wf(),
        resolve_rel(snap, cfg1, p, url, r1),
        resolve_rel(snap, cfg2, p, url, r2),
        cfg1.use_index == cfg2.use_index,
        cfg1.auto_index == cfg2.auto_index,
        forall|z: Seq<char>|
            cfg1.allow_extension_elision.contains(z) <==> cfg2.allow_extension_elision.contains(
                z,
            ),
    ensures
        (r1 is File) == (r2 is File),
        (r1 is Index) == (r2 is Index),
        r1 matches Resource::File(f1) ==> (r2 matches Resource::File(f2)
            && f1.abs_path.deep_view() == f2.abs_path.deep_view()),
        r1 matches Resource::Index(d1) ==> (r2 matches Resource::Index(d2)
            && d1.abs_path.deep_view() == d2.abs_path.deep_view()),
{
    let e1 = cfg1.allow_extension_elision;
    let e2 = cfg2.allow_extension_elision;
    if snap.has_file_at(p) {
    } else {
        if p.len() > 0 {
            lemma_elision_names_member_equiv(p.last(), e1, e2);
            lemma_existing_member_equiv(
                snap,
                p.drop_last(),
                elision_names_v(p.last(), e1),
                elision_names_v(p.last(), e2),
            );
        }
        let ex1 = if p.len() > 0 {
            existing_names(snap, p.drop_last(), elision_names_v(p.last(), e1))
        } else {
            Seq::empty()
        };
        let ex2 = if p.len() > 0 {
            existing_names(snap, p.drop_last(), elision_names_v(p.last(), e2))
        } else {
            Seq::empty()
        };
        if p.len() > 0 && ex1.len() > 0 {
            lemma_member_equiv_nonempty(ex1, ex2);
            let f1 = r1->File_0;
            let f2 = r2->File_0;
            crate::vfs::lemma_min_name_unique(
                f1.abs_path.deep_view().last(),
                f2.abs_path.deep_view().last(),
                ex1,
                ex2,
            );
            let d1 = f1.abs_path.deep_view();
            let d2 = f2.abs_path.deep_view();
            assert(d1.len() == d2.len());
            assert forall|k: int| 0 <= k < d1.len() implies d1[k] == d2[k] by {
                if k < d1.len() - 1 {
                    assert(d1[k] == d1.drop_last()[k]);
                    assert(d2[k] == d2.drop_last()[k]);
                } else {
                    assert(d1[k] == d1.last());
                    assert(d2[k] == d2.last());
                }
            }
            assert(f1.abs_path.deep_view() =~= f2.abs_path.deep_view());
        } else if p.len() > 0 && ex2.len() > 0 {
            lemma_member_equiv_nonempty(ex2, ex1);
        } else {
            lemma_index_names_member_equiv(e1, e2);
            lemma_existing_member_equiv(snap, p, index_names_v(e1), index_names_v(e2));
            let ix1 = existing_names(snap, p, index_names_v(e1));
            let ix2 = existing_names(snap, p, index_names_v(e2));
            if cfg1.use_index && snap.has_dir_at(p) && ix1.len() > 0 {
                lemma_member_equiv_nonempty(ix1, ix2);
                let f1 = r1->File_0;
                let f2 = r2->File_0;
                crate::vfs::lemma_min_name_unique(
                    f1.abs_path.deep_view().last(),
                    f2.abs_path.deep_view().last(),
                    ix1,
                    ix2,
                );
                let d1 = f1.abs_path.deep_view();
                let d2 = f2.abs_path.deep_view();
                assert(d1.len() == d2.len());
                assert forall|k: int| 0 <= k < d1.len() implies d1[k] == d2[k] by {
                    if k < d1.len() - 1 {
                        assert(d1[k] == d1.drop_last()[k]);
                        assert(d2[k] == d2.drop_last()[k]);
                    } else {
                        assert(d1[k] == d1.last());
                        assert(d2[k] == d2.last());
                    }
                }
                assert(f1.abs_path.deep_view() =~= f2.abs_path.deep_view());
            } else if cfg1.use_index && snap.has_dir_at(p) && ix2.len() > 0 {
                lemma_member_equiv_nonempty(ix2, ix1);
            }
        }
    }
}

} // verus!
