//! How the library index places files: which watched root a file belongs to,
//! which folder is its series, the series' title and group, and whether a chapter
//! on disk has changed since it was indexed.
use vstd::prelude::*;
use crate::jobs::JobKind;
use crate::media::is_pdf;
use crate::models::LibraryRoot;
use crate::paths::{comps_view, components, extension, file_name, Comp, SpecComp};
use crate::text;
use crate::text::{ascii_lower, trim, trim_start_char};

verus! {

// ---------------------------------------------------------------------------
// Component prefixes
// ---------------------------------------------------------------------------

/// `pre` is a leading run of `s`, component by component (`Path::strip_prefix`).
pub open spec fn comps_prefix(pre: Seq<SpecComp>, s: Seq<SpecComp>) -> bool {
    pre.len() <= s.len() && forall|i: int| 0 <= i < pre.len() ==> s[i] == pre[i]
}

fn comp_eq(a: &Comp, b: &Comp) -> (r: bool)
    ensures
        r == (a@ == b@),
{
    match (a, b) {
        (Comp::RootDir, Comp::RootDir) => true,
        (Comp::CurDir, Comp::CurDir) => true,
        (Comp::ParentDir, Comp::ParentDir) => true,
        (Comp::Normal(x), Comp::Normal(y)) => text::seq_eq(x.as_slice(), y.as_slice()),
        _ => false,
    }
}

fn comps_prefix_exec(pre: &[Comp], s: &[Comp]) -> (r: bool)
    ensures
        r == comps_prefix(comps_view(pre@), comps_view(s@)),
{
    if pre.len() > s.len() {
        return false;
    }
    let mut i: usize = 0;
    while i < pre.len()
        invariant
            i <= pre@.len() <= s@.len(),
            forall|k: int| 0 <= k < i ==> comps_view(s@)[k] == comps_view(pre@)[k],
        decreases pre@.len() - i,
    {
        if !comp_eq(&pre[i], &s[i]) {
            assert(comps_view(s@)[i as int] != comps_view(pre@)[i as int]);
            return false;
        }
        i = i + 1;
    }
    true
}

fn components_of(p: &str) -> (r: Vec<Comp>)
    ensures
        comps_view(r@) == components(p@),
{
    let v = text::chars_of(p);
    crate::paths::components_exec(v.as_slice())
}

// ---------------------------------------------------------------------------
// Watched roots
// ---------------------------------------------------------------------------

pub open spec fn root_matches(root: Seq<char>, file: Seq<char>) -> bool {
    comps_prefix(components(root), components(file))
}

pub open spec fn root_depth(root: Seq<char>) -> int {
    components(root).len() as int
}

/// Root `i` is the one a file belongs to: it contains the file, no containing root
/// is deeper, and no later containing root is as deep (the last of equals wins).
pub open spec fn best_root(roots: Seq<LibraryRoot>, file: Seq<char>, i: int) -> bool {
    &&& 0 <= i < roots.len()
    &&& root_matches(roots[i].path@, file)
    &&& forall|j: int|
        0 <= j < roots.len() && root_matches(#[trigger] roots[j].path@, file) ==> root_depth(
            roots[j].path@,
        ) <= root_depth(roots[i].path@)
    &&& forall|j: int|
        i < j < roots.len() && root_matches(#[trigger] roots[j].path@, file) ==> root_depth(
            roots[j].path@,
        ) < root_depth(roots[i].path@)
}

/// The most specific watched root that contains the file.
pub fn match_library_root<'a>(roots: &'a [LibraryRoot], file_path: &str) -> (r: Option<&'a LibraryRoot>)
    ensures
        match r {
            Some(root) => exists|i: int| best_root(roots@, file_path@, i) && *root == roots@[i],
            None => forall|j: int| 0 <= j < roots@.len() ==> !root_matches(#[trigger] roots@[j].path@, file_path@),
        },
{
    let fc = components_of(file_path);
    let mut best: Option<usize> = None;
    let mut best_depth: usize = 0;
    let mut i: usize = 0;
    while i < roots.len()
        invariant
            i <= roots@.len(),
            comps_view(fc@) == components(file_path@),
            match best {
                Some(b) => {
                    &&& b < i
                    &&& root_matches(roots@[b as int].path@, file_path@)
                    &&& best_depth == root_depth(roots@[b as int].path@)
                    &&& forall|j: int|
                        0 <= j < i && root_matches(#[trigger] roots@[j].path@, file_path@)
                            ==> root_depth(roots@[j].path@) <= best_depth
                    &&& forall|j: int|
                        b < j < i && root_matches(#[trigger] roots@[j].path@, file_path@)
                            ==> root_depth(roots@[j].path@) < best_depth
                },
                None => forall|j: int|
                    0 <= j < i ==> !root_matches(#[trigger] roots@[j].path@, file_path@),
            },
        decreases roots@.len() - i,
    {
        let rc = components_of(roots[i].path.as_str());
        if comps_prefix_exec(rc.as_slice(), fc.as_slice()) {
            let d = rc.len();
            match best {
                Some(_) => {
                    if d >= best_depth {
                        best = Some(i);
                        best_depth = d;
                    }
                },
                None => {
                    best = Some(i);
                    best_depth = d;
                },
            }
        }
        i = i + 1;
    }
    match best {
        Some(b) => {
            assert(best_root(roots@, file_path@, b as int));
            Some(&roots[b])
        },
        None => None,
    }
}

// ---------------------------------------------------------------------------
// Series folders
// ---------------------------------------------------------------------------

/// `Path::parent` by components: all but the last, when the last is not a root.
pub open spec fn parent_comps(c: Seq<SpecComp>) -> Option<Seq<SpecComp>> {
    if c.len() > 0 && !(c.last() is RootDir) {
        Some(c.drop_last())
    } else {
        None
    }
}

/// A file's folder is a series folder of the root when it lies strictly inside the
/// root (a file directly in the root has none). Whether the folder still exists is
/// for the caller to check.
pub open spec fn series_folder_inside(root: Seq<char>, file: Seq<char>) -> bool {
    match parent_comps(components(file)) {
        Some(pc) => comps_prefix(components(root), pc) && pc.len() > components(root).len(),
        None => false,
    }
}

pub fn series_folder_under_root(root_path: &str, file_path: &str) -> (r: bool)
    ensures
        r == series_folder_inside(root_path@, file_path@),
{
    let mut fc = components_of(file_path);
    let rc = components_of(root_path);
    let ghost full = comps_view(fc@);
    if fc.len() == 0 {
        return false;
    }
    let last = fc.pop();
    match last {
        Some(Comp::RootDir) => {
            assert(full.last() is RootDir);
            false
        },
        Some(c) => {
            proof {
                assert(full.last() == c@);
                assert(comps_view(fc@) =~= full.drop_last());
            }
            comps_prefix_exec(rc.as_slice(), fc.as_slice()) && fc.len() > rc.len()
        },
        None => false,
    }
}

/// The names of the ordinary components among `c`, in order.
pub open spec fn normal_names(c: Seq<SpecComp>) -> Seq<Seq<char>>
    decreases c.len(),
{
    if c.len() == 0 {
        Seq::empty()
    } else {
        let rest = normal_names(c.drop_first());
        match c[0] {
            SpecComp::Normal(n) => seq![n] + rest,
            _ => rest,
        }
    }
}

/// The group of a nested series: the top folder under the root, leading dots and
/// space trimmed, when the series sits at least two folders deep.
pub open spec fn group_name_of(root: Seq<char>, series_folder: Seq<char>) -> Option<Seq<char>> {
    let rc = components(root);
    let sc = components(series_folder);
    if !comps_prefix(rc, sc) {
        None
    } else {
        let names = normal_names(sc.skip(rc.len() as int));
        if names.len() >= 2 {
            let g = trim(trim_start_char(names[0], '.'));
            if g.len() == 0 {
                None
            } else {
                Some(g)
            }
        } else {
            None
        }
    }
}

/// The first name among `c[from..]` and whether a second one follows.
fn first_two_names(c: &[Comp], from: usize) -> (r: (Option<Vec<char>>, bool))
    requires
        from <= c@.len(),
    ensures
        ({
            let names = normal_names(comps_view(c@).skip(from as int));
            &&& (names.len() >= 1 <==> r.0 is Some)
            &&& (r.0 matches Some(n) ==> n@ == names[0])
            &&& (r.1 <==> names.len() >= 2)
        }),
    decreases c@.len() - from,
{
    let ghost cv = comps_view(c@);
    if from == c.len() {
        assert(cv.skip(from as int) =~= Seq::<SpecComp>::empty());
        return (None, false);
    }
    proof {
        assert(cv.skip(from as int).drop_first() =~= cv.skip(from + 1));
        assert(cv.skip(from as int)[0] == c@[from as int]@);
    }
    let (first, more) = first_two_names(c, from + 1);
    match &c[from] {
        Comp::Normal(n) => {
            let copy = text::copy_range(n.as_slice(), 0, n.len());
            assert(copy@ =~= n@);
            (Some(copy), first.is_some())
        },
        _ => (first, more),
    }
}

pub fn derive_group_name(root: &str, series_folder: &str) -> (r: Option<String>)
    ensures
        match r {
            Some(g) => group_name_of(root@, series_folder@) == Some(g@),
            None => group_name_of(root@, series_folder@) is None,
        },
{
    let rc = components_of(root);
    let sc = components_of(series_folder);
    if !comps_prefix_exec(rc.as_slice(), sc.as_slice()) {
        return None;
    }
    let (first, more) = first_two_names(sc.as_slice(), rc.len());
    if !more {
        return None;
    }
    match first {
        Some(n) => {
            let a = text::trim_start_char_exec(n.as_slice(), '.');
            let g = text::trim_exec(a.as_slice());
            if g.len() == 0 {
                None
            } else {
                Some(text::string_of(g.as_slice()))
            }
        },
        None => None,
    }
}

/// A series' title: its folder's name without leading dots and surrounding space,
/// or `Unknown` when the folder has no name.
pub open spec fn series_title_of(folder: Seq<char>) -> Seq<char> {
    let n = match file_name(folder) {
        Some(n) => n,
        None => "Unknown"@,
    };
    trim(trim_start_char(n, '.'))
}

pub fn series_title(folder: &str) -> (r: String)
    ensures
        r@ == series_title_of(folder@),
{
    let v = text::chars_of(folder);
    let n = match crate::paths::file_name_exec(v.as_slice()) {
        Some(n) => n,
        None => text::chars_of("Unknown"),
    };
    let a = text::trim_start_char_exec(n.as_slice(), '.');
    let t = text::trim_exec(a.as_slice());
    text::string_of(t.as_slice())
}

// ---------------------------------------------------------------------------
// Chapters on disk
// ---------------------------------------------------------------------------

/// What a rescan does with a media file it finds.
#[derive(Debug, Clone, Copy, PartialEq, Eq, Structural)]
pub enum ChapterRefresh {
    /// Indexed, unchanged and hashed: nothing to do.
    Unchanged,
    /// Indexed and unchanged, but its content hash is still missing.
    NeedsHash,
    /// New, changed, or marked missing: index it again.
    Reindex,
}

/// A chapter is unchanged when it was indexed with the same modification time and
/// size and is not marked missing.
pub open spec fn chapter_refresh_of(
    indexed: bool,
    file_mtime: Option<i64>,
    file_size: Option<i64>,
    missing: bool,
    hashed: bool,
    mtime: i64,
    size: i64,
) -> ChapterRefresh {
    if indexed && file_mtime == Some(mtime) && file_size == Some(size) && !missing {
        if hashed {
            ChapterRefresh::Unchanged
        } else {
            ChapterRefresh::NeedsHash
        }
    } else {
        ChapterRefresh::Reindex
    }
}

pub fn chapter_refresh(
    indexed: bool,
    file_mtime: Option<i64>,
    file_size: Option<i64>,
    missing: bool,
    hashed: bool,
    mtime: i64,
    size: i64,
) -> (r: ChapterRefresh)
    ensures
        r == chapter_refresh_of(indexed, file_mtime, file_size, missing, hashed, mtime, size),
{
    let same_mtime = match file_mtime {
        Some(m) => m == mtime,
        None => false,
    };
    let same_size = match file_size {
        Some(s) => s == size,
        None => false,
    };
    if indexed && same_mtime && same_size && !missing {
        if hashed {
            ChapterRefresh::Unchanged
        } else {
            ChapterRefresh::NeedsHash
        }
    } else {
        ChapterRefresh::Reindex
    }
}

/// Some file's extension is `pdf`, in any case.
pub open spec fn has_pdf_file(files: Seq<Seq<char>>) -> bool {
    exists|i: int|
        0 <= i < files.len() && (extension(#[trigger] files[i]) matches Some(e) && ascii_lower(e)
            == "pdf"@)
}

pub fn folder_has_pdf(files: &[String]) -> (r: bool)
    ensures
        r == has_pdf_file(crate::media::path_views(files@)),
{
    let ghost fv = crate::media::path_views(files@);
    let mut i: usize = 0;
    while i < files.len()
        invariant
            i <= files@.len(),
            fv == crate::media::path_views(files@),
            forall|k: int|
                0 <= k < i ==> !(extension(#[trigger] fv[k]) matches Some(e) && ascii_lower(e)
                    == "pdf"@),
        decreases files@.len() - i,
    {
        let v = text::chars_of(files[i].as_str());
        assert(v@ == fv[i as int]);
        if let Some(e) = crate::paths::extension_exec(v.as_slice()) {
            let l = text::lower_all(e.as_slice());
            if text::lit_eq(l.as_slice(), "pdf") {
                return true;
            }
        }
        i = i + 1;
    }
    false
}

/// The jobs a new or changed chapter queues, in order: index its pages, draw the
/// series cover from it when it is a PDF, and hash its file.
pub open spec fn reindex_jobs_ok<C, R, O>(
    jobs: Seq<JobKind<C, R, O>>,
    series_id: i64,
    chapter_id: i64,
    file_path: Seq<char>,
) -> bool {
    let n: int = if is_pdf(file_path) { 3 } else { 2 };
    &&& jobs.len() == n
    &&& jobs[0] matches JobKind::Indexing { chapter_id: c, file_path: f } && c == chapter_id
        && f@ == file_path
    &&& is_pdf(file_path) ==> (jobs[1] matches JobKind::CoverGeneration {
        series_id: s,
        chapter_id: c,
        file_path: f,
    } && s == series_id && c == chapter_id && f@ == file_path)
    &&& jobs[n - 1] matches JobKind::FileHash { chapter_id: c, file_path: f } && c == chapter_id
        && f@ == file_path
}

pub fn reindex_jobs<C, R, O>(series_id: i64, chapter_id: i64, file_path: &str) -> (r: Vec<
    JobKind<C, R, O>,
>)
    ensures
        reindex_jobs_ok(r@, series_id, chapter_id, file_path@),
{
    let mut jobs: Vec<JobKind<C, R, O>> = Vec::new();
    jobs.push(JobKind::Indexing { chapter_id, file_path: file_path.to_string() });
    if crate::media::is_pdf_path(file_path) {
        jobs.push(
            JobKind::CoverGeneration { series_id, chapter_id, file_path: file_path.to_string() },
        );
    }
    jobs.push(JobKind::FileHash { chapter_id, file_path: file_path.to_string() });
    jobs
}

/// A chapter's cached pages go stale when its file had a content hash before and
/// the new hash differs from it; a first hash changes nothing.
pub fn hash_changed(prev: Option<&str>, new: &str) -> (r: bool)
    ensures
        r == (crate::lan::opt_str_view(prev) matches Some(p) && p != new@),
{
    match prev {
        Some(p) => !text::str_eq(p, new),
        None => false,
    }
}

} // verus!
