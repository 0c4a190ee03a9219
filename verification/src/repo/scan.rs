//! Turning the raw entries of a filesystem walk into a scan result.
//!
//! The walk itself (an I/O task) happens outside the library; it hands over
//! every entry it met as a [`RawEntry`] with `/`-separated paths.

use vstd::prelude::*;
use vstd::relations::sorted_by;
use crate::order::{insert_sorted, lex_le, sort_strings, stable_sort, strictly_sorted, views_of, lemma_key_preorder, compare_str, lemma_lex_lt_asym};
use crate::paths::{
    file_name_chars, file_name_of, normalize, normalize_lexical, parent_chars, parent_of,
    path_starts_with, slice_chars,
};
use crate::repo::metadata_detector::manifest_names;
use crate::repo::models::{ScanResult, ScanStats, ScannedFile};
use crate::text::{to_owned_string, chars_eq, chars_of, chars_starts_with, in_list, starts_with, str_views, string_from_chars};

verus! {

/// Directory names that a walk never descends into.
pub open spec fn ignored_dir_names() -> Seq<Seq<char>> {
    seq![
        ".git"@,
        ".hg"@,
        ".svn"@,
        ".bzr"@,
        "node_modules"@,
        "bower_components"@,
        "target"@,
        "dist"@,
        "build"@,
        "out"@,
        ".next"@,
        ".nuxt"@,
        ".output"@,
        ".cache"@,
        ".zig-cache"@,
        ".turbo"@,
        ".vercel"@,
        ".parcel-cache"@,
        ".pnpm-store"@,
        ".venv"@,
        "venv"@,
        ".tox"@,
        ".nox"@,
        "__pycache__"@,
        ".mypy_cache"@,
        ".pytest_cache"@,
        ".ruff_cache"@,
        ".hypothesis"@,
        ".idea"@,
        ".vscode"@,
        ".gradle"@,
        ".cargo"@,
        ".stack-work"@,
        ".dart_tool"@,
        ".terraform"@,
        "coverage"@,
        "Pods"@,
        ".build"@,
        "DerivedData"@,
        "CMakeFiles"@,
        ".expo"@,
        ".docusaurus"@,
    ]
}

/// Directory names that a walk never descends into, in a fixed order.
pub fn default_ignored_dirs() -> (r: Vec<String>)
    ensures
        views_of(r@) == ignored_dir_names(),
{
    let mut v: Vec<String> = Vec::new();
    v.push(to_owned_string(".git"));
    v.push(to_owned_string(".hg"));
    v.push(to_owned_string(".svn"));
    v.push(to_owned_string(".bzr"));
    v.push(to_owned_string("node_modules"));
    v.push(to_owned_string("bower_components"));
    v.push(to_owned_string("target"));
    v.push(to_owned_string("dist"));
    v.push(to_owned_string("build"));
    v.push(to_owned_string("out"));
    v.push(to_owned_string(".next"));
    v.push(to_owned_string(".nuxt"));
    v.push(to_owned_string(".output"));
    v.push(to_owned_string(".cache"));
    v.push(to_owned_string(".zig-cache"));
    v.push(to_owned_string(".turbo"));
    v.push(to_owned_string(".vercel"));
    v.push(to_owned_string(".parcel-cache"));
    v.push(to_owned_string(".pnpm-store"));
    v.push(to_owned_string(".venv"));
    v.push(to_owned_string("venv"));
    v.push(to_owned_string(".tox"));
    v.push(to_owned_string(".nox"));
    v.push(to_owned_string("__pycache__"));
    v.push(to_owned_string(".mypy_cache"));
    v.push(to_owned_string(".pytest_cache"));
    v.push(to_owned_string(".ruff_cache"));
    v.push(to_owned_string(".hypothesis"));
    v.push(to_owned_string(".idea"));
    v.push(to_owned_string(".vscode"));
    v.push(to_owned_string(".gradle"));
    v.push(to_owned_string(".cargo"));
    v.push(to_owned_string(".stack-work"));
    v.push(to_owned_string(".dart_tool"));
    v.push(to_owned_string(".terraform"));
    v.push(to_owned_string("coverage"));
    v.push(to_owned_string("Pods"));
    v.push(to_owned_string(".build"));
    v.push(to_owned_string("DerivedData"));
    v.push(to_owned_string("CMakeFiles"));
    v.push(to_owned_string(".expo"));
    v.push(to_owned_string(".docusaurus"));
    proof {
        reveal_strlit(".git");
        reveal_strlit(".hg");
        reveal_strlit(".svn");
        reveal_strlit(".bzr");
        reveal_strlit("node_modules");
        reveal_strlit("bower_components");
        reveal_strlit("target");
        reveal_strlit("dist");
        reveal_strlit("build");
        reveal_strlit("out");
        reveal_strlit(".next");
        reveal_strlit(".nuxt");
        reveal_strlit(".output");
        reveal_strlit(".cache");
        reveal_strlit(".zig-cache");
        reveal_strlit(".turbo");
        reveal_strlit(".vercel");
        reveal_strlit(".parcel-cache");
        reveal_strlit(".pnpm-store");
        reveal_strlit(".venv");
        reveal_strlit("venv");
        reveal_strlit(".tox");
        reveal_strlit(".nox");
        reveal_strlit("__pycache__");
        reveal_strlit(".mypy_cache");
        reveal_strlit(".pytest_cache");
        reveal_strlit(".ruff_cache");
        reveal_strlit(".hypothesis");
        reveal_strlit(".idea");
        reveal_strlit(".vscode");
        reveal_strlit(".gradle");
        reveal_strlit(".cargo");
        reveal_strlit(".stack-work");
        reveal_strlit(".dart_tool");
        reveal_strlit(".terraform");
        reveal_strlit("coverage");
        reveal_strlit("Pods");
        reveal_strlit(".build");
        reveal_strlit("DerivedData");
        reveal_strlit("CMakeFiles");
        reveal_strlit(".expo");
        reveal_strlit(".docusaurus");
    }
    assert(views_of(v@) =~= ignored_dir_names());
    v
}

/// Whether a walk skips a directory named `name`.
pub fn is_ignored_dir(name: &str, ignored: &Vec<String>) -> (r: bool)
    ensures
        r == views_of(ignored@).contains(name@),
{
    let c = chars_of(name);
    crate::repo::metadata_detector::list_contains(ignored, c.as_slice())
}

/// A raw, unclassified filesystem entry from a walk.
#[derive(Debug, Clone)]
pub struct RawEntry {
    /// Path of the entry (the walk root followed by the relative part).
    pub path: String,
    /// Whether the entry is a directory.
    pub is_dir: bool,
    /// Size in bytes (0 for directories).
    pub size: u64,
}

/// `p` with the directory `root` removed from its front (unchanged when `p`
/// does not lie under `root`).
pub open spec fn strip_root(root: Seq<char>, p: Seq<char>) -> Seq<char> {
    if p == root {
        Seq::empty()
    } else if root.len() > 0 && starts_with(p, root.push('/')) {
        p.subrange(root.len() as int + 1, p.len() as int)
    } else {
        p
    }
}

/// The repository-relative path of an entry.
pub open spec fn rel_of(root: Seq<char>, p: Seq<char>) -> Seq<char> {
    normalize(strip_root(root, p))
}

/// `(path, rel, size)` of every file entry, in walk order.
pub open spec fn file_views(root: Seq<char>, raw: Seq<RawEntry>) -> Seq<(Seq<char>, Seq<char>, u64)>
    decreases raw.len(),
{
    if raw.len() == 0 {
        Seq::empty()
    } else {
        let prev = file_views(root, raw.drop_last());
        let e = raw.last();
        if e.is_dir {
            prev
        } else {
            prev.push((e.path@, rel_of(root, e.path@), e.size))
        }
    }
}

/// The relative paths of every directory entry other than the root, in walk
/// order.
pub open spec fn dir_views(root: Seq<char>, raw: Seq<RawEntry>) -> Seq<Seq<char>>
    decreases raw.len(),
{
    if raw.len() == 0 {
        Seq::empty()
    } else {
        let prev = dir_views(root, raw.drop_last());
        let e = raw.last();
        if e.is_dir && rel_of(root, e.path@).len() > 0 {
            prev.push(rel_of(root, e.path@))
        } else {
            prev
        }
    }
}

/// Total size of the file entries.
pub open spec fn total_size(root: Seq<char>, raw: Seq<RawEntry>) -> int
    decreases raw.len(),
{
    if raw.len() == 0 {
        0
    } else {
        total_size(root, raw.drop_last()) + if raw.last().is_dir {
            0
        } else {
            raw.last().size as int
        }
    }
}

/// The view of a scanned file.
pub open spec fn scanned_view(f: ScannedFile) -> (Seq<char>, Seq<char>, u64) {
    (f.path@, f.rel@, f.size)
}

/// The project roots: the root itself (`""`) and the normalised directory
/// of every manifest file.
pub open spec fn spec_project_roots(files: Seq<(Seq<char>, Seq<char>, u64)>) -> Set<Seq<char>> {
    Set::new(
        |r: Seq<char>|
            r == Seq::<char>::empty() || exists|i: int|
                0 <= i < files.len() && manifest_names().contains(file_name_of(#[trigger] files[i].1))
                    && r == normalize(parent_of(files[i].1)),
    )
}

/// `strip_root` on characters.
fn strip_root_exec(root: &[char], p: &[char]) -> (r: Vec<char>)
    ensures
        r@ == strip_root(root@, p@),
{
    if chars_eq(p, root) {
        return Vec::new();
    }
    if root.len() > 0 {
        let mut pre = slice_chars(root, 0, root.len());
        pre.push('/');
        assert(pre@ =~= root@.push('/'));
        if chars_starts_with(p, pre.as_slice()) {
            return slice_chars(p, pre.len(), p.len());
        }
    }
    slice_chars(p, 0, p.len())
}

/// Classifies, normalises and sorts the entries of a walk rooted at
/// `root`, and detects project roots from manifest files.
pub fn post_process(root: &str, raw: Vec<RawEntry>, scan_errors: u64, duration_ns: u64) -> (r: ScanResult)
    requires
        total_size(root@, raw@) <= u64::MAX,
    ensures
        r.root@ == root@,
        r.files@.map_values(|f: ScannedFile| scanned_view(f)).to_multiset() == file_views(root@, raw@).to_multiset(),
        sorted_by(r.files@, |a: ScannedFile, b: ScannedFile| lex_le(a.rel@, b.rel@, true)),
        views_of(r.directories@).to_multiset() == dir_views(root@, raw@).to_multiset(),
        sorted_by(r.directories@, |a: String, b: String| lex_le(a@, b@, true)),
        strictly_sorted(views_of(r.project_roots@), true),
        views_of(r.project_roots@).to_set() == spec_project_roots(file_views(root@, raw@)),
        r.stats.files == r.files@.len(),
        r.stats.directories == dir_views(root@, raw@).len(),
        r.stats.bytes == total_size(root@, raw@),
        r.stats.scan_errors == scan_errors,
        r.duration_ns == duration_ns,
{
    broadcast use vstd::seq_lib::group_to_multiset_ensures;

    let rootv = chars_of(root);
    let mut files: Vec<ScannedFile> = Vec::new();
    let mut directories: Vec<String> = Vec::new();
    let mut bytes: u64 = 0;
    let mut dir_count: u64 = 0;
    let mut i: usize = 0;
    while i < raw.len()
        invariant
            rootv@ == root@,
            i <= raw.len(),
            total_size(root@, raw@) <= u64::MAX,
            files@.map_values(|f: ScannedFile| scanned_view(f)) == file_views(root@, raw@.take(i as int)),
            views_of(directories@) == dir_views(root@, raw@.take(i as int)),
            bytes == total_size(root@, raw@.take(i as int)),
            dir_count == directories@.len(),
            directories@.len() <= i,
        decreases raw.len() - i,
    {
        proof {
            assert(raw@.take(i + 1).drop_last() =~= raw@.take(i as int));
            lemma_total_size_prefix(root@, raw@, i + 1);
        }
        let e = &raw[i];
        let p = chars_of(e.path.as_str());
        let stripped = strip_root_exec(rootv.as_slice(), p.as_slice());
        let rel = normalize_lexical(string_from_chars(stripped.as_slice()).as_str());
        if e.is_dir {
            if !rel.as_str().is_empty() {
                assert(rel@.len() > 0);
                directories.push(rel);
                dir_count = dir_count + 1;
                assert(views_of(directories@) =~= dir_views(root@, raw@.take(i + 1)));
            } else {
                proof {
                    if rel@.len() > 0 {
                        assert(false);
                    }
                }
                assert(views_of(directories@) =~= dir_views(root@, raw@.take(i + 1)));
            }
        } else {
            bytes = bytes + e.size;
            let f = ScannedFile { path: e.path.clone(), rel, size: e.size };
            files.push(f);
            assert(files@.map_values(|f: ScannedFile| scanned_view(f)) =~= file_views(root@, raw@.take(i + 1)));
            assert(views_of(directories@) =~= dir_views(root@, raw@.take(i + 1)));
        }
        i = i + 1;
    }
    proof {
        assert(raw@.take(raw@.len() as int) =~= raw@);
    }
    let ghost unsorted = files@;
    // sort files by relative path
    let ghost key = |f: ScannedFile| f.rel@;
    proof {
        lemma_key_preorder(key, true);
        assert((|a: ScannedFile, b: ScannedFile| lex_le(key(a), key(b), true)) =~= (|a: ScannedFile, b: ScannedFile| lex_le(a.rel@, b.rel@, true)));
    }
    let before = |a: &ScannedFile, b: &ScannedFile| -> (o: bool)
        ensures
            o == lex_le(a.rel@, b.rel@, true),
        {
            let c = compare_str(a.rel.as_str(), b.rel.as_str(), true);
            proof {
                lemma_lex_lt_asym(a.rel@, b.rel@, true);
            }
            c != 1
        };
    let files = stable_sort(files, &before, Ghost(|a: ScannedFile, b: ScannedFile| lex_le(a.rel@, b.rel@, true)));
    proof {
        lemma_map_multiset(unsorted, files@, |f: ScannedFile| scanned_view(f));
    }
    let ghost unsorted_dirs = directories@;
    let directories = sort_strings(directories, true);
    proof {
        lemma_map_multiset(unsorted_dirs, directories@, |s: String| s@);
        assert(views_of(unsorted_dirs) =~= unsorted_dirs.map_values(|s: String| s@));
        assert(views_of(directories@) =~= directories@.map_values(|s: String| s@));
    }
    // project roots
    let names = crate::repo::metadata_detector::manifest_list();
    let mut project_roots: Vec<String> = Vec::new();
    project_roots.push(string_from_chars(Vec::<char>::new().as_slice()));
    let ghost fv = files@.map_values(|f: ScannedFile| scanned_view(f));
    proof {
        assert(views_of(project_roots@) =~= seq![Seq::<char>::empty()]);
        assert(fv.take(0) =~= Seq::<(Seq<char>, Seq<char>, u64)>::empty());
        assert(seq![Seq::<char>::empty()].to_set() =~= set![Seq::<char>::empty()]) by {
            assert(seq![Seq::<char>::empty()][0] == Seq::<char>::empty());
        }
        assert(spec_project_roots(fv.take(0)) =~= set![Seq::<char>::empty()]);
    }
    let mut k: usize = 0;
    while k < files.len()
        invariant
            str_views(names@) == manifest_names(),
            k <= files.len(),
            fv == files@.map_values(|f: ScannedFile| scanned_view(f)),
            strictly_sorted(views_of(project_roots@), true),
            views_of(project_roots@).to_set() == spec_project_roots(fv.take(k as int)),
        decreases files.len() - k,
    {
        let rel = chars_of(files[k].rel.as_str());
        let name = file_name_chars(rel.as_slice());
        let ghost old_set = views_of(project_roots@).to_set();
        if in_list(name.as_slice(), names.as_slice()) {
            let parent = parent_chars(rel.as_slice());
            let np = normalize_lexical(string_from_chars(parent.as_slice()).as_str());
            insert_sorted(&mut project_roots, np, true);
        }
        proof {
            let a = spec_project_roots(fv.take(k + 1));
            let b = spec_project_roots(fv.take(k as int));
            assert(fv[k as int].1 == files@[k as int].rel@);
            assert forall|x: Seq<char>| #![trigger a.contains(x)] a.contains(x) <==> views_of(project_roots@).to_set().contains(x) by {
                if a.contains(x) && x != Seq::<char>::empty() {
                    let j = choose|j: int|
                        0 <= j < fv.take(k + 1).len() && manifest_names().contains(file_name_of(#[trigger] fv.take(k + 1)[j].1))
                            && x == normalize(parent_of(fv.take(k + 1)[j].1));
                    if j < k {
                        assert(fv.take(k as int)[j] == fv.take(k + 1)[j]);
                        assert(b.contains(x));
                    }
                }
                if b.contains(x) && x != Seq::<char>::empty() {
                    let j = choose|j: int|
                        0 <= j < fv.take(k as int).len() && manifest_names().contains(file_name_of(#[trigger] fv.take(k as int)[j].1))
                            && x == normalize(parent_of(fv.take(k as int)[j].1));
                    assert(fv.take(k + 1)[j] == fv.take(k as int)[j]);
                    assert(a.contains(x));
                }
                if x == Seq::<char>::empty() {
                    assert(b.contains(x));
                }
                if manifest_names().contains(file_name_of(fv[k as int].1)) && x == normalize(parent_of(fv[k as int].1)) {
                    assert(fv.take(k + 1)[k as int] == fv[k as int]);
                    assert(a.contains(x));
                }
            }
            assert(a =~= views_of(project_roots@).to_set());
        }
        k = k + 1;
    }
    proof {
        assert(fv.take(fv.len() as int) =~= fv);
        lemma_roots_permutation(fv, file_views(root@, raw@));
    }
    let file_count = files.len();
    let stats = ScanStats {
        files: file_count as u64,
        directories: dir_count,
        bytes,
        scan_errors,
    };
    ScanResult {
        root: crate::text::to_owned_string(root),
        files,
        directories,
        project_roots,
        stats,
        duration_ns,
    }
}

proof fn lemma_total_size_prefix(root: Seq<char>, raw: Seq<RawEntry>, n: int)
    requires
        0 <= n <= raw.len(),
    ensures
        total_size(root, raw.take(n)) <= total_size(root, raw),
        total_size(root, raw.take(n)) >= 0,
    decreases raw.len() - n,
{
    lemma_total_size_nonneg(root, raw.take(n));
    if n < raw.len() {
        lemma_total_size_prefix(root, raw, n + 1);
        assert(raw.take(n + 1).drop_last() =~= raw.take(n));
        lemma_total_size_nonneg(root, raw.take(n + 1));
    } else {
        assert(raw.take(n) =~= raw);
        lemma_total_size_nonneg(root, raw);
    }
}

proof fn lemma_total_size_nonneg(root: Seq<char>, raw: Seq<RawEntry>)
    ensures
        total_size(root, raw) >= 0,
    decreases raw.len(),
{
    if raw.len() > 0 {
        lemma_total_size_nonneg(root, raw.drop_last());
    }
}

proof fn lemma_roots_permutation(a: Seq<(Seq<char>, Seq<char>, u64)>, b: Seq<(Seq<char>, Seq<char>, u64)>)
    requires
        a.to_multiset() == b.to_multiset(),
    ensures
        spec_project_roots(a) == spec_project_roots(b),
{
    broadcast use vstd::seq_lib::group_to_multiset_ensures;

    assert forall|x: Seq<char>| spec_project_roots(a).contains(x) <==> spec_project_roots(b).contains(x) by {
        if spec_project_roots(a).contains(x) && x != Seq::<char>::empty() {
            let i = choose|i: int| 0 <= i < a.len() && manifest_names().contains(file_name_of(#[trigger] a[i].1)) && x == normalize(parent_of(a[i].1));
            assert(a.to_multiset().contains(a[i]));
            assert(b.contains(a[i]));
            let j = choose|j: int| 0 <= j < b.len() && b[j] == a[i];
            assert(spec_project_roots(b).contains(x));
        }
        if spec_project_roots(b).contains(x) && x != Seq::<char>::empty() {
            let i = choose|i: int| 0 <= i < b.len() && manifest_names().contains(file_name_of(#[trigger] b[i].1)) && x == normalize(parent_of(b[i].1));
            assert(b.to_multiset().contains(b[i]));
            assert(a.contains(b[i]));
            let j = choose|j: int| 0 <= j < a.len() && a[j] == b[i];
            assert(spec_project_roots(a).contains(x));
        }
    }
    assert(spec_project_roots(a) =~= spec_project_roots(b));
}

/// Mapping preserves equality of multisets.
pub proof fn lemma_map_multiset<A, B>(a: Seq<A>, b: Seq<A>, f: spec_fn(A) -> B)
    requires
        a.to_multiset() == b.to_multiset(),
    ensures
        a.map_values(f).to_multiset() == b.map_values(f).to_multiset(),
    decreases a.len(),
{
    broadcast use vstd::seq_lib::group_to_multiset_ensures;
    broadcast use vstd::multiset::group_multiset_axioms;

    if a.len() == 0 {
        assert(b.to_multiset().len() == 0);
        assert(b.len() == 0);
        assert(a.map_values(f) =~= Seq::<B>::empty());
        assert(b.map_values(f) =~= Seq::<B>::empty());
    } else {
        let x = a.last();
        assert(a.to_multiset().contains(x));
        assert(b.to_multiset().contains(x));
        let j = choose|j: int| 0 <= j < b.len() && b[j] == x;
        let b2 = b.remove(j);
        vstd::seq_lib::to_multiset_remove(b, j);
        assert(a.drop_last().push(x) =~= a);
        vstd::seq_lib::to_multiset_build(a.drop_last(), x);
        assert(a.drop_last().to_multiset() =~= b2.to_multiset());
        lemma_map_multiset(a.drop_last(), b2, f);
        assert(a.map_values(f) =~= a.drop_last().map_values(f).push(f(x)));
        vstd::seq_lib::to_multiset_build(a.drop_last().map_values(f), f(x));
        assert(b.map_values(f).remove(j) =~= b2.map_values(f));
        vstd::seq_lib::to_multiset_remove(b.map_values(f), j);
        assert(b.map_values(f).to_multiset() =~= b2.map_values(f).to_multiset().insert(f(x)));
    }
}

} // verus!
