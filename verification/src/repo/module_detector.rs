//! Logical module discovery from directory structure.
//!
//! * Feature folders: meaningful sub-directories of a project root or of its
//!   `src/` (or `app/`) folder.
//! * Layered architecture: N-tier directories such as `controllers`.
//! * Monorepo packages: members of `apps/`, `packages/`, `crates/`, `libs/`,
//!   `modules/`.

use vstd::prelude::*;
use vstd::relations::sorted_by;
use crate::order::{compare_str, lemma_key_preorder, lemma_lex_lt_asym, lex_le, sort_strings, stable_sort, views_of};
use crate::paths::{file_name_chars, file_name_of, parent_chars, parent_of, path_starts_with, slashes, starts_with_path};
use crate::repo::metadata_detector::{contains_manifest, dir_has_manifest, list_contains};
use crate::repo::models::{Module, ModuleKind, ScanResult, ScannedFile, rels};
use crate::repo::scan::lemma_map_multiset;
use crate::text::{chars_of, in_list, str_views, string_from_chars, to_owned_string};

verus! {

/// Directories that never represent logical modules.
pub open spec fn excluded_dirs() -> Seq<Seq<char>> {
    seq![
        "src"@, "srcs"@, "tests"@, "__tests__"@, "__pycache__"@, "assets"@, "static"@, "public"@,
        "media"@, "styles"@, "css"@, "images"@, "img"@, "fonts"@, ".github"@, "scripts"@,
        "docs"@, "config"@, "types"@, "generated"@, "migrations"@, "mocks"@, "fixtures"@,
        "dev"@, "playground"@, "examples"@,
    ]
}

fn excluded_list() -> (r: Vec<&'static str>)
    ensures
        str_views(r@) == excluded_dirs(),
{
    let r = vec![
        "src", "srcs", "tests", "__tests__", "__pycache__", "assets", "static", "public",
        "media", "styles", "css", "images", "img", "fonts", ".github", "scripts",
        "docs", "config", "types", "generated", "migrations", "mocks", "fixtures",
        "dev", "playground", "examples",
    ];
    assert(str_views(r@) =~= excluded_dirs());
    r
}

/// Layered-architecture directory names.
pub open spec fn layer_dirs() -> Seq<Seq<char>> {
    seq![
        "controllers"@, "routes"@, "routers"@, "models"@, "views"@, "services"@, "handlers"@,
        "middlewares"@, "middleware"@, "dtos"@, "dto"@, "schemas"@, "repositories"@, "repos"@,
        "daos"@, "serializers"@, "serializer"@, "interfaces"@, "graphql"@, "resolvers"@,
        "queries"@, "mutations"@,
    ]
}

fn layer_list() -> (r: Vec<&'static str>)
    ensures
        str_views(r@) == layer_dirs(),
{
    let r = vec![
        "controllers", "routes", "routers", "models", "views", "services", "handlers",
        "middlewares", "middleware", "dtos", "dto", "schemas", "repositories", "repos",
        "daos", "serializers", "serializer", "interfaces", "graphql", "resolvers",
        "queries", "mutations",
    ];
    assert(str_views(r@) =~= layer_dirs());
    r
}

/// Directory names that group monorepo packages.
pub open spec fn nest_dirs() -> Seq<Seq<char>> {
    seq!["apps"@, "packages"@, "crates"@, "libs"@, "modules"@]
}

fn nest_list() -> (r: Vec<&'static str>)
    ensures
        str_views(r@) == nest_dirs(),
{
    let r = vec!["apps", "packages", "crates", "libs", "modules"];
    assert(str_views(r@) =~= nest_dirs());
    r
}

/// A module as text: name, kind, root and files.
pub struct ModuleView {
    pub name: Seq<char>,
    pub kind: ModuleKind,
    pub root: Seq<char>,
    pub files: Seq<Seq<char>>,
}

/// The view of a module.
pub open spec fn module_view(m: Module) -> ModuleView {
    ModuleView { name: m.name@, kind: m.kind, root: m.root@, files: views_of(m.files@) }
}

/// The state of module discovery: modules found so far and directories
/// already claimed.
pub struct DetectState {
    pub modules: Seq<ModuleView>,
    pub visited: Set<Seq<char>>,
}

/// What module discovery looks at.
pub struct DetectInput {
    /// Repository-relative file paths.
    pub files: Seq<Seq<char>>,
    /// Repository-relative directories.
    pub dirs: Seq<Seq<char>>,
    /// Minimum number of files of a module.
    pub min_files: nat,
}

/// The sub-directories of `d`, in path order.
pub open spec fn children(dirs: Seq<Seq<char>>, d: Seq<char>) -> Seq<Seq<char>> {
    dirs.filter(|c: Seq<char>| parent_of(c) == d).sort_by(|a: Seq<char>, b: Seq<char>| lex_le(a, b, true))
}

/// The forward-slashed files under `dir`, in file order.
pub open spec fn files_under(files: Seq<Seq<char>>, dir: Seq<char>) -> Seq<Seq<char>> {
    files.filter(|f: Seq<char>| path_starts_with(f, dir)).map_values(|f: Seq<char>| slashes(f))
}

/// Records a module for `dir` unless it owns fewer than `min_files` files.
pub open spec fn push_module(st: DetectState, inp: DetectInput, dir: Seq<char>, kind: ModuleKind) -> DetectState {
    let files = files_under(inp.files, dir);
    if files.len() < inp.min_files {
        st
    } else {
        DetectState {
            modules: st.modules.push(ModuleView { name: file_name_of(dir), kind, root: slashes(dir), files }),
            visited: st.visited,
        }
    }
}

/// The kind of a directory met at the top of a project: a package when it
/// holds a manifest, a layer for layered names, otherwise a feature.
pub open spec fn classify_rooted(inp: DetectInput, dir: Seq<char>) -> ModuleKind {
    if dir_has_manifest(dir, inp.files) {
        ModuleKind::Package
    } else if layer_dirs().contains(file_name_of(dir)) {
        ModuleKind::Layer
    } else {
        ModuleKind::Feature
    }
}

/// A name that is hidden (`.`-prefixed) or excluded.
pub open spec fn skipped_name(n: Seq<char>) -> bool {
    (n.len() > 0 && n[0] == '.') || excluded_dirs().contains(n)
}

/// The children of a `src`/`app` folder, from index `i` on.
pub open spec fn walk_src(st: DetectState, inp: DetectInput, subs: Seq<Seq<char>>, i: int) -> DetectState
    decreases subs.len() - i,
{
    if i < 0 || i >= subs.len() {
        st
    } else {
        let sub = subs[i];
        let next = if skipped_name(file_name_of(sub)) || st.visited.contains(sub) {
            st
        } else {
            push_module(
                DetectState { modules: st.modules, visited: st.visited.insert(sub) },
                inp,
                sub,
                classify_rooted(inp, sub),
            )
        };
        walk_src(next, inp, subs, i + 1)
    }
}

/// The members of a monorepo nest, from index `i` on.
pub open spec fn walk_nest(st: DetectState, inp: DetectInput, subs: Seq<Seq<char>>, i: int) -> DetectState
    decreases subs.len() - i,
{
    if i < 0 || i >= subs.len() {
        st
    } else {
        let sub = subs[i];
        let next = if st.visited.contains(sub) {
            st
        } else {
            push_module(
                DetectState { modules: st.modules, visited: st.visited.insert(sub) },
                inp,
                sub,
                if dir_has_manifest(sub, inp.files) {
                    ModuleKind::Package
                } else {
                    ModuleKind::Feature
                },
            )
        };
        walk_nest(next, inp, subs, i + 1)
    }
}

/// The sub-folders of a feature, from index `i` on.
pub open spec fn walk_feature(st: DetectState, inp: DetectInput, subs: Seq<Seq<char>>, i: int) -> DetectState
    decreases subs.len() - i,
{
    if i < 0 || i >= subs.len() {
        st
    } else {
        let sub = subs[i];
        let next = if skipped_name(file_name_of(sub)) || st.visited.contains(sub) {
            st
        } else {
            push_module(st, inp, sub, classify_rooted(inp, sub))
        };
        walk_feature(next, inp, subs, i + 1)
    }
}

/// Considers one candidate directory.
pub open spec fn emit(st: DetectState, inp: DetectInput, dir: Seq<char>) -> DetectState {
    let name = file_name_of(dir);
    if name.len() == 0 || name == seq!['.', '.'] || name[0] == '.' {
        st
    } else if name == "src"@ || name == "app"@ {
        walk_src(st, inp, children(inp.dirs, dir), 0)
    } else if excluded_dirs().contains(name) {
        st
    } else if nest_dirs().contains(name) {
        walk_nest(st, inp, children(inp.dirs, dir), 0)
    } else if st.visited.contains(dir) {
        st
    } else {
        let kind = classify_rooted(inp, dir);
        let after = push_module(
            DetectState { modules: st.modules, visited: st.visited.insert(dir) },
            inp,
            dir,
            kind,
        );
        if kind == ModuleKind::Feature {
            walk_feature(after, inp, children(inp.dirs, dir), 0)
        } else {
            after
        }
    }
}

/// Considers every child of a project root, from index `i` on.
pub open spec fn walk_root(st: DetectState, inp: DetectInput, subs: Seq<Seq<char>>, i: int) -> DetectState
    decreases subs.len() - i,
{
    if i < 0 || i >= subs.len() {
        st
    } else {
        walk_root(emit(st, inp, subs[i]), inp, subs, i + 1)
    }
}

/// Considers the children of every project root, from index `i` on.
pub open spec fn walk_roots(st: DetectState, inp: DetectInput, roots: Seq<Seq<char>>, i: int) -> DetectState
    decreases roots.len() - i,
{
    if i < 0 || i >= roots.len() {
        st
    } else {
        walk_roots(walk_root(st, inp, children(inp.dirs, roots[i]), 0), inp, roots, i + 1)
    }
}

/// The modules discovered, before sorting by root.
pub open spec fn discovered(inp: DetectInput, roots: Seq<Seq<char>>) -> Seq<ModuleView> {
    walk_roots(
        DetectState { modules: Seq::empty(), visited: Set::empty() },
        inp,
        roots.sort_by(|a: Seq<char>, b: Seq<char>| lex_le(a, b, true)),
        0,
    ).modules
}

/// The views of a sequence of modules.
pub open spec fn mviews(ms: Seq<Module>) -> Seq<ModuleView> {
    ms.map_values(|m: Module| module_view(m))
}

/// The input of module discovery for a scan.
pub open spec fn detect_input(scan: ScanResult, min_files: usize) -> DetectInput {
    DetectInput { files: rels(scan.files@), dirs: views_of(scan.directories@), min_files: min_files as nat }
}

/// The sub-directories of `d`, in path order.
fn children_exec(dirs: &Vec<String>, d: &[char]) -> (r: Vec<String>)
    ensures
        views_of(r@) == children(views_of(dirs@), d@),
{
    let ghost pred = |c: Seq<char>| parent_of(c) == d@;
    let mut found: Vec<String> = Vec::new();
    let mut i: usize = 0;
    while i < dirs.len()
        invariant
            i <= dirs.len(),
            pred == (|c: Seq<char>| parent_of(c) == d@),
            views_of(found@) == views_of(dirs@).take(i as int).filter(pred),
        decreases dirs.len() - i,
    {
        let c = chars_of(dirs[i].as_str());
        let p = parent_chars(c.as_slice());
        proof {
            views_of(dirs@).take(i as int).lemma_filter_push(views_of(dirs@)[i as int], pred);
            assert(views_of(dirs@).take(i as int).push(views_of(dirs@)[i as int]) =~= views_of(dirs@).take(i + 1));
        }
        if crate::text::chars_eq(p.as_slice(), d) {
            found.push(dirs[i].clone());
        }
        assert(views_of(found@) =~= views_of(dirs@).take(i + 1).filter(pred));
        i = i + 1;
    }
    assert(views_of(dirs@).take(dirs@.len() as int) =~= views_of(dirs@));
    let ghost unsorted = found@;
    let r = sort_strings(found, true);
    proof {
        lemma_map_multiset(unsorted, r@, |s: String| s@);
        assert(views_of(unsorted) =~= unsorted.map_values(|s: String| s@));
        assert(views_of(r@) =~= r@.map_values(|s: String| s@));
        crate::order::lemma_sorted_views(r@, views_of(dirs@).filter(pred), true);
    }
    r
}

/// The forward-slashed files under `dir`, in file order.
fn files_under_exec(files: &Vec<String>, dir: &[char]) -> (r: Vec<String>)
    ensures
        views_of(r@) == files_under(views_of(files@), dir@),
{
    let ghost pred = |f: Seq<char>| path_starts_with(f, dir@);
    let ghost fv = views_of(files@);
    let mut out: Vec<String> = Vec::new();
    let mut i: usize = 0;
    while i < files.len()
        invariant
            i <= files.len(),
            fv == views_of(files@),
            pred == (|f: Seq<char>| path_starts_with(f, dir@)),
            views_of(out@) == fv.take(i as int).filter(pred).map_values(|f: Seq<char>| slashes(f)),
        decreases files.len() - i,
    {
        let f = chars_of(files[i].as_str());
        let ghost prev = fv.take(i as int).filter(pred);
        let ghost old_out = out@;
        proof {
            fv.take(i as int).lemma_filter_push(fv[i as int], pred);
            assert(fv.take(i as int).push(fv[i as int]) =~= fv.take(i + 1));
            assert(f@ == fv[i as int]);
        }
        if starts_with_path(f.as_slice(), dir) {
            let s = crate::paths::forward_slashes(files[i].as_str());
            out.push(s);
            proof {
                assert(pred(fv[i as int]));
                assert(fv.take(i + 1).filter(pred) == prev.push(fv[i as int]));
                assert(views_of(out@) =~= views_of(old_out).push(s@));
                assert(prev.push(fv[i as int]).map_values(|f: Seq<char>| slashes(f))
                    =~= prev.map_values(|f: Seq<char>| slashes(f)).push(slashes(fv[i as int])));
            }
        } else {
            proof {
                assert(!pred(fv[i as int]));
                assert(fv.take(i + 1).filter(pred) == prev);
            }
        }
        i = i + 1;
    }
    assert(fv.take(fv.len() as int) =~= fv);
    out
}

/// Records a module for `dir` unless it owns fewer than `min_files` files.
fn push_module_exec(
    modules: &mut Vec<Module>,
    files: &Vec<String>,
    dir: &[char],
    kind: ModuleKind,
    min_files: usize,
    Ghost(inp): Ghost<DetectInput>,
    Ghost(visited): Ghost<Set<Seq<char>>>,
)
    requires
        inp.files == views_of(files@),
        inp.min_files == min_files as nat,
    ensures
        (DetectState { modules: mviews(final(modules)@), visited }) == push_module(
            DetectState { modules: mviews(old(modules)@), visited },
            inp,
            dir@,
            kind,
        ),
{
    let owned = files_under_exec(files, dir);
    if owned.len() < min_files {
        return;
    }
    let name = file_name_chars(dir);
    let root = crate::paths::forward_slashes(string_from_chars(dir).as_str());
    let m = Module { name: string_from_chars(name.as_slice()), kind, root, files: owned };
    let ghost old_ms = modules@;
    modules.push(m);
    assert(mviews(modules@) =~= mviews(old_ms).push(module_view(m)));
}

/// The kind of a directory met at the top of a project.
fn classify_rooted_exec(files: &Vec<String>, dir: &[char], Ghost(inp): Ghost<DetectInput>) -> (r: ModuleKind)
    requires
        inp.files == views_of(files@),
    ensures
        r == classify_rooted(inp, dir@),
{
    let d = string_from_chars(dir);
    if contains_manifest(d.as_str(), files) {
        ModuleKind::Package
    } else {
        let name = file_name_chars(dir);
        let layers = layer_list();
        if in_list(name.as_slice(), layers.as_slice()) {
            ModuleKind::Layer
        } else {
            ModuleKind::Feature
        }
    }
}

/// Whether a name is hidden or excluded.
fn skipped_name_exec(n: &[char]) -> (r: bool)
    ensures
        r == skipped_name(n@),
{
    let excluded = excluded_list();
    (n.len() > 0 && n[0] == '.') || in_list(n, excluded.as_slice())
}

/// Mutable state of module discovery.
struct Walk {
    modules: Vec<Module>,
    visited: Vec<String>,
}

/// The spec state of a walk.
spec fn walk_state(w: Walk) -> DetectState {
    DetectState { modules: mviews(w.modules@), visited: views_of(w.visited@).to_set() }
}

/// Marks `dir` visited; returns whether it was new.
fn visit(w: &mut Walk, dir: &[char]) -> (fresh: bool)
    ensures
        fresh == !walk_state(*old(w)).visited.contains(dir@),
        walk_state(*final(w)) == (DetectState {
            modules: walk_state(*old(w)).modules,
            visited: walk_state(*old(w)).visited.insert(dir@),
        }),
{
    if list_contains(&w.visited, dir) {
        assert(views_of(w.visited@).contains(dir@));
        assert(views_of(w.visited@).to_set().insert(dir@) =~= views_of(w.visited@).to_set());
        false
    } else {
        let ghost old_v = views_of(w.visited@);
        w.visited.push(string_from_chars(dir));
        assert(views_of(w.visited@) =~= old_v.push(dir@));
        assert(views_of(w.visited@).to_set() =~= old_v.to_set().insert(dir@)) by {
            assert(old_v.to_set().insert(dir@) =~= old_v.push(dir@).to_set()) by {
                assert forall|x: Seq<char>| old_v.push(dir@).to_set().contains(x) <==> old_v.to_set().insert(dir@).contains(x) by {
                    if old_v.push(dir@).contains(x) {
                        let k = choose|k: int| 0 <= k < old_v.push(dir@).len() && old_v.push(dir@)[k] == x;
                        if k < old_v.len() {
                            assert(old_v[k] == x);
                        }
                    }
                    if old_v.contains(x) {
                        let k = choose|k: int| 0 <= k < old_v.len() && old_v[k] == x;
                        assert(old_v.push(dir@)[k] == x);
                    }
                    if x == dir@ {
                        assert(old_v.push(dir@)[old_v.len() as int] == x);
                    }
                }
            }
        }
        true
    }
}

fn push_in_walk(w: &mut Walk, files: &Vec<String>, dir: &[char], kind: ModuleKind, min_files: usize, Ghost(inp): Ghost<DetectInput>)
    requires
        inp.files == views_of(files@),
        inp.min_files == min_files as nat,
    ensures
        walk_state(*final(w)) == push_module(walk_state(*old(w)), inp, dir@, kind),
{
    let ghost v = walk_state(*w).visited;
    push_module_exec(&mut w.modules, files, dir, kind, min_files, Ghost(inp), Ghost(v));
}

fn emit_exec(w: &mut Walk, files: &Vec<String>, dirs: &Vec<String>, dir: &[char], min_files: usize, Ghost(inp): Ghost<DetectInput>)
    requires
        inp.files == views_of(files@),
        inp.dirs == views_of(dirs@),
        inp.min_files == min_files as nat,
    ensures
        walk_state(*final(w)) == emit(walk_state(*old(w)), inp, dir@),
{
    let name = file_name_chars(dir);
    let is_dotdot = name.len() == 2 && name[0] == '.' && name[1] == '.';
    proof {
        if name@.len() == 2 && name@[0] == '.' && name@[1] == '.' {
            assert(name@ =~= seq!['.', '.']);
        }
    }
    if name.len() == 0 || is_dotdot || name[0] == '.' {
        return;
    }
    let src = chars_of("src");
    let app = chars_of("app");
    if crate::text::chars_eq(name.as_slice(), src.as_slice()) || crate::text::chars_eq(name.as_slice(), app.as_slice()) {
        let subs = children_exec(dirs, dir);
        let mut i: usize = 0;
        let ghost st0 = walk_state(*w);
        while i < subs.len()
            invariant
                inp.files == views_of(files@),
                inp.dirs == views_of(dirs@),
                inp.min_files == min_files as nat,
                i <= subs.len(),
                walk_src(st0, inp, views_of(subs@), 0) == walk_src(walk_state(*w), inp, views_of(subs@), i as int),
            decreases subs.len() - i,
        {
            let sub = chars_of(subs[i].as_str());
            let sub_name = file_name_chars(sub.as_slice());
            assert(sub@ == views_of(subs@)[i as int]);
            let ghost before = walk_state(*w);
            if !skipped_name_exec(sub_name.as_slice()) {
                if visit(w, sub.as_slice()) {
                    let kind = classify_rooted_exec(files, sub.as_slice(), Ghost(inp));
                    push_in_walk(w, files, sub.as_slice(), kind, min_files, Ghost(inp));
                } else {
                    assert(walk_state(*w).visited =~= before.visited);
                    assert(walk_state(*w) == before);
                }
            }
            i = i + 1;
        }
        return;
    }
    let excluded = excluded_list();
    if in_list(name.as_slice(), excluded.as_slice()) {
        return;
    }
    let nests = nest_list();
    if in_list(name.as_slice(), nests.as_slice()) {
        let subs = children_exec(dirs, dir);
        let mut i: usize = 0;
        let ghost st0 = walk_state(*w);
        while i < subs.len()
            invariant
                inp.files == views_of(files@),
                inp.dirs == views_of(dirs@),
                inp.min_files == min_files as nat,
                i <= subs.len(),
                walk_nest(st0, inp, views_of(subs@), 0) == walk_nest(walk_state(*w), inp, views_of(subs@), i as int),
            decreases subs.len() - i,
        {
            let sub = chars_of(subs[i].as_str());
            assert(sub@ == views_of(subs@)[i as int]);
            let ghost before = walk_state(*w);
            if visit(w, sub.as_slice()) {
                let d = string_from_chars(sub.as_slice());
                let kind = if contains_manifest(d.as_str(), files) {
                    ModuleKind::Package
                } else {
                    ModuleKind::Feature
                };
                push_in_walk(w, files, sub.as_slice(), kind, min_files, Ghost(inp));
            } else {
                assert(walk_state(*w).visited =~= before.visited);
                assert(walk_state(*w) == before);
            }
            i = i + 1;
        }
        return;
    }
    let ghost before = walk_state(*w);
    if !visit(w, dir) {
        assert(walk_state(*w).visited =~= before.visited);
        return;
    }
    let kind = classify_rooted_exec(files, dir, Ghost(inp));
    push_in_walk(w, files, dir, kind, min_files, Ghost(inp));
    if kind == ModuleKind::Feature {
        let subs = children_exec(dirs, dir);
        let mut i: usize = 0;
        let ghost st0 = walk_state(*w);
        while i < subs.len()
            invariant
                inp.files == views_of(files@),
                inp.dirs == views_of(dirs@),
                inp.min_files == min_files as nat,
                i <= subs.len(),
                walk_feature(st0, inp, views_of(subs@), 0) == walk_feature(walk_state(*w), inp, views_of(subs@), i as int),
            decreases subs.len() - i,
        {
            let sub = chars_of(subs[i].as_str());
            let sub_name = file_name_chars(sub.as_slice());
            assert(sub@ == views_of(subs@)[i as int]);
            if !skipped_name_exec(sub_name.as_slice()) && !list_contains(&w.visited, sub.as_slice()) {
                let kind = classify_rooted_exec(files, sub.as_slice(), Ghost(inp));
                push_in_walk(w, files, sub.as_slice(), kind, min_files, Ghost(inp));
            }
            i = i + 1;
        }
    }
}

/// Detects logical modules from a scan.
#[derive(Debug, Clone, Copy)]
pub struct ModuleDetector {
    /// Minimum number of files a directory must contain to be a module.
    pub min_files: usize,
}

impl Default for ModuleDetector {
    fn default() -> (r: Self)
        ensures
            r.min_files == 1,
    {
        ModuleDetector { min_files: 1 }
    }
}

/// The relative paths of the scanned files, in scan order.
pub fn rel_paths(files: &Vec<ScannedFile>) -> (r: Vec<String>)
    ensures
        views_of(r@) == rels(files@),
{
    let mut out: Vec<String> = Vec::new();
    let mut i: usize = 0;
    while i < files.len()
        invariant
            i <= files.len(),
            out@.len() == i,
            forall|k: int| 0 <= k < i ==> #[trigger] out@[k]@ == files@[k].rel@,
        decreases files.len() - i,
    {
        let s = files[i].rel.clone();
        out.push(s);
        i = i + 1;
    }
    assert(views_of(out@) =~= rels(files@));
    out
}

/// A copy of a list of strings.
pub(crate) fn copy_strings(v: &Vec<String>) -> (r: Vec<String>)
    ensures
        r@ == v@,
{
    let mut out: Vec<String> = Vec::new();
    let mut i: usize = 0;
    while i < v.len()
        invariant
            i <= v.len(),
            out@ == v@.take(i as int),
        decreases v.len() - i,
    {
        let s = v[i].clone();
        out.push(s);
        assert(out@ =~= v@.take(i + 1));
        i = i + 1;
    }
    assert(v@.take(v@.len() as int) =~= v@);
    out
}

impl ModuleDetector {
    /// Detects modules. Candidates are the children of each project root,
    /// roots taken in path order; the result is sorted by module root.
    pub fn detect(&self, scan: &ScanResult) -> (r: Vec<Module>)
        ensures
            mviews(r@).to_multiset() == discovered(
                detect_input(*scan, self.min_files),
                views_of(scan.project_roots@),
            ).to_multiset(),
            sorted_by(r@, |a: Module, b: Module| lex_le(a.root@, b.root@, true)),
    {
        let ghost inp = detect_input(*scan, self.min_files);
        let files = rel_paths(&scan.files);
        let dirs = &scan.directories;
        let roots = sort_strings(copy_strings(&scan.project_roots), true);
        let ghost rootsv = views_of(roots@);
        proof {
            let le = |a: Seq<char>, b: Seq<char>| lex_le(a, b, true);
            lemma_map_multiset(scan.project_roots@, roots@, |s: String| s@);
            assert(views_of(scan.project_roots@) =~= scan.project_roots@.map_values(|s: String| s@));
            assert(views_of(roots@) =~= roots@.map_values(|s: String| s@));
            crate::order::lemma_sorted_views(roots@, views_of(scan.project_roots@), true);
        }
        let mut w = Walk { modules: Vec::new(), visited: Vec::new() };
        let ghost init = walk_state(w);
        proof {
            assert(init.modules =~= Seq::<ModuleView>::empty());
            assert(init.visited =~= Set::<Seq<char>>::empty());
        }
        let mut i: usize = 0;
        while i < roots.len()
            invariant
                inp == detect_input(*scan, self.min_files),
                inp.files == views_of(files@),
                inp.dirs == views_of(dirs@),
                inp.min_files == self.min_files as nat,
                rootsv == views_of(roots@),
                i <= roots.len(),
                walk_roots(init, inp, rootsv, 0) == walk_roots(walk_state(w), inp, rootsv, i as int),
            decreases roots.len() - i,
        {
            let root = chars_of(roots[i].as_str());
            assert(root@ == rootsv[i as int]);
            let kids = children_exec(dirs, root.as_slice());
            let ghost st_i = walk_state(w);
            let mut j: usize = 0;
            while j < kids.len()
                invariant
                    inp.files == views_of(files@),
                    inp.dirs == views_of(dirs@),
                    inp.min_files == self.min_files as nat,
                    j <= kids.len(),
                    walk_root(st_i, inp, views_of(kids@), 0) == walk_root(walk_state(w), inp, views_of(kids@), j as int),
                decreases kids.len() - j,
            {
                let kid = chars_of(kids[j].as_str());
                assert(kid@ == views_of(kids@)[j as int]);
                emit_exec(&mut w, &files, dirs, kid.as_slice(), self.min_files, Ghost(inp));
                j = j + 1;
            }
            i = i + 1;
        }
        let ghost found = w.modules@;
        let before = |a: &Module, b: &Module| -> (o: bool)
            ensures
                o == lex_le(a.root@, b.root@, true),
            {
                compare_str(a.root.as_str(), b.root.as_str(), true) <= 0
            };
        proof {
            lemma_key_preorder(|m: Module| m.root@, true);
            assert((|a: Module, b: Module| lex_le((|m: Module| m.root@)(a), (|m: Module| m.root@)(b), true))
                =~= (|a: Module, b: Module| lex_le(a.root@, b.root@, true)));
        }
        let r = stable_sort(w.modules, &before, Ghost(|a: Module, b: Module| lex_le(a.root@, b.root@, true)));
        proof {
            lemma_map_multiset(found, r@, |m: Module| module_view(m));
        }
        r
    }
}

} // verus!
