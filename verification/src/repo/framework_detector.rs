//! Framework detection from manifests and configuration files.
//!
//! Detection is driven by a project's own metadata: `package.json`
//! dependency maps and a `next.config.*` fallback for JavaScript, the
//! dependency files of Python projects, and `Cargo.toml` dependency lines.

use vstd::prelude::*;
use crate::json::{JsonValue, json_parse, get_spec, parse_json, json_get};
use crate::paths::{file_name_of, file_name_chars, split_char, split_chars, views};
use crate::pattern::{regex_captures, group_of, groups_view, matches_view, captures, group_at};
use crate::repo::language::{Framework, all_frameworks};
use crate::text::{
    starts_with, contains_seq, trim_start, chars_of, chars_starts_with, chars_contains,
    trim_start_chars, in_list, str_views, chars_eq,
};

verus! {

/// Which dependency table a name is looked up in.
#[derive(Clone, Copy, PartialEq, Eq, Structural)]
pub enum DepTable {
    /// `package.json` dependency names.
    Npm,
    /// Rust crate names.
    Cargo,
    /// Python distribution names.
    Python,
}

/// The framework a dependency name stands for in a table.
pub open spec fn dep_framework(t: DepTable, n: Seq<char>) -> Option<Framework> {
    match t {
        DepTable::Npm => if n == "next"@ {
            Some(Framework::NextJs)
        } else if n == "react"@ {
            Some(Framework::React)
        } else if n == "express"@ {
            Some(Framework::Express)
        } else if n == "@nestjs/core"@ {
            Some(Framework::NestJs)
        } else if n == "vite"@ {
            Some(Framework::Vite)
        } else {
            None
        },
        DepTable::Cargo => if n == "axum"@ {
            Some(Framework::Axum)
        } else if n == "actix-web"@ {
            Some(Framework::Actix)
        } else if n == "rocket"@ {
            Some(Framework::Rocket)
        } else {
            None
        },
        DepTable::Python => if n == "fastapi"@ {
            Some(Framework::FastApi)
        } else if n == "flask"@ {
            Some(Framework::Flask)
        } else if n == "django"@ {
            Some(Framework::Django)
        } else {
            None
        },
    }
}

/// The framework a dependency name stands for in a table.
pub fn lookup_dep(t: DepTable, n: &str) -> (r: Option<Framework>)
    ensures
        r == dep_framework(t, n@),
{
    let c = chars_of(n);
    let c = c.as_slice();
    match t {
        DepTable::Npm => if chars_eq(c, chars_of("next").as_slice()) {
            Some(Framework::NextJs)
        } else if chars_eq(c, chars_of("react").as_slice()) {
            Some(Framework::React)
        } else if chars_eq(c, chars_of("express").as_slice()) {
            Some(Framework::Express)
        } else if chars_eq(c, chars_of("@nestjs/core").as_slice()) {
            Some(Framework::NestJs)
        } else if chars_eq(c, chars_of("vite").as_slice()) {
            Some(Framework::Vite)
        } else {
            None
        },
        DepTable::Cargo => if chars_eq(c, chars_of("axum").as_slice()) {
            Some(Framework::Axum)
        } else if chars_eq(c, chars_of("actix-web").as_slice()) {
            Some(Framework::Actix)
        } else if chars_eq(c, chars_of("rocket").as_slice()) {
            Some(Framework::Rocket)
        } else {
            None
        },
        DepTable::Python => if chars_eq(c, chars_of("fastapi").as_slice()) {
            Some(Framework::FastApi)
        } else if chars_eq(c, chars_of("flask").as_slice()) {
            Some(Framework::Flask)
        } else if chars_eq(c, chars_of("django").as_slice()) {
            Some(Framework::Django)
        } else {
            None
        },
    }
}

/// The Python dependency name of a Python framework.
pub open spec fn python_dep(f: Framework) -> Option<Seq<char>> {
    match f {
        Framework::FastApi => Some("fastapi"@),
        Framework::Flask => Some("flask"@),
        Framework::Django => Some("django"@),
        _ => None,
    }
}

/// The Python dependency files read line by line with the Python pattern.
pub open spec fn python_manifest_names() -> Seq<Seq<char>> {
    seq![
        "requirements.txt"@,
        "requirements-dev.txt"@,
        "requirements-prod.txt"@,
        "requirements-dev.in"@,
        "Pipfile"@,
        "setup.py"@,
    ]
}

/// File names that can carry framework signals: the manifests, and any
/// name starting with `next.config`.
pub open spec fn is_framework_manifest_name(n: Seq<char>) -> bool {
    n == "package.json"@ || n == "Cargo.toml"@ || python_manifest_names().contains(n)
        || n == "pyproject.toml"@ || starts_with(n, "next.config"@)
}

/// The pattern of a framework crate in a `Cargo.toml` line; group `1` is
/// the crate name.
pub open spec fn cargo_pattern() -> Seq<char> {
    "(?m)^\\s*(?P<name>axum|actix-web|rocket)\\s*[=:]"@
}

/// The pattern of a framework at the start of a Python dependency line
/// (ASCII case ignored); group `1` is the name as written.
pub open spec fn python_pattern() -> Seq<char> {
    "(?im)^\\s*(?P<name>fastapi|flask|django)\\b"@
}

/// The frameworks named by group `1` of the matches, looked up in `t`.
pub open spec fn captured_frameworks(caps: Option<Seq<Seq<Option<Seq<char>>>>>, t: DepTable) -> Set<Framework> {
    match caps {
        None => Set::empty(),
        Some(ms) => Set::new(
            |f: Framework|
                exists|i: int|
                    0 <= i < ms.len() && #[trigger] group_of(ms[i], 1) is Some && dep_framework(t, group_of(ms[i], 1)->0) == Some(f),
        ),
    }
}

/// The frameworks among the keys of a `package.json` dependency object.
pub open spec fn deps_frameworks(d: Option<JsonValue>) -> Set<Framework> {
    match d {
        Some(JsonValue::Object(members)) => Set::new(
            |f: Framework| exists|i: int| 0 <= i < members@.len() && dep_framework(DepTable::Npm, #[trigger] members@[i].0@) == Some(f),
        ),
        _ => Set::empty(),
    }
}

/// The frameworks a parsed `package.json` declares in any of its four
/// dependency maps.
pub open spec fn package_frameworks(v: JsonValue) -> Set<Framework> {
    deps_frameworks(get_spec(v, "dependencies"@)).union(deps_frameworks(get_spec(v, "devDependencies"@))).union(
        deps_frameworks(get_spec(v, "peerDependencies"@)),
    ).union(deps_frameworks(get_spec(v, "optionalDependencies"@)))
}

/// Whether a `pyproject.toml` line mentions a dependency: it starts with
/// it after leading whitespace, or holds it right after a quote.
pub open spec fn mentions(line: Seq<char>, dep: Seq<char>) -> bool {
    starts_with(trim_start(line), dep) || contains_seq(line, seq!['"'] + dep) || contains_seq(line, seq!['\''] + dep)
}

/// Whether some line mentions the dependency of Python framework `f`.
pub open spec fn mentioned_in(lines: Seq<Seq<char>>, f: Framework) -> bool {
    python_dep(f) is Some && exists|j: int| 0 <= j < lines.len() && mentions(#[trigger] lines[j], python_dep(f)->0)
}

/// The frameworks a `pyproject.toml` text mentions. (A line is split at
/// `\n`; the `\r` that `str::lines` would also strip cannot change whether
/// a line mentions a dependency.)
pub open spec fn pyproject_frameworks(content: Seq<char>) -> Set<Framework> {
    Set::new(|f: Framework| mentioned_in(split_char(content, '\n'), f))
}

/// The frameworks one file signals, by its name and content.
pub open spec fn manifest_frameworks(name: Seq<char>, content: Seq<char>) -> Set<Framework> {
    if name == "package.json"@ {
        match json_parse(content) {
            Some(v) => package_frameworks(v),
            None => Set::empty(),
        }
    } else if name == "Cargo.toml"@ {
        captured_frameworks(regex_captures(cargo_pattern(), content), DepTable::Cargo)
    } else if python_manifest_names().contains(name) {
        captured_frameworks(regex_captures(python_pattern(), content), DepTable::Python)
    } else if name == "pyproject.toml"@ {
        pyproject_frameworks(content)
    } else if starts_with(name, "next.config"@) {
        set![Framework::NextJs]
    } else {
        Set::empty()
    }
}

/// The frameworks signalled by files given as (path, content).
pub open spec fn found_in(files: Seq<(String, String)>) -> Set<Framework>
    decreases files.len(),
{
    if files.len() == 0 {
        Set::empty()
    } else {
        found_in(files.drop_last()).union(manifest_frameworks(file_name_of(files.last().0@), files.last().1@))
    }
}

/// The position of a framework in declaration order.
pub open spec fn framework_index(f: Framework) -> int {
    match f {
        Framework::NextJs => 0,
        Framework::React => 1,
        Framework::Express => 2,
        Framework::NestJs => 3,
        Framework::Vite => 4,
        Framework::FastApi => 5,
        Framework::Flask => 6,
        Framework::Django => 7,
        Framework::Axum => 8,
        Framework::Actix => 9,
        Framework::Rocket => 10,
    }
}

fn index_of(f: Framework) -> (r: usize)
    ensures
        r == framework_index(f),
        r < 11,
        all_frameworks()[r as int] == f,
{
    match f {
        Framework::NextJs => 0,
        Framework::React => 1,
        Framework::Express => 2,
        Framework::NestJs => 3,
        Framework::Vite => 4,
        Framework::FastApi => 5,
        Framework::Flask => 6,
        Framework::Django => 7,
        Framework::Axum => 8,
        Framework::Actix => 9,
        Framework::Rocket => 10,
    }
}

/// A set of frameworks as one flag per framework in declaration order.
pub open spec fn flags_of(found: Seq<bool>, s: Set<Framework>) -> bool {
    found.len() == 11 && forall|k: int| 0 <= k < 11 ==> found[k] == s.contains(#[trigger] all_frameworks()[k])
}

proof fn lemma_index(f: Framework)
    ensures
        0 <= framework_index(f) < 11,
        all_frameworks()[framework_index(f)] == f,
{
}

proof fn lemma_all_distinct(f: Framework, k: int)
    requires
        0 <= k < 11,
        all_frameworks()[k] == f,
    ensures
        k == framework_index(f),
{
}

fn mark(found: &mut Vec<bool>, f: Framework)
    requires
        old(found)@.len() == 11,
    ensures
        final(found)@ == old(found)@.update(framework_index(f), true),
{
    let i = index_of(f);
    found.set(i, true);
}

/// Flags the frameworks named by group `1` of the matches.
pub fn collect_captured(ms: &Vec<Vec<Option<String>>>, t: DepTable, found: &mut Vec<bool>, Ghost(s): Ghost<Set<Framework>>)
    requires
        flags_of(old(found)@, s),
    ensures
        flags_of(final(found)@, s.union(captured_frameworks(Some(matches_view(ms@)), t))),
{
    let ghost mv = matches_view(ms@);
    let ghost hit = |i: int, f: Framework| group_of(mv[i], 1) is Some && dep_framework(t, group_of(mv[i], 1)->0) == Some(f);
    let mut i: usize = 0;
    while i < ms.len()
        invariant
            i <= ms.len(),
            mv == matches_view(ms@),
            found@.len() == 11,
            forall|k: int|
                0 <= k < 11 ==> found@[k] == (s.contains(#[trigger] all_frameworks()[k]) || exists|j: int|
                    0 <= j < i && group_of(mv[j], 1) is Some && dep_framework(t, group_of(mv[j], 1)->0) == Some(
                        all_frameworks()[k],
                    )),
        decreases ms.len() - i,
    {
        let ghost before = found@;
        assert(mv[i as int] == groups_view(ms@[i as int]));
        match group_at(&ms[i], 1) {
            Some(n) => {
                match lookup_dep(t, n) {
                    Some(f) => {
                        mark(found, f);
                        proof {
                            assert forall|k: int| 0 <= k < 11 implies found@[k] == (s.contains(
                                #[trigger] all_frameworks()[k],
                            ) || exists|j: int|
                                0 <= j < i + 1 && group_of(mv[j], 1) is Some && dep_framework(t, group_of(mv[j], 1)->0)
                                    == Some(all_frameworks()[k])) by {
                                if k == framework_index(f) {
                                    lemma_index(f);
                                    assert(group_of(mv[i as int], 1) is Some);
                                } else {
                                    if all_frameworks()[k] == f {
                                        lemma_all_distinct(f, k);
                                    }
                                }
                            }
                        }
                    },
                    None => {},
                }
            },
            None => {},
        }
        i = i + 1;
    }
    proof {
        assert forall|k: int| 0 <= k < 11 implies found@[k] == s.union(captured_frameworks(Some(mv), t)).contains(
            #[trigger] all_frameworks()[k],
        ) by {
        }
    }
}

/// Flags the frameworks among the keys of a dependency object.
pub fn collect_deps(d: Option<&JsonValue>, found: &mut Vec<bool>, Ghost(s): Ghost<Set<Framework>>)
    requires
        flags_of(old(found)@, s),
    ensures
        flags_of(final(found)@, s.union(deps_frameworks(match d { Some(x) => Some(*x), None => None }))),
{
    match d {
        Some(JsonValue::Object(members)) => {
            let mut i: usize = 0;
            while i < members.len()
                invariant
                    i <= members.len(),
                    found@.len() == 11,
                    forall|k: int|
                        0 <= k < 11 ==> found@[k] == (s.contains(#[trigger] all_frameworks()[k]) || exists|j: int|
                            0 <= j < i && dep_framework(DepTable::Npm, members@[j].0@) == Some(all_frameworks()[k])),
                decreases members.len() - i,
            {
                match lookup_dep(DepTable::Npm, members[i].0.as_str()) {
                    Some(f) => {
                        mark(found, f);
                        proof {
                            assert forall|k: int| 0 <= k < 11 implies found@[k] == (s.contains(
                                #[trigger] all_frameworks()[k],
                            ) || exists|j: int|
                                0 <= j < i + 1 && dep_framework(DepTable::Npm, members@[j].0@) == Some(all_frameworks()[k])) by {
                                if k == framework_index(f) {
                                    lemma_index(f);
                                } else if all_frameworks()[k] == f {
                                    lemma_all_distinct(f, k);
                                }
                            }
                        }
                    },
                    None => {},
                }
                i = i + 1;
            }
            proof {
                let dd = match d { Some(x) => Some(*x), None => None };
                assert forall|k: int| 0 <= k < 11 implies found@[k] == s.union(deps_frameworks(dd)).contains(
                    #[trigger] all_frameworks()[k],
                ) by {
                    if found@[k] && !s.contains(all_frameworks()[k]) {
                        let j = choose|j: int| 0 <= j < members@.len() && dep_framework(DepTable::Npm, members@[j].0@) == Some(all_frameworks()[k]);
                        assert(deps_frameworks(dd).contains(all_frameworks()[k]));
                    }
                }
            }
        },
        _ => {
            proof {
                let dd = match d { Some(x) => Some(*x), None => None };
                assert(s.union(deps_frameworks(dd)) =~= s);
            }
        },
    }
}

/// Whether `line` mentions `dep` as a dependency.
fn mentions_exec(line: &[char], dep: &str) -> (r: bool)
    ensures
        r == mentions(line@, dep@),
{
    let d = chars_of(dep);
    let t = trim_start_chars(line);
    if chars_starts_with(t.as_slice(), d.as_slice()) {
        return true;
    }
    let mut dq: Vec<char> = Vec::new();
    dq.push('"');
    crate::text::push_chars(&mut dq, d.as_slice());
    assert(dq@ =~= seq!['"'] + dep@);
    if chars_contains(line, dq.as_slice()) {
        return true;
    }
    let mut sq: Vec<char> = Vec::new();
    sq.push('\'');
    crate::text::push_chars(&mut sq, d.as_slice());
    assert(sq@ =~= seq!['\''] + dep@);
    chars_contains(line, sq.as_slice())
}

/// Flags the Python frameworks a `pyproject.toml` text mentions.
fn collect_pyproject(content: &str, found: &mut Vec<bool>, Ghost(s): Ghost<Set<Framework>>)
    requires
        flags_of(old(found)@, s),
    ensures
        flags_of(final(found)@, s.union(pyproject_frameworks(content@))),
{
    let c = chars_of(content);
    let lines = split_chars(c.as_slice(), '\n');
    let ghost ls = split_char(content@, '\n');
    let mut i: usize = 0;
    while i < lines.len()
        invariant
            i <= lines.len(),
            views(lines@) == ls,
            ls == split_char(content@, '\n'),
            found@.len() == 11,
            forall|k: int|
                0 <= k < 11 ==> found@[k] == (s.contains(#[trigger] all_frameworks()[k]) || mentioned_in(
                    ls.take(i as int),
                    all_frameworks()[k],
                )),
        decreases lines.len() - i,
    {
        let ghost before = found@;
        let line = lines[i].as_slice();
        assert(line@ == ls[i as int]);
        let a = mentions_exec(line, "fastapi");
        if a {
            mark(found, Framework::FastApi);
        }
        let b = mentions_exec(line, "flask");
        if b {
            mark(found, Framework::Flask);
        }
        let e = mentions_exec(line, "django");
        if e {
            mark(found, Framework::Django);
        }
        proof {
            assert forall|k: int| 0 <= k < 11 implies found@[k] == (s.contains(#[trigger] all_frameworks()[k])
                || mentioned_in(ls.take(i + 1), all_frameworks()[k])) by {
                let f = all_frameworks()[k];
                let t1 = ls.take(i as int);
                let t2 = ls.take(i + 1);
                assert(t2[i as int] == ls[i as int]);
                if python_dep(f) is Some {
                    let dep = python_dep(f)->0;
                    if mentioned_in(t1, f) {
                        let j = choose|j: int| 0 <= j < t1.len() && mentions(#[trigger] t1[j], dep);
                        assert(t2[j] == t1[j]);
                    }
                    if mentions(ls[i as int], dep) {
                        assert(mentions(t2[i as int], dep));
                    }
                    if mentioned_in(t2, f) {
                        let j = choose|j: int| 0 <= j < t2.len() && mentions(#[trigger] t2[j], dep);
                        if j < i {
                            assert(t1[j] == t2[j]);
                        }
                    }
                }
            }
        }
        i = i + 1;
    }
    proof {
        assert(ls.take(ls.len() as int) =~= ls);
        assert forall|k: int| 0 <= k < 11 implies found@[k] == s.union(pyproject_frameworks(content@)).contains(
            #[trigger] all_frameworks()[k],
        ) by {
        }
    }
}

/// Flags the frameworks one file signals.
fn collect_manifest(name: &[char], content: &str, found: &mut Vec<bool>, Ghost(s): Ghost<Set<Framework>>)
    requires
        flags_of(old(found)@, s),
    ensures
        flags_of(final(found)@, s.union(manifest_frameworks(name@, content@))),
{
    let py_names = vec![
        "requirements.txt",
        "requirements-dev.txt",
        "requirements-prod.txt",
        "requirements-dev.in",
        "Pipfile",
        "setup.py",
    ];
    assert(str_views(py_names@) =~= python_manifest_names());
    if chars_eq(name, chars_of("package.json").as_slice()) {
        match parse_json(content) {
            Some(v) => {
                let ghost d1 = deps_frameworks(get_spec(v, "dependencies"@));
                let ghost d2 = deps_frameworks(get_spec(v, "devDependencies"@));
                let ghost d3 = deps_frameworks(get_spec(v, "peerDependencies"@));
                let ghost d4 = deps_frameworks(get_spec(v, "optionalDependencies"@));
                collect_deps(json_get(&v, "dependencies"), found, Ghost(s));
                collect_deps(json_get(&v, "devDependencies"), found, Ghost(s.union(d1)));
                collect_deps(json_get(&v, "peerDependencies"), found, Ghost(s.union(d1).union(d2)));
                collect_deps(json_get(&v, "optionalDependencies"), found, Ghost(s.union(d1).union(d2).union(d3)));
                assert(s.union(d1).union(d2).union(d3).union(d4) =~= s.union(package_frameworks(v)));
            },
            None => {
                assert(s.union(Set::<Framework>::empty()) =~= s);
            },
        }
    } else if chars_eq(name, chars_of("Cargo.toml").as_slice()) {
        match captures("(?m)^\\s*(?P<name>axum|actix-web|rocket)\\s*[=:]", content) {
            Some(ms) => collect_captured(&ms, DepTable::Cargo, found, Ghost(s)),
            None => {
                assert(s.union(Set::<Framework>::empty()) =~= s);
            },
        }
    } else if in_list(name, py_names.as_slice()) {
        match captures("(?im)^\\s*(?P<name>fastapi|flask|django)\\b", content) {
            Some(ms) => collect_captured(&ms, DepTable::Python, found, Ghost(s)),
            None => {
                assert(s.union(Set::<Framework>::empty()) =~= s);
            },
        }
    } else if chars_eq(name, chars_of("pyproject.toml").as_slice()) {
        collect_pyproject(content, found, Ghost(s));
    } else if chars_starts_with(name, chars_of("next.config").as_slice()) {
        mark(found, Framework::NextJs);
        proof {
            lemma_index(Framework::NextJs);
            assert forall|k: int| 0 <= k < 11 implies found@[k] == s.union(set![Framework::NextJs]).contains(
                #[trigger] all_frameworks()[k],
            ) by {
                if all_frameworks()[k] == Framework::NextJs {
                    lemma_all_distinct(Framework::NextJs, k);
                }
            }
        }
    } else {
        assert(s.union(Set::<Framework>::empty()) =~= s);
    }
}

/// Whether a file of this name can carry framework signals, so that it is
/// worth reading.
pub fn is_framework_manifest(name: &str) -> (r: bool)
    ensures
        r == is_framework_manifest_name(name@),
{
    let py_names = vec![
        "requirements.txt",
        "requirements-dev.txt",
        "requirements-prod.txt",
        "requirements-dev.in",
        "Pipfile",
        "setup.py",
    ];
    assert(str_views(py_names@) =~= python_manifest_names());
    let n = chars_of(name);
    let n = n.as_slice();
    chars_eq(n, chars_of("package.json").as_slice()) || chars_eq(n, chars_of("Cargo.toml").as_slice())
        || in_list(n, py_names.as_slice()) || chars_eq(n, chars_of("pyproject.toml").as_slice())
        || chars_starts_with(n, chars_of("next.config").as_slice())
}

/// Detects frameworks present in a repository.
#[derive(Debug, Default, Clone, Copy)]
pub struct FrameworkDetector;

impl FrameworkDetector {
    /// Detects frameworks from the manifests of a repository, given as
    /// (repository-relative path, text) for each file that could be read.
    /// Each framework is reported once, in declaration order.
    pub fn detect(&self, manifests: &Vec<(String, String)>) -> (r: Vec<Framework>)
        ensures
            r@ == all_frameworks().filter(|f: Framework| found_in(manifests@).contains(f)),
    {
        let mut found: Vec<bool> = Vec::new();
        let mut k: usize = 0;
        while k < 11
            invariant
                k <= 11,
                found@.len() == k,
                forall|j: int| 0 <= j < k ==> !found@[j],
            decreases 11 - k,
        {
            found.push(false);
            k = k + 1;
        }
        assert(manifests@.take(0) =~= Seq::<(String, String)>::empty());
        assert(flags_of(found@, found_in(manifests@.take(0))));
        let mut i: usize = 0;
        while i < manifests.len()
            invariant
                i <= manifests.len(),
                flags_of(found@, found_in(manifests@.take(i as int))),
            decreases manifests.len() - i,
        {
            let rel = chars_of(manifests[i].0.as_str());
            let name = file_name_chars(rel.as_slice());
            collect_manifest(name.as_slice(), manifests[i].1.as_str(), &mut found, Ghost(found_in(manifests@.take(i as int))));
            assert(manifests@.take(i + 1).drop_last() =~= manifests@.take(i as int));
            assert(manifests@.take(i + 1).last() == manifests@[i as int]);
            i = i + 1;
        }
        assert(manifests@.take(manifests@.len() as int) =~= manifests@);
        let ghost set = found_in(manifests@);
        let ghost pred = |f: Framework| set.contains(f);
        let all = Framework::all();
        let mut out: Vec<Framework> = Vec::new();
        let mut k: usize = 0;
        assert(all_frameworks().take(0).filter(pred) =~= Seq::<Framework>::empty());
        while k < 11
            invariant
                k <= 11,
                all@ == all_frameworks(),
                flags_of(found@, set),
                pred == (|f: Framework| set.contains(f)),
                out@ == all_frameworks().take(k as int).filter(pred),
            decreases 11 - k,
        {
            proof {
                all_frameworks().take(k as int).lemma_filter_push(all_frameworks()[k as int], pred);
                assert(all_frameworks().take(k + 1) =~= all_frameworks().take(k as int).push(all_frameworks()[k as int]));
            }
            if found[k] {
                out.push(all[k]);
            }
            k = k + 1;
        }
        assert(all_frameworks().take(11) =~= all_frameworks());
        out
    }
}

} // verus!
