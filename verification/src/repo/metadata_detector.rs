//! Tooling metadata detection: package managers, build systems, lockfiles,
//! configuration files, CI pipelines and container setup.

use vstd::prelude::*;
use crate::order::{insert_sorted, strictly_sorted, views_of};
use crate::paths::{
    components_chars, file_name_chars, file_name_of, path_components, views, join_chars, normalize, normalize_lexical, path_join,
    path_starts_with, slashes, starts_with_path,
};
use crate::repo::models::{ProjectMetadata, ScanResult, ScannedFile};
use crate::text::{
    chars_ends_with, chars_eq, chars_of, chars_starts_with, ends_with, in_list, starts_with,
    str_views, to_owned_string,
};

verus! {

/// Filenames that mark a directory as a project root.
pub open spec fn manifest_names() -> Seq<Seq<char>> {
    seq![
        "package.json"@,
        "Cargo.toml"@,
        "pyproject.toml"@,
        "requirements.txt"@,
        "requirements-dev.txt"@,
        "setup.py"@,
        "Pipfile"@,
        "go.mod"@,
        "Gopkg.toml"@,
        "pom.xml"@,
        "build.gradle"@,
        "build.gradle.kts"@,
        "settings.gradle"@,
        "settings.gradle.kts"@,
        "sbt.build"@,
        "mix.exs"@,
        "composer.json"@,
        "pubspec.yaml"@,
        "Package.swift"@,
        "Gemfile"@,
        "meson.build"@,
        "Cargo.lock"@,
    ]
}

/// The manifest filenames, as a list.
pub fn manifest_list() -> (r: Vec<&'static str>)
    ensures
        str_views(r@) == manifest_names(),
{
    let r = vec![
        "package.json",
        "Cargo.toml",
        "pyproject.toml",
        "requirements.txt",
        "requirements-dev.txt",
        "setup.py",
        "Pipfile",
        "go.mod",
        "Gopkg.toml",
        "pom.xml",
        "build.gradle",
        "build.gradle.kts",
        "settings.gradle",
        "settings.gradle.kts",
        "sbt.build",
        "mix.exs",
        "composer.json",
        "pubspec.yaml",
        "Package.swift",
        "Gemfile",
        "meson.build",
        "Cargo.lock",
    ];
    assert(str_views(r@) =~= manifest_names());
    r
}

/// Whether `dir` (repository-relative) directly holds a manifest file: some
/// file is, component by component, `dir` joined with a manifest name
/// (`packages/ui/` and `packages//ui` hold `packages/ui/package.json`).
pub open spec fn dir_has_manifest(dir: Seq<char>, files: Seq<Seq<char>>) -> bool {
    exists|i: int, j: int|
        #![trigger manifest_names()[i], files[j]]
        0 <= i < manifest_names().len() && 0 <= j < files.len() && path_components(files[j])
            == path_components(dir).push(manifest_names()[i])
}

/// Whether the first `n` components of `a` and `b` agree.
fn prefix_agrees(a: &Vec<Vec<char>>, b: &Vec<Vec<char>>, n: usize) -> (r: bool)
    requires
        n <= a@.len(),
        n <= b@.len(),
    ensures
        r == (forall|m: int| 0 <= m < n ==> #[trigger] a@[m]@ == b@[m]@),
{
    let mut m: usize = 0;
    while m < n
        invariant
            m <= n,
            n <= a@.len(),
            n <= b@.len(),
            forall|q: int| 0 <= q < m ==> #[trigger] a@[q]@ == b@[q]@,
        decreases n - m,
    {
        if !chars_eq(a[m].as_slice(), b[m].as_slice()) {
            return false;
        }
        m = m + 1;
    }
    true
}

/// Whether `dir` (a repository-relative path) contains a manifest that marks
/// it as a project root; `file_set` holds repository-relative file paths.
pub fn contains_manifest(dir: &str, file_set: &Vec<String>) -> (r: bool)
    ensures
        r == dir_has_manifest(dir@, views_of(file_set@)),
{
    let names = manifest_list();
    let d = chars_of(dir);
    let dc = components_chars(d.as_slice());
    let ghost dcv = path_components(dir@);
    let ghost files = views_of(file_set@);
    let mut j: usize = 0;
    while j < file_set.len()
        invariant
            str_views(names@) == manifest_names(),
            views(dc@) == dcv,
            dcv == path_components(dir@),
            files == views_of(file_set@),
            j <= file_set.len(),
            forall|i: int, k: int|
                #![trigger manifest_names()[i], files[k]]
                0 <= i < manifest_names().len() && 0 <= k < j ==> path_components(files[k])
                    != dcv.push(manifest_names()[i]),
        decreases file_set.len() - j,
    {
        let f = chars_of(file_set[j].as_str());
        let fc = components_chars(f.as_slice());
        let ghost fcv = views(fc@);
        assert(fcv == path_components(files[j as int]));
        if fc.len() > dc.len() && fc.len() - 1 == dc.len() && prefix_agrees(&fc, &dc, dc.len()) {
            let last = fc[dc.len()].as_slice();
            if in_list(last, names.as_slice()) {
                proof {
                    let i = choose|i: int| 0 <= i < str_views(names@).len() && str_views(names@)[i] == last@;
                    assert(fcv =~= dcv.push(manifest_names()[i]));
                    assert(files[j as int] == file_set@[j as int]@);
                }
                return true;
            }
            proof {
                assert forall|i: int| 0 <= i < manifest_names().len() implies fcv != dcv.push(#[trigger] manifest_names()[i]) by {
                    if fcv == dcv.push(manifest_names()[i]) {
                        assert(fcv[dcv.len() as int] == manifest_names()[i]);
                        assert(str_views(names@).contains(last@));
                    }
                }
            }
        } else {
            proof {
                assert forall|i: int| 0 <= i < manifest_names().len() implies fcv != dcv.push(#[trigger] manifest_names()[i]) by {
                    if fcv == dcv.push(manifest_names()[i]) {
                        assert forall|m: int| 0 <= m < dc@.len() implies #[trigger] fc@[m]@ == dc@[m]@ by {
                            assert(fcv[m] == dcv[m]);
                        }
                    }
                }
            }
        }
        j = j + 1;
    }
    false
}

/// Whether `list` holds a string equal to `s`.
pub fn list_contains(list: &Vec<String>, s: &[char]) -> (r: bool)
    ensures
        r == views_of(list@).contains(s@),
{
    let mut i: usize = 0;
    while i < list.len()
        invariant
            i <= list.len(),
            forall|k: int| 0 <= k < i ==> list@[k]@ != s@,
        decreases list.len() - i,
    {
        let c = chars_of(list[i].as_str());
        if chars_eq(c.as_slice(), s) {
            assert(views_of(list@)[i as int] == s@);
            return true;
        }
        i = i + 1;
    }
    assert forall|k: int| 0 <= k < views_of(list@).len() implies views_of(list@)[k] != s@ by {
        assert(views_of(list@)[k] == list@[k]@);
    }
    false
}

/// The value paired with the first key equal to `n`.
pub open spec fn lookup(keys: Seq<Seq<char>>, vals: Seq<Seq<char>>, n: Seq<char>) -> Option<Seq<char>>
    decreases keys.len(),
{
    if keys.len() == 0 || vals.len() == 0 {
        None
    } else if keys[0] == n {
        Some(vals[0])
    } else {
        lookup(keys.drop_first(), vals.drop_first(), n)
    }
}

proof fn lemma_lookup_found(keys: Seq<Seq<char>>, vals: Seq<Seq<char>>, n: Seq<char>, i: int)
    requires
        keys.len() == vals.len(),
        0 <= i < keys.len(),
        keys[i] == n,
        forall|j: int| 0 <= j < i ==> keys[j] != n,
    ensures
        lookup(keys, vals, n) == Some(vals[i]),
    decreases i,
{
    if i > 0 {
        assert(keys[0] != n);
        assert forall|j: int| 0 <= j < i - 1 implies keys.drop_first()[j] != n by {
            assert(keys.drop_first()[j] == keys[j + 1]);
        }
        lemma_lookup_found(keys.drop_first(), vals.drop_first(), n, i - 1);
    }
}

proof fn lemma_lookup_none(keys: Seq<Seq<char>>, vals: Seq<Seq<char>>, n: Seq<char>)
    requires
        forall|j: int| 0 <= j < keys.len() ==> keys[j] != n,
    ensures
        lookup(keys, vals, n) is None,
    decreases keys.len(),
{
    if keys.len() > 0 && vals.len() > 0 {
        assert(keys[0] != n);
        assert forall|j: int| 0 <= j < keys.len() - 1 implies keys.drop_first()[j] != n by {
            assert(keys.drop_first()[j] == keys[j + 1]);
        }
        lemma_lookup_none(keys.drop_first(), vals.drop_first(), n);
    }
}

/// The index of the first entry of `keys` equal to `n`.
pub fn find_key(n: &[char], keys: &Vec<&'static str>) -> (r: Option<usize>)
    ensures
        match r {
            Some(i) => i < keys.len() && keys@[i as int]@ == n@ && forall|j: int|
                0 <= j < i ==> keys@[j]@ != n@,
            None => forall|j: int| 0 <= j < keys@.len() ==> keys@[j]@ != n@,
        },
{
    let mut i: usize = 0;
    while i < keys.len()
        invariant
            i <= keys.len(),
            forall|j: int| 0 <= j < i ==> keys@[j]@ != n@,
        decreases keys.len() - i,
    {
        let k = chars_of(keys[i]);
        if chars_eq(k.as_slice(), n) {
            return Some(i);
        }
        i = i + 1;
    }
    None
}

/// The value of the pair table `(keys, vals)` for `n`.
pub fn lookup_exec(n: &[char], keys: &Vec<&'static str>, vals: &Vec<&'static str>) -> (r: Option<&'static str>)
    requires
        keys.len() == vals.len(),
    ensures
        match r {
            Some(v) => lookup(str_views(keys@), str_views(vals@), n@) == Some(v@),
            None => lookup(str_views(keys@), str_views(vals@), n@) is None,
        },
{
    match find_key(n, keys) {
        Some(i) => {
            proof {
                assert forall|j: int| 0 <= j < i implies str_views(keys@)[j] != n@ by {
                    assert(str_views(keys@)[j] == keys@[j]@);
                }
                lemma_lookup_found(str_views(keys@), str_views(vals@), n@, i as int);
            }
            Some(vals[i])
        },
        None => {
            proof {
                assert forall|j: int| 0 <= j < str_views(keys@).len() implies str_views(keys@)[j] != n@ by {
                    assert(str_views(keys@)[j] == keys@[j]@);
                }
                lemma_lookup_none(str_views(keys@), str_views(vals@), n@);
            }
            None
        },
    }
}

/// Lockfile names.
pub open spec fn lock_keys() -> Seq<Seq<char>> {
    seq![
        "package-lock.json"@,
        "pnpm-lock.yaml"@,
        "pnpm-lock.yml"@,
        "yarn.lock"@,
        "bun.lockb"@,
        "bun.lock"@,
        "Cargo.lock"@,
        "poetry.lock"@,
        "Pipfile.lock"@,
        "uv.lock"@,
        "go.sum"@,
        "composer.lock"@,
        "Gemfile.lock"@,
    ]
}

/// The package manager of each lockfile name.
pub open spec fn lock_vals() -> Seq<Seq<char>> {
    seq![
        "npm"@,
        "pnpm"@,
        "pnpm"@,
        "yarn"@,
        "bun"@,
        "bun"@,
        "cargo"@,
        "poetry"@,
        "pipenv"@,
        "uv"@,
        "go"@,
        "composer"@,
        "bundler"@,
    ]
}

fn lock_tables() -> (r: (Vec<&'static str>, Vec<&'static str>))
    ensures
        str_views(r.0@) == lock_keys(),
        str_views(r.1@) == lock_vals(),
        r.0.len() == r.1.len(),
{
    let k = vec![
        "package-lock.json",
        "pnpm-lock.yaml",
        "pnpm-lock.yml",
        "yarn.lock",
        "bun.lockb",
        "bun.lock",
        "Cargo.lock",
        "poetry.lock",
        "Pipfile.lock",
        "uv.lock",
        "go.sum",
        "composer.lock",
        "Gemfile.lock",
    ];
    let v = vec![
        "npm",
        "pnpm",
        "pnpm",
        "yarn",
        "bun",
        "bun",
        "cargo",
        "poetry",
        "pipenv",
        "uv",
        "go",
        "composer",
        "bundler",
    ];
    assert(str_views(k@) =~= lock_keys());
    assert(str_views(v@) =~= lock_vals());
    (k, v)
}

/// Build definition file names.
pub open spec fn build_keys() -> Seq<Seq<char>> {
    seq![
        "Makefile"@,
        "makefile"@,
        "GNUmakefile"@,
        "CMakeLists.txt"@,
        "meson.build"@,
        "build.gradle"@,
        "build.gradle.kts"@,
        "settings.gradle"@,
        "settings.gradle.kts"@,
        "pom.xml"@,
        "BUILD"@,
        "BUILD.bazel"@,
        "WORKSPACE"@,
        "justfile"@,
        "Taskfile.yml"@,
        "Taskfile.yaml"@,
        "Rakefile"@,
        "BUCK"@,
        "build.ninja"@,
    ]
}

/// The build system of each build definition file name.
pub open spec fn build_vals() -> Seq<Seq<char>> {
    seq![
        "make"@,
        "make"@,
        "make"@,
        "cmake"@,
        "meson"@,
        "gradle"@,
        "gradle"@,
        "gradle"@,
        "gradle"@,
        "maven"@,
        "bazel"@,
        "bazel"@,
        "bazel"@,
        "just"@,
        "task"@,
        "task"@,
        "rake"@,
        "buck"@,
        "ninja"@,
    ]
}

fn build_tables() -> (r: (Vec<&'static str>, Vec<&'static str>))
    ensures
        str_views(r.0@) == build_keys(),
        str_views(r.1@) == build_vals(),
        r.0.len() == r.1.len(),
{
    let k = vec![
        "Makefile",
        "makefile",
        "GNUmakefile",
        "CMakeLists.txt",
        "meson.build",
        "build.gradle",
        "build.gradle.kts",
        "settings.gradle",
        "settings.gradle.kts",
        "pom.xml",
        "BUILD",
        "BUILD.bazel",
        "WORKSPACE",
        "justfile",
        "Taskfile.yml",
        "Taskfile.yaml",
        "Rakefile",
        "BUCK",
        "build.ninja",
    ];
    let v = vec![
        "make",
        "make",
        "make",
        "cmake",
        "meson",
        "gradle",
        "gradle",
        "gradle",
        "gradle",
        "maven",
        "bazel",
        "bazel",
        "bazel",
        "just",
        "task",
        "task",
        "rake",
        "buck",
        "ninja",
    ];
    assert(str_views(k@) =~= build_keys());
    assert(str_views(v@) =~= build_vals());
    (k, v)
}

/// Notable configuration file names.
pub open spec fn config_names() -> Seq<Seq<char>> {
    seq![
        "package.json"@,
        "tsconfig.json"@,
        "jsconfig.json"@,
        "Cargo.toml"@,
        "pyproject.toml"@,
        "requirements.txt"@,
        "Pipfile"@,
        "go.mod"@,
        ".gitignore"@,
        ".gitattributes"@,
        ".editorconfig"@,
        ".prettierrc"@,
        ".prettierrc.json"@,
        ".eslintrc"@,
        ".eslintrc.json"@,
        ".eslintrc.js"@,
        ".eslintrc.yml"@,
        "eslint.config.js"@,
        "eslint.config.mjs"@,
        ".eslintignore"@,
        ".npmrc"@,
        ".nvmrc"@,
        ".node-version"@,
        "pnpm-workspace.yaml"@,
        ".yarnrc.yml"@,
        "biome.json"@,
        "biome.jsonc"@,
        ".env.example"@,
        ".env.development"@,
        ".env.production"@,
        "jest.config.js"@,
        "jest.config.ts"@,
        "vitest.config.ts"@,
        "vite.config.ts"@,
        "vite.config.js"@,
        "next.config.js"@,
        "next.config.mjs"@,
        "tailwind.config.js"@,
        "tailwind.config.ts"@,
        "webpack.config.js"@,
        "rollup.config.js"@,
        "vue.config.js"@,
        "nuxt.config.ts"@,
        "postcss.config.js"@,
        "babel.config.js"@,
        "esbuild.config.js"@,
        "deno.json"@,
        "deno.jsonc"@,
        "Cargo.lock"@,
        "rust-toolchain.toml"@,
        "rustfmt.toml"@,
        "clippy.toml"@,
        "mypy.ini"@,
        ".flake8"@,
        "ruff.toml"@,
        ".pre-commit-config.yaml"@,
        "docker-compose.yml"@,
        "docker-compose.yaml"@,
        "compose.yaml"@,
        "compose.yml"@,
        ".dockerignore"@,
    ]
}

fn config_list() -> (r: Vec<&'static str>)
    ensures
        str_views(r@) == config_names(),
{
    let r = vec![
        "package.json",
        "tsconfig.json",
        "jsconfig.json",
        "Cargo.toml",
        "pyproject.toml",
        "requirements.txt",
        "Pipfile",
        "go.mod",
        ".gitignore",
        ".gitattributes",
        ".editorconfig",
        ".prettierrc",
        ".prettierrc.json",
        ".eslintrc",
        ".eslintrc.json",
        ".eslintrc.js",
        ".eslintrc.yml",
        "eslint.config.js",
        "eslint.config.mjs",
        ".eslintignore",
        ".npmrc",
        ".nvmrc",
        ".node-version",
        "pnpm-workspace.yaml",
        ".yarnrc.yml",
        "biome.json",
        "biome.jsonc",
        ".env.example",
        ".env.development",
        ".env.production",
        "jest.config.js",
        "jest.config.ts",
        "vitest.config.ts",
        "vite.config.ts",
        "vite.config.js",
        "next.config.js",
        "next.config.mjs",
        "tailwind.config.js",
        "tailwind.config.ts",
        "webpack.config.js",
        "rollup.config.js",
        "vue.config.js",
        "nuxt.config.ts",
        "postcss.config.js",
        "babel.config.js",
        "esbuild.config.js",
        "deno.json",
        "deno.jsonc",
        "Cargo.lock",
        "rust-toolchain.toml",
        "rustfmt.toml",
        "clippy.toml",
        "mypy.ini",
        ".flake8",
        "ruff.toml",
        ".pre-commit-config.yaml",
        "docker-compose.yml",
        "docker-compose.yaml",
        "compose.yaml",
        "compose.yml",
        ".dockerignore",
    ];
    assert(str_views(r@) =~= config_names());
    r
}

/// CI configuration file names (and nested paths) and their CI system.
pub open spec fn ci_keys() -> Seq<Seq<char>> {
    seq![
        ".github/workflows"@,
        ".gitlab-ci.yml"@,
        "Jenkinsfile"@,
        "buildkite.yml"@,
        ".buildkite"@,
        ".circleci/config.yml"@,
        "azure-pipelines.yml"@,
        "appveyor.yml"@,
        "bitbucket-pipelines.yml"@,
        "travis.yml"@,
        "drone.yml"@,
    ]
}

/// The CI system of each entry of [`ci_keys`].
pub open spec fn ci_vals() -> Seq<Seq<char>> {
    seq![
        "github_actions"@,
        "gitlab_ci"@,
        "jenkins"@,
        "buildkite"@,
        "buildkite"@,
        "circleci"@,
        "azure_pipelines"@,
        "appveyor"@,
        "bitbucket_pipelines"@,
        "travis_ci"@,
        "drone"@,
    ]
}

fn ci_tables() -> (r: (Vec<&'static str>, Vec<&'static str>))
    ensures
        str_views(r.0@) == ci_keys(),
        str_views(r.1@) == ci_vals(),
        r.0.len() == r.1.len(),
{
    let k = vec![
        ".github/workflows",
        ".gitlab-ci.yml",
        "Jenkinsfile",
        "buildkite.yml",
        ".buildkite",
        ".circleci/config.yml",
        "azure-pipelines.yml",
        "appveyor.yml",
        "bitbucket-pipelines.yml",
        "travis.yml",
        "drone.yml",
    ];
    let v = vec![
        "github_actions",
        "gitlab_ci",
        "jenkins",
        "buildkite",
        "buildkite",
        "circleci",
        "azure_pipelines",
        "appveyor",
        "bitbucket_pipelines",
        "travis_ci",
        "drone",
    ];
    assert(str_views(k@) =~= ci_keys());
    assert(str_views(v@) =~= ci_vals());
    (k, v)
}

/// The CI file names that are looked up in [`ci_keys`].
pub open spec fn ci_file_names() -> Seq<Seq<char>> {
    seq![
        ".gitlab-ci.yml"@,
        "Jenkinsfile"@,
        "buildkite.yml"@,
        "azure-pipelines.yml"@,
        "appveyor.yml"@,
        "bitbucket-pipelines.yml"@,
        "travis.yml"@,
        "drone.yml"@,
    ]
}

fn ci_file_list() -> (r: Vec<&'static str>)
    ensures
        str_views(r@) == ci_file_names(),
{
    let r = vec![
        ".gitlab-ci.yml",
        "Jenkinsfile",
        "buildkite.yml",
        "azure-pipelines.yml",
        "appveyor.yml",
        "bitbucket-pipelines.yml",
        "travis.yml",
        "drone.yml",
    ];
    assert(str_views(r@) =~= ci_file_names());
    r
}

/// JavaScript lockfile names.
pub open spec fn is_js_lockfile(n: Seq<char>) -> bool {
    ends_with(n, "lock.json"@) || n == "pnpm-lock.yaml"@ || n == "pnpm-lock.yml"@ || n
        == "yarn.lock"@ || n == "bun.lockb"@ || n == "bun.lock"@
}

/// Python dependency manifests.
pub open spec fn is_python_manifest(n: Seq<char>) -> bool {
    n == "requirements.txt"@ || n == "setup.py"@ || n == "pyproject.toml"@ || n == "Pipfile"@
}

/// Docker-related file names.
pub open spec fn is_docker_file(n: Seq<char>) -> bool {
    starts_with(n, "Dockerfile"@) || starts_with(n, "docker-compose"@) || n == "compose.yml"@
        || n == "compose.yaml"@
}

/// .NET project and solution files.
pub open spec fn is_dotnet_file(n: Seq<char>) -> bool {
    ends_with(n, ".csproj"@) || ends_with(n, ".sln"@)
}

/// The CI system a file name announces.
pub open spec fn file_ci(n: Seq<char>) -> Option<Seq<char>> {
    if ci_file_names().contains(n) {
        lookup(ci_keys(), ci_vals(), n)
    } else {
        None
    }
}

/// The CI system a (normalised) directory announces.
pub open spec fn dir_ci(d: Seq<char>) -> Option<Seq<char>> {
    if path_starts_with(d, ".github/workflows"@) || path_starts_with(d, ".buildkite"@)
        || path_starts_with(d, ".circleci"@) {
        if path_starts_with(d, ".github"@) {
            Some("github_actions"@)
        } else if path_starts_with(d, ".circleci"@) {
            Some("circleci"@)
        } else {
            Some("buildkite"@)
        }
    } else {
        None
    }
}

/// The file name of a scanned file.
pub open spec fn fname(f: ScannedFile) -> Seq<char> {
    file_name_of(f.rel@)
}

/// Some file's name satisfies `pred`.
pub open spec fn any_name(fs: Seq<ScannedFile>, pred: spec_fn(Seq<char>) -> bool) -> bool {
    exists|j: int| 0 <= j < fs.len() && pred(#[trigger] fname(fs[j]))
}

/// The values `f` gives to the files' names.
pub open spec fn name_values(fs: Seq<ScannedFile>, f: spec_fn(Seq<char>) -> Option<Seq<char>>) -> Set<Seq<char>> {
    Set::new(|v: Seq<char>| exists|j: int| 0 <= j < fs.len() && f(#[trigger] fname(fs[j])) == Some(v))
}

/// The forward-slashed paths of the files whose name satisfies `pred`, in
/// file order.
pub open spec fn select_paths(fs: Seq<ScannedFile>, pred: spec_fn(Seq<char>) -> bool) -> Seq<Seq<char>>
    decreases fs.len(),
{
    if fs.len() == 0 {
        Seq::empty()
    } else {
        let prev = select_paths(fs.drop_last(), pred);
        if pred(fname(fs.last())) {
            prev.push(slashes(fs.last().rel@))
        } else {
            prev
        }
    }
}

/// The package manager a lockfile name announces.
pub open spec fn lock_manager(n: Seq<char>) -> Option<Seq<char>> {
    lookup(lock_keys(), lock_vals(), n)
}

/// The build system a file name announces.
pub open spec fn build_system(n: Seq<char>) -> Option<Seq<char>> {
    lookup(build_keys(), build_vals(), n)
}

/// Package managers: those of the lockfiles, `npm` for a `package.json`
/// without a JavaScript lockfile, `cargo` for Cargo files, `go` for
/// `go.mod`, and `pip` for Python manifests unless poetry, uv or pipenv was
/// found.
pub open spec fn spec_package_managers(fs: Seq<ScannedFile>) -> Set<Seq<char>> {
    let locks = name_values(fs, |n: Seq<char>| lock_manager(n));
    let has_js_lock = any_name(fs, |n: Seq<char>| lock_manager(n) is Some && is_js_lockfile(n));
    let s1 = if any_name(fs, |n: Seq<char>| n == "package.json"@) && !has_js_lock {
        locks.insert("npm"@)
    } else {
        locks
    };
    let s2 = if any_name(fs, |n: Seq<char>| n == "Cargo.toml"@ || n == "Cargo.lock"@) {
        s1.insert("cargo"@)
    } else {
        s1
    };
    let s3 = if any_name(fs, |n: Seq<char>| n == "go.mod"@) {
        s2.insert("go"@)
    } else {
        s2
    };
    if any_name(fs, |n: Seq<char>| is_python_manifest(n)) && !locks.contains("poetry"@)
        && !locks.contains("uv"@) && !locks.contains("pipenv"@) {
        s3.insert("pip"@)
    } else {
        s3
    }
}

/// Build systems: those of build definition files, plus `dotnet` for .NET
/// project or solution files.
pub open spec fn spec_build_systems(fs: Seq<ScannedFile>) -> Set<Seq<char>> {
    let b = name_values(fs, |n: Seq<char>| build_system(n));
    if any_name(fs, |n: Seq<char>| is_dotnet_file(n)) {
        b.insert("dotnet"@)
    } else {
        b
    }
}

/// CI systems announced by file names or by (normalised) directories.
pub open spec fn spec_ci(fs: Seq<ScannedFile>, dirs: Seq<String>) -> Set<Seq<char>> {
    name_values(fs, |n: Seq<char>| file_ci(n)).union(
        Set::new(|c: Seq<char>| exists|d: int| 0 <= d < dirs.len() && dir_ci(normalize(#[trigger] dirs[d]@)) == Some(c)),
    )
}

/// What [`MetadataDetector::detect`] reports for a scan.
pub open spec fn metadata_of(m: ProjectMetadata, fs: Seq<ScannedFile>, dirs: Seq<String>) -> bool {
    &&& strictly_sorted(views_of(m.package_managers@), false)
    &&& views_of(m.package_managers@).to_set() == spec_package_managers(fs)
    &&& strictly_sorted(views_of(m.build_systems@), false)
    &&& views_of(m.build_systems@).to_set() == spec_build_systems(fs)
    &&& views_of(m.lockfiles@) == select_paths(fs, |n: Seq<char>| lock_manager(n) is Some)
    &&& views_of(m.config_files@) == select_paths(fs, |n: Seq<char>| config_names().contains(n))
    &&& views_of(m.manifests@) == select_paths(fs, |n: Seq<char>| manifest_names().contains(n))
    &&& strictly_sorted(views_of(m.ci@), false)
    &&& views_of(m.ci@).to_set() == spec_ci(fs, dirs)
    &&& m.has_docker == any_name(fs, |n: Seq<char>| is_docker_file(n))
}

proof fn lemma_take_step<T>(fs: Seq<T>, i: int)
    requires
        0 <= i < fs.len(),
    ensures
        fs.take(i + 1).drop_last() == fs.take(i),
        fs.take(i + 1).last() == fs[i],
        fs.take(i + 1).len() == i + 1,
{
    assert(fs.take(i + 1).drop_last() =~= fs.take(i));
}

proof fn lemma_any_name_step(fs: Seq<ScannedFile>, i: int, pred: spec_fn(Seq<char>) -> bool)
    requires
        0 <= i < fs.len(),
    ensures
        any_name(fs.take(i + 1), pred) == (any_name(fs.take(i), pred) || pred(fname(fs[i]))),
{
    lemma_take_step(fs, i);
    if any_name(fs.take(i), pred) {
        let j = choose|j: int| 0 <= j < fs.take(i).len() && pred(#[trigger] fname(fs.take(i)[j]));
        assert(fs.take(i + 1)[j] == fs.take(i)[j]);
    }
    if pred(fname(fs[i])) {
        assert(fs.take(i + 1)[i] == fs[i]);
    }
    if any_name(fs.take(i + 1), pred) {
        let j = choose|j: int| 0 <= j < fs.take(i + 1).len() && pred(#[trigger] fname(fs.take(i + 1)[j]));
        if j < i {
            assert(fs.take(i)[j] == fs.take(i + 1)[j]);
        }
    }
}

proof fn lemma_name_values_step(
    fs: Seq<ScannedFile>,
    i: int,
    f: spec_fn(Seq<char>) -> Option<Seq<char>>,
)
    requires
        0 <= i < fs.len(),
    ensures
        name_values(fs.take(i + 1), f) == (match f(fname(fs[i])) {
            Some(v) => name_values(fs.take(i), f).insert(v),
            None => name_values(fs.take(i), f),
        }),
{
    lemma_take_step(fs, i);
    let a = name_values(fs.take(i + 1), f);
    let b = match f(fname(fs[i])) {
        Some(v) => name_values(fs.take(i), f).insert(v),
        None => name_values(fs.take(i), f),
    };
    assert forall|v: Seq<char>| a.contains(v) <==> b.contains(v) by {
        if a.contains(v) {
            let j = choose|j: int| 0 <= j < fs.take(i + 1).len() && f(#[trigger] fname(fs.take(i + 1)[j])) == Some(v);
            if j < i {
                assert(fs.take(i)[j] == fs.take(i + 1)[j]);
            }
        }
        if name_values(fs.take(i), f).contains(v) {
            let j = choose|j: int| 0 <= j < fs.take(i).len() && f(#[trigger] fname(fs.take(i)[j])) == Some(v);
            assert(fs.take(i + 1)[j] == fs.take(i)[j]);
        }
        if f(fname(fs[i])) == Some(v) {
            assert(fs.take(i + 1)[i] == fs[i]);
        }
    }
    assert(a =~= b);
}

proof fn lemma_select_step(fs: Seq<ScannedFile>, i: int, pred: spec_fn(Seq<char>) -> bool)
    requires
        0 <= i < fs.len(),
    ensures
        select_paths(fs.take(i + 1), pred) == (if pred(fname(fs[i])) {
            select_paths(fs.take(i), pred).push(slashes(fs[i].rel@))
        } else {
            select_paths(fs.take(i), pred)
        }),
{
    lemma_take_step(fs, i);
}

/// Adds `lit` to a sorted set of strings.
fn add_name(v: &mut Vec<String>, lit: &str)
    requires
        strictly_sorted(views_of(old(v)@), false),
    ensures
        strictly_sorted(views_of(final(v)@), false),
        views_of(final(v)@).to_set() == views_of(old(v)@).to_set().insert(lit@),
{
    let s = to_owned_string(lit);
    insert_sorted(v, s, false);
}

/// Whether a sorted set of strings holds `lit`.
fn set_has(v: &Vec<String>, lit: &str) -> (r: bool)
    ensures
        r == views_of(v@).to_set().contains(lit@),
{
    let c = chars_of(lit);
    let r = list_contains(v, c.as_slice());
    assert(r == views_of(v@).contains(lit@));
    r
}

/// Detects project tooling metadata from a completed scan.
#[derive(Debug, Clone, Copy)]
pub struct MetadataDetector;

impl MetadataDetector {
    /// Whether `dir` (a repository-relative path) contains a manifest that
    /// marks it as a project root.
    pub fn contains_manifest(dir: &str, file_set: &Vec<String>) -> (r: bool)
        ensures
            r == dir_has_manifest(dir@, views_of(file_set@)),
    {
        contains_manifest(dir, file_set)
    }

    /// Analyses tooling metadata for `scan`.
    pub fn detect(&self, scan: &ScanResult) -> (m: ProjectMetadata)
        ensures
            metadata_of(m, scan.files@, scan.directories@),
    {
        let ghost fs = scan.files@;
        let (lock_k, lock_v) = lock_tables();
        let (build_k, build_v) = build_tables();
        let (ci_k, ci_v) = ci_tables();
        let configs = config_list();
        let manifests_l = manifest_list();
        let ci_files = ci_file_list();
        let mut locks: Vec<String> = Vec::new();
        let mut builds: Vec<String> = Vec::new();
        let mut ci: Vec<String> = Vec::new();
        let mut lockfiles: Vec<String> = Vec::new();
        let mut config_files: Vec<String> = Vec::new();
        let mut manifests: Vec<String> = Vec::new();
        let mut has_package_json = false;
        let mut has_js_lockfile = false;
        let mut has_cargo_toml = false;
        let mut has_go_mod = false;
        let mut has_python_manifest = false;
        let mut has_docker = false;
        let mut has_dotnet = false;
        let mut i: usize = 0;
        proof {
            assert(views_of(locks@).to_set() =~= Set::<Seq<char>>::empty());
            assert(fs.take(0) =~= Seq::<ScannedFile>::empty());
            assert(name_values(fs.take(0), |n: Seq<char>| lock_manager(n)) =~= Set::<Seq<char>>::empty());
            assert(name_values(fs.take(0), |n: Seq<char>| build_system(n)) =~= Set::<Seq<char>>::empty());
            assert(name_values(fs.take(0), |n: Seq<char>| file_ci(n)) =~= Set::<Seq<char>>::empty());
            assert(views_of(lockfiles@) =~= Seq::<Seq<char>>::empty());
        }
        while i < scan.files.len()
            invariant
                fs == scan.files@,
                i <= fs.len(),
                str_views(lock_k@) == lock_keys(),
                str_views(lock_v@) == lock_vals(),
                lock_k.len() == lock_v.len(),
                str_views(build_k@) == build_keys(),
                str_views(build_v@) == build_vals(),
                build_k.len() == build_v.len(),
                str_views(ci_k@) == ci_keys(),
                str_views(ci_v@) == ci_vals(),
                ci_k.len() == ci_v.len(),
                str_views(configs@) == config_names(),
                str_views(manifests_l@) == manifest_names(),
                str_views(ci_files@) == ci_file_names(),
                strictly_sorted(views_of(locks@), false),
                views_of(locks@).to_set() == name_values(fs.take(i as int), |n: Seq<char>| lock_manager(n)),
                strictly_sorted(views_of(builds@), false),
                views_of(builds@).to_set() == name_values(fs.take(i as int), |n: Seq<char>| build_system(n)),
                strictly_sorted(views_of(ci@), false),
                views_of(ci@).to_set() == name_values(fs.take(i as int), |n: Seq<char>| file_ci(n)),
                views_of(lockfiles@) == select_paths(fs.take(i as int), |n: Seq<char>| lock_manager(n) is Some),
                views_of(config_files@) == select_paths(fs.take(i as int), |n: Seq<char>| config_names().contains(n)),
                views_of(manifests@) == select_paths(fs.take(i as int), |n: Seq<char>| manifest_names().contains(n)),
                has_package_json == any_name(fs.take(i as int), |n: Seq<char>| n == "package.json"@),
                has_js_lockfile == any_name(fs.take(i as int), |n: Seq<char>| lock_manager(n) is Some && is_js_lockfile(n)),
                has_cargo_toml == any_name(fs.take(i as int), |n: Seq<char>| n == "Cargo.toml"@ || n == "Cargo.lock"@),
                has_go_mod == any_name(fs.take(i as int), |n: Seq<char>| n == "go.mod"@),
                has_python_manifest == any_name(fs.take(i as int), |n: Seq<char>| is_python_manifest(n)),
                has_docker == any_name(fs.take(i as int), |n: Seq<char>| is_docker_file(n)),
                has_dotnet == any_name(fs.take(i as int), |n: Seq<char>| is_dotnet_file(n)),
            decreases fs.len() - i,
        {
            let file = &scan.files[i];
            let rel = chars_of(file.rel.as_str());
            let name = file_name_chars(rel.as_slice());
            assert(name@ == fname(fs[i as int]));
            let ghost n = name@;
            proof {
                lemma_any_name_step(fs, i as int, |n: Seq<char>| n == "package.json"@);
                lemma_any_name_step(fs, i as int, |n: Seq<char>| lock_manager(n) is Some && is_js_lockfile(n));
                lemma_any_name_step(fs, i as int, |n: Seq<char>| n == "Cargo.toml"@ || n == "Cargo.lock"@);
                lemma_any_name_step(fs, i as int, |n: Seq<char>| n == "go.mod"@);
                lemma_any_name_step(fs, i as int, |n: Seq<char>| is_python_manifest(n));
                lemma_any_name_step(fs, i as int, |n: Seq<char>| is_docker_file(n));
                lemma_any_name_step(fs, i as int, |n: Seq<char>| is_dotnet_file(n));
                lemma_name_values_step(fs, i as int, |n: Seq<char>| lock_manager(n));
                lemma_name_values_step(fs, i as int, |n: Seq<char>| build_system(n));
                lemma_name_values_step(fs, i as int, |n: Seq<char>| file_ci(n));
                lemma_select_step(fs, i as int, |n: Seq<char>| lock_manager(n) is Some);
                lemma_select_step(fs, i as int, |n: Seq<char>| config_names().contains(n));
                lemma_select_step(fs, i as int, |n: Seq<char>| manifest_names().contains(n));
            }
            let slashed = crate::paths::forward_slashes(file.rel.as_str());
            // Lockfiles and package managers.
            match lookup_exec(name.as_slice(), &lock_k, &lock_v) {
                Some(manager) => {
                    add_name(&mut locks, manager);
                    let is_js = chars_ends_with(name.as_slice(), chars_of("lock.json").as_slice())
                        || chars_eq(name.as_slice(), chars_of("pnpm-lock.yaml").as_slice())
                        || chars_eq(name.as_slice(), chars_of("pnpm-lock.yml").as_slice())
                        || chars_eq(name.as_slice(), chars_of("yarn.lock").as_slice())
                        || chars_eq(name.as_slice(), chars_of("bun.lockb").as_slice())
                        || chars_eq(name.as_slice(), chars_of("bun.lock").as_slice());
                    if is_js {
                        has_js_lockfile = true;
                    }
                    lockfiles.push(slashed.clone());
                },
                None => {},
            }
            if chars_eq(name.as_slice(), chars_of("package.json").as_slice()) {
                has_package_json = true;
            }
            if chars_eq(name.as_slice(), chars_of("Cargo.toml").as_slice()) || chars_eq(
                name.as_slice(),
                chars_of("Cargo.lock").as_slice(),
            ) {
                has_cargo_toml = true;
            }
            if chars_eq(name.as_slice(), chars_of("go.mod").as_slice()) {
                has_go_mod = true;
            }
            if chars_eq(name.as_slice(), chars_of("requirements.txt").as_slice()) || chars_eq(
                name.as_slice(),
                chars_of("setup.py").as_slice(),
            ) || chars_eq(name.as_slice(), chars_of("pyproject.toml").as_slice()) || chars_eq(
                name.as_slice(),
                chars_of("Pipfile").as_slice(),
            ) {
                has_python_manifest = true;
            }
            // Build systems.
            match lookup_exec(name.as_slice(), &build_k, &build_v) {
                Some(system) => {
                    add_name(&mut builds, system);
                },
                None => {},
            }
            if chars_ends_with(name.as_slice(), chars_of(".csproj").as_slice()) || chars_ends_with(
                name.as_slice(),
                chars_of(".sln").as_slice(),
            ) {
                has_dotnet = true;
            }
            // Configuration files and manifests.
            if in_list(name.as_slice(), configs.as_slice()) {
                config_files.push(slashed.clone());
            }
            if in_list(name.as_slice(), manifests_l.as_slice()) {
                manifests.push(slashed.clone());
            }
            // Containers.
            if chars_starts_with(name.as_slice(), chars_of("Dockerfile").as_slice())
                || chars_starts_with(name.as_slice(), chars_of("docker-compose").as_slice())
                || chars_eq(name.as_slice(), chars_of("compose.yml").as_slice()) || chars_eq(
                name.as_slice(),
                chars_of("compose.yaml").as_slice(),
            ) {
                has_docker = true;
            }
            // CI.
            if in_list(name.as_slice(), ci_files.as_slice()) {
                match lookup_exec(name.as_slice(), &ci_k, &ci_v) {
                    Some(system) => {
                        add_name(&mut ci, system);
                    },
                    None => {},
                }
            }
            i = i + 1;
        }
        proof {
            assert(fs.take(fs.len() as int) =~= fs);
        }
        // Nested CI paths covered by directory checks.
        let ghost dirs = scan.directories@;
        let ghost file_ci_set = views_of(ci@).to_set();
        let mut d: usize = 0;
        while d < scan.directories.len()
            invariant
                dirs == scan.directories@,
                d <= dirs.len(),
                strictly_sorted(views_of(ci@), false),
                views_of(ci@).to_set() == file_ci_set.union(
                    Set::new(|c: Seq<char>| exists|k: int| 0 <= k < d && dir_ci(normalize(#[trigger] dirs[k]@)) == Some(c)),
                ),
            decreases dirs.len() - d,
        {
            let rel_s = normalize_lexical(scan.directories[d].as_str());
            let rel = chars_of(rel_s.as_str());
            let ghost old_ci = views_of(ci@).to_set();
            let gw = chars_of(".github/workflows");
            let bk = chars_of(".buildkite");
            let cc = chars_of(".circleci");
            let gh = chars_of(".github");
            let ghost found: Option<Seq<char>> = dir_ci(rel@);
            if starts_with_path(rel.as_slice(), gw.as_slice()) || starts_with_path(
                rel.as_slice(),
                bk.as_slice(),
            ) || starts_with_path(rel.as_slice(), cc.as_slice()) {
                if starts_with_path(rel.as_slice(), gh.as_slice()) {
                    add_name(&mut ci, "github_actions");
                } else if starts_with_path(rel.as_slice(), cc.as_slice()) {
                    add_name(&mut ci, "circleci");
                } else {
                    add_name(&mut ci, "buildkite");
                }
            }
            proof {
                let before = Set::new(|c: Seq<char>| exists|k: int| 0 <= k < d && dir_ci(normalize(#[trigger] dirs[k]@)) == Some(c));
                let after = Set::new(|c: Seq<char>| exists|k: int| 0 <= k < d + 1 && dir_ci(normalize(#[trigger] dirs[k]@)) == Some(c));
                let step = match dir_ci(normalize(dirs[d as int]@)) {
                    Some(c) => before.insert(c),
                    None => before,
                };
                assert forall|c: Seq<char>| after.contains(c) <==> step.contains(c) by {
                    if after.contains(c) {
                        let k = choose|k: int| 0 <= k < d + 1 && dir_ci(normalize(#[trigger] dirs[k]@)) == Some(c);
                        if k < d {
                            assert(before.contains(c));
                        }
                    }
                    if before.contains(c) {
                        let k = choose|k: int| 0 <= k < d && dir_ci(normalize(#[trigger] dirs[k]@)) == Some(c);
                        assert(after.contains(c));
                    }
                }
                assert(after =~= step);
                assert(views_of(ci@).to_set() =~= file_ci_set.union(after));
            }
            d = d + 1;
        }
        // Package managers.
        let mut package_managers = locks.clone();
        let ghost lockset = views_of(locks@).to_set();
        assert(views_of(package_managers@) == views_of(locks@));
        if has_package_json && !has_js_lockfile {
            add_name(&mut package_managers, "npm");
        }
        if has_cargo_toml {
            add_name(&mut package_managers, "cargo");
        }
        if has_go_mod {
            add_name(&mut package_managers, "go");
        }
        if has_python_manifest && !set_has(&locks, "poetry") && !set_has(&locks, "uv") && !set_has(
            &locks,
            "pipenv",
        ) {
            add_name(&mut package_managers, "pip");
        }
        let mut build_systems = builds;
        if has_dotnet {
            add_name(&mut build_systems, "dotnet");
        }
        proof {
            let cs = Set::new(|c: Seq<char>| exists|k: int| 0 <= k < dirs.len() && dir_ci(normalize(#[trigger] dirs[k]@)) == Some(c));
            let cs2 = Set::new(|c: Seq<char>| exists|d: int| 0 <= d < dirs.len() && dir_ci(normalize(#[trigger] dirs[d]@)) == Some(c));
            assert(cs =~= cs2);
        }
        ProjectMetadata {
            package_managers,
            build_systems,
            lockfiles,
            config_files,
            manifests,
            ci,
            has_docker,
        }
    }
}

} // verus!
