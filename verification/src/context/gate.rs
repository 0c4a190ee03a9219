//! Content eligibility gate: which candidate files are worth sending as
//! context. Binary/media assets and generated lockfiles or bundles are
//! classified up front and dropped before scoring.

use vstd::prelude::*;
use crate::paths::{after_last, after_last_chars, slashes};
use crate::text::{chars_ends_with, chars_has, chars_of, ends_with, has_char, in_list, str_views};

verus! {

/// How a candidate file is classified for context eligibility.
#[derive(Debug, Clone, Copy, PartialEq, Eq, Structural)]
pub enum ContentClass {
    /// Textual source, config or documentation worth including.
    Source,
    /// Binary or media asset (images, archives, executables, ...).
    NonText,
    /// Generated or heavy file with little value as context (lockfiles,
    /// minified bundles).
    Generated,
}

/// Binary/media file extensions.
pub open spec fn binary_extensions() -> Seq<Seq<char>> {
    seq![
        "png"@, "jpg"@, "jpeg"@, "gif"@, "webp"@, "ico"@, "bmp"@, "tif"@, "tiff"@, "avif"@, "heic"@,
        "mp3"@, "mp4"@, "wav"@, "ogg"@, "oga"@, "opus"@, "flac"@, "aac"@, "webm"@, "mov"@, "avi"@, "mkv"@,
        "pdf"@, "zip"@, "gz"@, "tgz"@, "tar"@, "bz2"@, "xz"@, "7z"@, "rar"@, "exe"@, "dll"@, "so"@,
        "dylib"@, "o"@, "a"@, "lib"@, "bin"@, "wasm"@, "class"@, "jar"@, "war"@, "ttf"@, "otf"@,
        "woff"@, "woff2"@, "eot"@, "dat"@, "db"@, "sqlite"@, "sqlite3"@, "pak"@, "pyc"@, "pyo"@,
    ]
}

fn binary_list() -> (r: Vec<&'static str>)
    ensures
        str_views(r@) == binary_extensions(),
{
    let r = vec![
        "png", "jpg", "jpeg", "gif", "webp", "ico", "bmp", "tif", "tiff", "avif", "heic",
        "mp3", "mp4", "wav", "ogg", "oga", "opus", "flac", "aac", "webm", "mov", "avi", "mkv",
        "pdf", "zip", "gz", "tgz", "tar", "bz2", "xz", "7z", "rar", "exe", "dll", "so",
        "dylib", "o", "a", "lib", "bin", "wasm", "class", "jar", "war", "ttf", "otf",
        "woff", "woff2", "eot", "dat", "db", "sqlite", "sqlite3", "pak", "pyc", "pyo",
    ];
    assert(str_views(r@) =~= binary_extensions());
    r
}

/// Generated file names (exact basenames).
pub open spec fn generated_filenames() -> Seq<Seq<char>> {
    seq![
        "package-lock.json"@, "npm-shrinkwrap.json"@, "pnpm-lock.yaml"@, "yarn.lock"@,
        "bun.lockb"@, "Cargo.lock"@, "composer.lock"@, "Gemfile.lock"@, "poetry.lock"@,
        "Pipfile.lock"@, "mix.lock"@, "pubspec.lock"@, "deno.lock"@, "flake.lock"@,
        "gradle.lockfile"@, "go.sum"@,
    ]
}

fn generated_list() -> (r: Vec<&'static str>)
    ensures
        str_views(r@) == generated_filenames(),
{
    let r = vec![
        "package-lock.json", "npm-shrinkwrap.json", "pnpm-lock.yaml", "yarn.lock",
        "bun.lockb", "Cargo.lock", "composer.lock", "Gemfile.lock", "poetry.lock",
        "Pipfile.lock", "mix.lock", "pubspec.lock", "deno.lock", "flake.lock",
        "gradle.lockfile", "go.sum",
    ];
    assert(str_views(r@) =~= generated_filenames());
    r
}

/// Suffixes of generated files (`.lock`, `.min.js`, `.min.css`).
pub open spec fn generated_suffixes() -> Seq<Seq<char>> {
    seq![".lock"@, ".min.js"@, ".min.css"@]
}

/// Whether `name` ends with one of the generated suffixes.
pub open spec fn has_generated_suffix(name: Seq<char>) -> bool {
    exists|i: int| 0 <= i < generated_suffixes().len() && ends_with(name, #[trigger] generated_suffixes()[i])
}

/// The class of a repository-relative path: its basename (after the last
/// `/` once `\` is read as `/`) names a generated file, else it has a `.`
/// and the text after its last `.` is a binary extension, else it ends with
/// a generated suffix.
pub open spec fn class_of(path: Seq<char>) -> ContentClass {
    let base = after_last(slashes(path), '/');
    if generated_filenames().contains(base) {
        ContentClass::Generated
    } else if has_char(base, '.') && binary_extensions().contains(after_last(base, '.')) {
        ContentClass::NonText
    } else if has_generated_suffix(base) {
        ContentClass::Generated
    } else {
        ContentClass::Source
    }
}

/// Classifies a repository-relative path. Separators are normalized, so
/// Windows and POSIX paths classify identically.
pub fn classify(path: &str) -> (r: ContentClass)
    ensures
        r == class_of(path@),
{
    let normalized = crate::paths::forward_slashes(path);
    let nchars = chars_of(normalized.as_str());
    let base = after_last_chars(nchars.as_slice(), '/');
    let generated = generated_list();
    if in_list(base.as_slice(), generated.as_slice()) {
        return ContentClass::Generated;
    }
    let ext = after_last_chars(base.as_slice(), '.');
    let binary = binary_list();
    if chars_has(base.as_slice(), '.') && in_list(ext.as_slice(), binary.as_slice()) {
        return ContentClass::NonText;
    }
    let suffixes = [".lock", ".min.js", ".min.css"];
    let mut i: usize = 0;
    while i < 3
        invariant
            i <= 3,
            suffixes@.len() == 3,
            str_views(suffixes@) == generated_suffixes(),
            base@ == after_last(slashes(path@), '/'),
            !generated_filenames().contains(base@),
            !(has_char(base@, '.') && binary_extensions().contains(after_last(base@, '.'))),
            forall|j: int| 0 <= j < i ==> !ends_with(base@, #[trigger] generated_suffixes()[j]),
        decreases 3 - i,
    {
        let suffix = chars_of(suffixes[i]);
        assert(suffix@ == generated_suffixes()[i as int]);
        if chars_ends_with(base.as_slice(), suffix.as_slice()) {
            assert(ends_with(base@, generated_suffixes()[i as int]));
            assert(has_generated_suffix(base@));
            return ContentClass::Generated;
        }
        i = i + 1;
    }
    ContentClass::Source
}

/// Whether a repository-relative path is eligible for the context bundle.
pub fn is_eligible(path: &str) -> (r: bool)
    ensures
        r == (class_of(path@) == ContentClass::Source),
{
    let c = classify(path);
    match c {
        ContentClass::Source => true,
        _ => false,
    }
}

/// Classification does not depend on the separator style: a path and the
/// same path with `\` read as `/` classify alike.
pub proof fn law_classify_separator_independent(path: Seq<char>)
    ensures
        class_of(path) == class_of(slashes(path)),
{
    assert(slashes(slashes(path)) =~= slashes(path));
}

} // verus!
