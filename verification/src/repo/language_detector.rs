//! Language detection from file extensions and well-known filenames.

use vstd::prelude::*;
use crate::paths::{extension_chars, extension_of, file_name_chars, file_name_of, last_index_of, lemma_last_index_of};
use crate::repo::language::{all_languages, Language};
use crate::repo::models::ScannedFile;
use crate::text::{chars_of, in_list, lower, lower_chars, str_views};

verus! {

/// The language of a lower-cased file extension.
pub open spec fn language_of_extension(e: Seq<char>) -> Option<Language> {
    if seq!["rs"@].contains(e) {
        Some(Language::Rust)
    } else if seq!["ts"@, "tsx"@, "mts"@, "cts"@].contains(e) {
        Some(Language::TypeScript)
    } else if seq!["js"@, "jsx"@, "mjs"@, "cjs"@].contains(e) {
        Some(Language::JavaScript)
    } else if seq!["py"@, "pyi"@].contains(e) {
        Some(Language::Python)
    } else if seq!["go"@].contains(e) {
        Some(Language::Go)
    } else if seq!["java"@].contains(e) {
        Some(Language::Java)
    } else if seq!["cs"@].contains(e) {
        Some(Language::CSharp)
    } else if seq!["c"@, "h"@].contains(e) {
        Some(Language::C)
    } else if seq!["cpp"@, "cc"@, "cxx"@, "hpp"@, "hh"@, "hxx"@, "cppm"@].contains(e) {
        Some(Language::Cpp)
    } else if seq!["json"@, "jsonc"@, "json5"@].contains(e) {
        Some(Language::Json)
    } else if seq!["yaml"@, "yml"@].contains(e) {
        Some(Language::Yaml)
    } else if seq!["toml"@, "tml"@].contains(e) {
        Some(Language::Toml)
    } else if seq!["md"@, "markdown"@].contains(e) {
        Some(Language::Markdown)
    } else {
        None
    }
}

/// The language of a well-known file name without a recognised extension.
pub open spec fn language_of_filename(n: Seq<char>) -> Option<Language> {
    if seq!["tsconfig.json"@, "tsconfig.eslint.json"@].contains(n) {
        Some(Language::TypeScript)
    } else if seq!["package.json"@, "package-lock.json"@, ".prettierrc"@].contains(n) {
        Some(Language::Json)
    } else if seq!["Cargo.toml"@, "pyproject.toml"@].contains(n) {
        Some(Language::Toml)
    } else if seq!["README"@, "CHANGELOG"@, "LICENSE"@].contains(n) {
        Some(Language::Markdown)
    } else {
        None
    }
}

/// The language of a path: by its (case-insensitive) extension, falling
/// back to well-known file names.
pub open spec fn language_of_path(p: Seq<char>) -> Option<Language> {
    let name = file_name_of(p);
    let by_ext = match extension_of(name) {
        Some(e) => language_of_extension(lower(e)),
        None => None,
    };
    match by_ext {
        Some(l) => Some(l),
        None => language_of_filename(name),
    }
}

/// How many of `fs` are detected as `l`.
pub open spec fn language_count(fs: Seq<ScannedFile>, l: Language) -> nat
    decreases fs.len(),
{
    if fs.len() == 0 {
        0
    } else {
        language_count(fs.drop_last(), l) + if language_of_path(fs.last().rel@) == Some(l) {
            1nat
        } else {
            0nat
        }
    }
}

/// A language paired with its (positive) number of occurrences in `fs`.
pub open spec fn count_entry(fs: Seq<ScannedFile>, e: (Language, usize)) -> bool {
    e.1 > 0 && e.1 == language_count(fs, e.0)
}

fn in_literals(e: &[char], list: Vec<&'static str>) -> (r: bool)
    ensures
        r == str_views(list@).contains(e@),
{
    in_list(e, list.as_slice())
}

fn language_of_extension_exec(e: &[char]) -> (r: Option<Language>)
    ensures
        r == language_of_extension(e@),
{
    let a = vec!["rs"];
    assert(str_views(a@) =~= seq!["rs"@]);
    if in_literals(e, a) {
        return Some(Language::Rust);
    }
    let a = vec!["ts", "tsx", "mts", "cts"];
    assert(str_views(a@) =~= seq!["ts"@, "tsx"@, "mts"@, "cts"@]);
    if in_literals(e, a) {
        return Some(Language::TypeScript);
    }
    let a = vec!["js", "jsx", "mjs", "cjs"];
    assert(str_views(a@) =~= seq!["js"@, "jsx"@, "mjs"@, "cjs"@]);
    if in_literals(e, a) {
        return Some(Language::JavaScript);
    }
    let a = vec!["py", "pyi"];
    assert(str_views(a@) =~= seq!["py"@, "pyi"@]);
    if in_literals(e, a) {
        return Some(Language::Python);
    }
    let a = vec!["go"];
    assert(str_views(a@) =~= seq!["go"@]);
    if in_literals(e, a) {
        return Some(Language::Go);
    }
    let a = vec!["java"];
    assert(str_views(a@) =~= seq!["java"@]);
    if in_literals(e, a) {
        return Some(Language::Java);
    }
    let a = vec!["cs"];
    assert(str_views(a@) =~= seq!["cs"@]);
    if in_literals(e, a) {
        return Some(Language::CSharp);
    }
    let a = vec!["c", "h"];
    assert(str_views(a@) =~= seq!["c"@, "h"@]);
    if in_literals(e, a) {
        return Some(Language::C);
    }
    let a = vec!["cpp", "cc", "cxx", "hpp", "hh", "hxx", "cppm"];
    assert(str_views(a@) =~= seq!["cpp"@, "cc"@, "cxx"@, "hpp"@, "hh"@, "hxx"@, "cppm"@]);
    if in_literals(e, a) {
        return Some(Language::Cpp);
    }
    let a = vec!["json", "jsonc", "json5"];
    assert(str_views(a@) =~= seq!["json"@, "jsonc"@, "json5"@]);
    if in_literals(e, a) {
        return Some(Language::Json);
    }
    let a = vec!["yaml", "yml"];
    assert(str_views(a@) =~= seq!["yaml"@, "yml"@]);
    if in_literals(e, a) {
        return Some(Language::Yaml);
    }
    let a = vec!["toml", "tml"];
    assert(str_views(a@) =~= seq!["toml"@, "tml"@]);
    if in_literals(e, a) {
        return Some(Language::Toml);
    }
    let a = vec!["md", "markdown"];
    assert(str_views(a@) =~= seq!["md"@, "markdown"@]);
    if in_literals(e, a) {
        return Some(Language::Markdown);
    }
    None
}

fn language_of_filename_exec(n: &[char]) -> (r: Option<Language>)
    ensures
        r == language_of_filename(n@),
{
    let a = vec!["tsconfig.json", "tsconfig.eslint.json"];
    assert(str_views(a@) =~= seq!["tsconfig.json"@, "tsconfig.eslint.json"@]);
    if in_literals(n, a) {
        return Some(Language::TypeScript);
    }
    let a = vec!["package.json", "package-lock.json", ".prettierrc"];
    assert(str_views(a@) =~= seq!["package.json"@, "package-lock.json"@, ".prettierrc"@]);
    if in_literals(n, a) {
        return Some(Language::Json);
    }
    let a = vec!["Cargo.toml", "pyproject.toml"];
    assert(str_views(a@) =~= seq!["Cargo.toml"@, "pyproject.toml"@]);
    if in_literals(n, a) {
        return Some(Language::Toml);
    }
    let a = vec!["README", "CHANGELOG", "LICENSE"];
    assert(str_views(a@) =~= seq!["README"@, "CHANGELOG"@, "LICENSE"@]);
    if in_literals(n, a) {
        return Some(Language::Markdown);
    }
    None
}

/// Detects [`Language`] from a relative or absolute file path.
#[derive(Debug, Clone, Copy)]
pub struct LanguageDetector;

impl LanguageDetector {
    /// Detects the language of `path` by extension, falling back to known
    /// file names.
    pub fn detect(&self, path: &str) -> (r: Option<Language>)
        ensures
            r == language_of_path(path@),
    {
        let p = chars_of(path);
        let name = file_name_chars(p.as_slice());
        match extension_chars(name.as_slice()) {
            Some(e) => {
                let le = lower_chars(e.as_slice());
                match language_of_extension_exec(le.as_slice()) {
                    Some(l) => {
                        return Some(l);
                    },
                    None => {},
                }
            },
            None => {},
        }
        language_of_filename_exec(name.as_slice())
    }

    /// Occurrences per detected language, in the order of
    /// [`Language::all`], leaving out languages that do not occur.
    pub fn count(&self, files: &Vec<ScannedFile>) -> (r: Vec<(Language, usize)>)
        requires
            files.len() <= usize::MAX,
        ensures
            forall|k: int| 0 <= k < r@.len() ==> count_entry(files@, #[trigger] r@[k]),
            r@.map_values(|p: (Language, usize)| p.0) == all_languages().filter(|l: Language| language_count(files@, l) > 0),
    {
        let langs = Language::all();
        let mut counts: Vec<usize> = Vec::new();
        let mut k: usize = 0;
        while k < langs.len()
            invariant
                k <= langs.len(),
                counts@.len() == k,
                forall|j: int| 0 <= j < k ==> counts@[j] == 0,
            decreases langs.len() - k,
        {
            counts.push(0);
            k = k + 1;
        }
        let ghost fs = files@;
        let mut i: usize = 0;
        while i < files.len()
            invariant
                fs == files@,
                langs@ == all_languages(),
                i <= fs.len(),
                counts@.len() == langs@.len(),
                forall|j: int| 0 <= j < counts@.len() ==> #[trigger] counts@[j] == language_count(fs.take(i as int), langs@[j]),
                forall|j: int| 0 <= j < counts@.len() ==> #[trigger] counts@[j] <= i,
            decreases fs.len() - i,
        {
            let found = self.detect(files[i].rel.as_str());
            proof {
                assert(fs.take(i + 1).drop_last() =~= fs.take(i as int));
            }
            match found {
                Some(l) => {
                    let mut j: usize = 0;
                    while j < langs.len() && langs[j] != l
                        invariant
                            j <= langs.len(),
                            forall|q: int| 0 <= q < j ==> langs@[q] != l,
                        decreases langs.len() - j,
                    {
                        j = j + 1;
                    }
                    proof {
                        if j == langs.len() {
                            assert(all_languages().contains(l)) by {
                                match l {
                                    Language::Rust => assert(all_languages()[0] == l),
                                    Language::TypeScript => assert(all_languages()[1] == l),
                                    Language::JavaScript => assert(all_languages()[2] == l),
                                    Language::Python => assert(all_languages()[3] == l),
                                    Language::Go => assert(all_languages()[4] == l),
                                    Language::Java => assert(all_languages()[5] == l),
                                    Language::CSharp => assert(all_languages()[6] == l),
                                    Language::C => assert(all_languages()[7] == l),
                                    Language::Cpp => assert(all_languages()[8] == l),
                                    Language::Json => assert(all_languages()[9] == l),
                                    Language::Yaml => assert(all_languages()[10] == l),
                                    Language::Toml => assert(all_languages()[11] == l),
                                    Language::Markdown => assert(all_languages()[12] == l),
                                }
                            }
                        }
                    }
                    let c = counts[j] + 1;
                    counts.set(j, c);
                },
                None => {},
            }
            i = i + 1;
        }
        proof {
            assert(fs.take(fs.len() as int) =~= fs);
        }
        let mut r: Vec<(Language, usize)> = Vec::new();
        let mut k: usize = 0;
        while k < langs.len()
            invariant
                langs@ == all_languages(),
                counts@.len() == langs@.len(),
                forall|j: int| 0 <= j < counts@.len() ==> #[trigger] counts@[j] == language_count(fs, langs@[j]),
                k <= langs.len(),
                forall|q: int| 0 <= q < r@.len() ==> count_entry(files@, #[trigger] r@[q]),
                r@.map_values(|p: (Language, usize)| p.0) == all_languages().take(k as int).filter(|l: Language| language_count(files@, l) > 0),
                fs == files@,
            decreases langs.len() - k,
        {
            proof {
                let t = all_languages().take(k + 1);
                assert(t.drop_last() =~= all_languages().take(k as int));
                assert(t.last() == langs@[k as int]);
                all_languages().take(k as int).lemma_filter_push(langs@[k as int], |l: Language| language_count(files@, l) > 0);
                assert(all_languages().take(k as int).push(langs@[k as int]) =~= t);
            }
            let ghost old_r = r@;
            assert(counts@[k as int] == language_count(fs, langs@[k as int]));
            if counts[k] > 0 {
                r.push((langs[k], counts[k]));
                assert forall|q: int| 0 <= q < r@.len() implies count_entry(files@, #[trigger] r@[q]) by {
                    if q < old_r.len() {
                        assert(r@[q] == old_r[q]);
                    } else {
                        assert(r@[q] == (langs@[k as int], counts@[k as int]));
                    }
                }
            }
            proof {
                assert(r@.map_values(|p: (Language, usize)| p.0) =~= all_languages().take(k + 1).filter(|l: Language| language_count(files@, l) > 0));
            }
            k = k + 1;
        }
        proof {
            assert(all_languages().take(13) =~= all_languages());
        }
        r
    }
}


/// A path's language follows the extension of its file name, compared
/// without case: `rs` is Rust; `ts`, `tsx`, `mts`, `cts` TypeScript; `js`,
/// `jsx`, `mjs`, `cjs` JavaScript; `py`, `pyi` Python; `go` Go; `java`
/// Java; `cs` C#; `c`, `h` C; `cpp`, `cc`, `cxx`, `hpp`, `hh`, `hxx`,
/// `cppm` C++; `json`, `jsonc`, `json5` JSON; `yaml`, `yml` YAML; `toml`,
/// `tml` TOML; `md`, `markdown` Markdown.
pub proof fn law_extension_languages(p: Seq<char>, x: Seq<char>)
    requires
        extension_of(file_name_of(p)) == Some(x),
    ensures
        (lower(x) == "rs"@) ==> language_of_path(p) == Some(Language::Rust),
        (lower(x) == "ts"@ || lower(x) == "tsx"@ || lower(x) == "mts"@ || lower(x) == "cts"@) ==> language_of_path(p) == Some(Language::TypeScript),
        (lower(x) == "js"@ || lower(x) == "jsx"@ || lower(x) == "mjs"@ || lower(x) == "cjs"@) ==> language_of_path(p) == Some(Language::JavaScript),
        (lower(x) == "py"@ || lower(x) == "pyi"@) ==> language_of_path(p) == Some(Language::Python),
        (lower(x) == "go"@) ==> language_of_path(p) == Some(Language::Go),
        (lower(x) == "java"@) ==> language_of_path(p) == Some(Language::Java),
        (lower(x) == "cs"@) ==> language_of_path(p) == Some(Language::CSharp),
        (lower(x) == "c"@ || lower(x) == "h"@) ==> language_of_path(p) == Some(Language::C),
        (lower(x) == "cpp"@ || lower(x) == "cc"@ || lower(x) == "cxx"@ || lower(x) == "hpp"@ || lower(x) == "hh"@ || lower(x) == "hxx"@ || lower(x) == "cppm"@) ==> language_of_path(p) == Some(Language::Cpp),
        (lower(x) == "json"@ || lower(x) == "jsonc"@ || lower(x) == "json5"@) ==> language_of_path(p) == Some(Language::Json),
        (lower(x) == "yaml"@ || lower(x) == "yml"@) ==> language_of_path(p) == Some(Language::Yaml),
        (lower(x) == "toml"@ || lower(x) == "tml"@) ==> language_of_path(p) == Some(Language::Toml),
        (lower(x) == "md"@ || lower(x) == "markdown"@) ==> language_of_path(p) == Some(Language::Markdown),
{
    assert(language_of_extension("rs"@) == Some(Language::Rust)) by {
        assert(seq!["rs"@][0] == "rs"@);

    }
    assert(language_of_extension("ts"@) == Some(Language::TypeScript)) by {
        assert(seq!["ts"@, "tsx"@, "mts"@, "cts"@][0] == "ts"@);
        assert(!seq!["rs"@].contains("ts"@)) by {
            assert forall|q: int| 0 <= q < seq!["rs"@].len() implies seq!["rs"@][q] != "ts"@ by {
            if q == 0 {
                assert(seq!["rs"@][0] == "rs"@);
                reveal_strlit("rs");
                reveal_strlit("ts");
                assert("rs"@[0] != "ts"@[0]);
            }
            }
        }
    }
    assert(language_of_extension("tsx"@) == Some(Language::TypeScript)) by {
        assert(seq!["ts"@, "tsx"@, "mts"@, "cts"@][1] == "tsx"@);
        assert(!seq!["rs"@].contains("tsx"@)) by {
            assert forall|q: int| 0 <= q < seq!["rs"@].len() implies seq!["rs"@][q] != "tsx"@ by {
            if q == 0 {
                assert(seq!["rs"@][0] == "rs"@);
                reveal_strlit("rs");
                reveal_strlit("tsx");
                assert("rs"@.len() != "tsx"@.len());
            }
            }
        }
    }
    assert(language_of_extension("mts"@) == Some(Language::TypeScript)) by {
        assert(seq!["ts"@, "tsx"@, "mts"@, "cts"@][2] == "mts"@);
        assert(!seq!["rs"@].contains("mts"@)) by {
            assert forall|q: int| 0 <= q < seq!["rs"@].len() implies seq!["rs"@][q] != "mts"@ by {
            if q == 0 {
                assert(seq!["rs"@][0] == "rs"@);
                reveal_strlit("rs");
                reveal_strlit("mts");
                assert("rs"@.len() != "mts"@.len());
            }
            }
        }
    }
    assert(language_of_extension("cts"@) == Some(Language::TypeScript)) by {
        assert(seq!["ts"@, "tsx"@, "mts"@, "cts"@][3] == "cts"@);
        assert(!seq!["rs"@].contains("cts"@)) by {
            assert forall|q: int| 0 <= q < seq!["rs"@].len() implies seq!["rs"@][q] != "cts"@ by {
            if q == 0 {
                assert(seq!["rs"@][0] == "rs"@);
                reveal_strlit("rs");
                reveal_strlit("cts");
                assert("rs"@.len() != "cts"@.len());
            }
            }
        }
    }
    assert(language_of_extension("js"@) == Some(Language::JavaScript)) by {
        assert(seq!["js"@, "jsx"@, "mjs"@, "cjs"@][0] == "js"@);
        assert(!seq!["rs"@].contains("js"@)) by {
            assert forall|q: int| 0 <= q < seq!["rs"@].len() implies seq!["rs"@][q] != "js"@ by {
            if q == 0 {
                assert(seq!["rs"@][0] == "rs"@);
                reveal_strlit("rs");
                reveal_strlit("js");
                assert("rs"@[0] != "js"@[0]);
            }
            }
        }
        assert(!seq!["ts"@, "tsx"@, "mts"@, "cts"@].contains("js"@)) by {
            assert forall|q: int| 0 <= q < seq!["ts"@, "tsx"@, "mts"@, "cts"@].len() implies seq!["ts"@, "tsx"@, "mts"@, "cts"@][q] != "js"@ by {
            if q == 0 {
                assert(seq!["ts"@, "tsx"@, "mts"@, "cts"@][0] == "ts"@);
                reveal_strlit("ts");
                reveal_strlit("js");
                assert("ts"@[0] != "js"@[0]);
            }
            if q == 1 {
                assert(seq!["ts"@, "tsx"@, "mts"@, "cts"@][1] == "tsx"@);
                reveal_strlit("tsx");
                reveal_strlit("js");
                assert("tsx"@.len() != "js"@.len());
            }
            if q == 2 {
                assert(seq!["ts"@, "tsx"@, "mts"@, "cts"@][2] == "mts"@);
                reveal_strlit("mts");
                reveal_strlit("js");
                assert("mts"@.len() != "js"@.len());
            }
            if q == 3 {
                assert(seq!["ts"@, "tsx"@, "mts"@, "cts"@][3] == "cts"@);
                reveal_strlit("cts");
                reveal_strlit("js");
                assert("cts"@.len() != "js"@.len());
            }
            }
        }
    }
    assert(language_of_extension("jsx"@) == Some(Language::JavaScript)) by {
        assert(seq!["js"@, "jsx"@, "mjs"@, "cjs"@][1] == "jsx"@);
        assert(!seq!["rs"@].contains("jsx"@)) by {
            assert forall|q: int| 0 <= q < seq!["rs"@].len() implies seq!["rs"@][q] != "jsx"@ by {
            if q == 0 {
                assert(seq!["rs"@][0] == "rs"@);
                reveal_strlit("rs");
                reveal_strlit("jsx");
                assert("rs"@.len() != "jsx"@.len());
            }
            }
        }
        assert(!seq!["ts"@, "tsx"@, "mts"@, "cts"@].contains("jsx"@)) by {
            assert forall|q: int| 0 <= q < seq!["ts"@, "tsx"@, "mts"@, "cts"@].len() implies seq!["ts"@, "tsx"@, "mts"@, "cts"@][q] != "jsx"@ by {
            if q == 0 {
                assert(seq!["ts"@, "tsx"@, "mts"@, "cts"@][0] == "ts"@);
                reveal_strlit("ts");
                reveal_strlit("jsx");
                assert("ts"@.len() != "jsx"@.len());
            }
            if q == 1 {
                assert(seq!["ts"@, "tsx"@, "mts"@, "cts"@][1] == "tsx"@);
                reveal_strlit("tsx");
                reveal_strlit("jsx");
                assert("tsx"@[0] != "jsx"@[0]);
            }
            if q == 2 {
                assert(seq!["ts"@, "tsx"@, "mts"@, "cts"@][2] == "mts"@);
                reveal_strlit("mts");
                reveal_strlit("jsx");
                assert("mts"@[0] != "jsx"@[0]);
            }
            if q == 3 {
                assert(seq!["ts"@, "tsx"@, "mts"@, "cts"@][3] == "cts"@);
                reveal_strlit("cts");
                reveal_strlit("jsx");
                assert("cts"@[0] != "jsx"@[0]);
            }
            }
        }
    }
    assert(language_of_extension("mjs"@) == Some(Language::JavaScript)) by {
        assert(seq!["js"@, "jsx"@, "mjs"@, "cjs"@][2] == "mjs"@);
        assert(!seq!["rs"@].contains("mjs"@)) by {
            assert forall|q: int| 0 <= q < seq!["rs"@].len() implies seq!["rs"@][q] != "mjs"@ by {
            if q == 0 {
                assert(seq!["rs"@][0] == "rs"@);
                reveal_strlit("rs");
                reveal_strlit("mjs");
                assert("rs"@.len() != "mjs"@.len());
            }
            }
        }
        assert(!seq!["ts"@, "tsx"@, "mts"@, "cts"@].contains("mjs"@)) by {
            assert forall|q: int| 0 <= q < seq!["ts"@, "tsx"@, "mts"@, "cts"@].len() implies seq!["ts"@, "tsx"@, "mts"@, "cts"@][q] != "mjs"@ by {
            if q == 0 {
                assert(seq!["ts"@, "tsx"@, "mts"@, "cts"@][0] == "ts"@);
                reveal_strlit("ts");
                reveal_strlit("mjs");
                assert("ts"@.len() != "mjs"@.len());
            }
            if q == 1 {
                assert(seq!["ts"@, "tsx"@, "mts"@, "cts"@][1] == "tsx"@);
                reveal_strlit("tsx");
                reveal_strlit("mjs");
                assert("tsx"@[0] != "mjs"@[0]);
            }
            if q == 2 {
                assert(seq!["ts"@, "tsx"@, "mts"@, "cts"@][2] == "mts"@);
                reveal_strlit("mts");
                reveal_strlit("mjs");
                assert("mts"@[1] != "mjs"@[1]);
            }
            if q == 3 {
                assert(seq!["ts"@, "tsx"@, "mts"@, "cts"@][3] == "cts"@);
                reveal_strlit("cts");
                reveal_strlit("mjs");
                assert("cts"@[0] != "mjs"@[0]);
            }
            }
        }
    }
    assert(language_of_extension("cjs"@) == Some(Language::JavaScript)) by {
        assert(seq!["js"@, "jsx"@, "mjs"@, "cjs"@][3] == "cjs"@);
        assert(!seq!["rs"@].contains("cjs"@)) by {
            assert forall|q: int| 0 <= q < seq!["rs"@].len() implies seq!["rs"@][q] != "cjs"@ by {
            if q == 0 {
                assert(seq!["rs"@][0] == "rs"@);
                reveal_strlit("rs");
                reveal_strlit("cjs");
                assert("rs"@.len() != "cjs"@.len());
            }
            }
        }
        assert(!seq!["ts"@, "tsx"@, "mts"@, "cts"@].contains("cjs"@)) by {
            assert forall|q: int| 0 <= q < seq!["ts"@, "tsx"@, "mts"@, "cts"@].len() implies seq!["ts"@, "tsx"@, "mts"@, "cts"@][q] != "cjs"@ by {
            if q == 0 {
                assert(seq!["ts"@, "tsx"@, "mts"@, "cts"@][0] == "ts"@);
                reveal_strlit("ts");
                reveal_strlit("cjs");
                assert("ts"@.len() != "cjs"@.len());
            }
            if q == 1 {
                assert(seq!["ts"@, "tsx"@, "mts"@, "cts"@][1] == "tsx"@);
                reveal_strlit("tsx");
                reveal_strlit("cjs");
                assert("tsx"@[0] != "cjs"@[0]);
            }
            if q == 2 {
                assert(seq!["ts"@, "tsx"@, "mts"@, "cts"@][2] == "mts"@);
                reveal_strlit("mts");
                reveal_strlit("cjs");
                assert("mts"@[0] != "cjs"@[0]);
            }
            if q == 3 {
                assert(seq!["ts"@, "tsx"@, "mts"@, "cts"@][3] == "cts"@);
                reveal_strlit("cts");
                reveal_strlit("cjs");
                assert("cts"@[1] != "cjs"@[1]);
            }
            }
        }
    }
    assert(language_of_extension("py"@) == Some(Language::Python)) by {
        assert(seq!["py"@, "pyi"@][0] == "py"@);
        assert(!seq!["rs"@].contains("py"@)) by {
            assert forall|q: int| 0 <= q < seq!["rs"@].len() implies seq!["rs"@][q] != "py"@ by {
            if q == 0 {
                assert(seq!["rs"@][0] == "rs"@);
                reveal_strlit("rs");
                reveal_strlit("py");
                assert("rs"@[0] != "py"@[0]);
            }
            }
        }
        assert(!seq!["ts"@, "tsx"@, "mts"@, "cts"@].contains("py"@)) by {
            assert forall|q: int| 0 <= q < seq!["ts"@, "tsx"@, "mts"@, "cts"@].len() implies seq!["ts"@, "tsx"@, "mts"@, "cts"@][q] != "py"@ by {
            if q == 0 {
                assert(seq!["ts"@, "tsx"@, "mts"@, "cts"@][0] == "ts"@);
                reveal_strlit("ts");
                reveal_strlit("py");
                assert("ts"@[0] != "py"@[0]);
            }
            if q == 1 {
                assert(seq!["ts"@, "tsx"@, "mts"@, "cts"@][1] == "tsx"@);
                reveal_strlit("tsx");
                reveal_strlit("py");
                assert("tsx"@.len() != "py"@.len());
            }
            if q == 2 {
                assert(seq!["ts"@, "tsx"@, "mts"@, "cts"@][2] == "mts"@);
                reveal_strlit("mts");
                reveal_strlit("py");
                assert("mts"@.len() != "py"@.len());
            }
            if q == 3 {
                assert(seq!["ts"@, "tsx"@, "mts"@, "cts"@][3] == "cts"@);
                reveal_strlit("cts");
                reveal_strlit("py");
                assert("cts"@.len() != "py"@.len());
            }
            }
        }
        assert(!seq!["js"@, "jsx"@, "mjs"@, "cjs"@].contains("py"@)) by {
            assert forall|q: int| 0 <= q < seq!["js"@, "jsx"@, "mjs"@, "cjs"@].len() implies seq!["js"@, "jsx"@, "mjs"@, "cjs"@][q] != "py"@ by {
            if q == 0 {
                assert(seq!["js"@, "jsx"@, "mjs"@, "cjs"@][0] == "js"@);
                reveal_strlit("js");
                reveal_strlit("py");
                assert("js"@[0] != "py"@[0]);
            }
            if q == 1 {
                assert(seq!["js"@, "jsx"@, "mjs"@, "cjs"@][1] == "jsx"@);
                reveal_strlit("jsx");
                reveal_strlit("py");
                assert("jsx"@.len() != "py"@.len());
            }
            if q == 2 {
                assert(seq!["js"@, "jsx"@, "mjs"@, "cjs"@][2] == "mjs"@);
                reveal_strlit("mjs");
                reveal_strlit("py");
                assert("mjs"@.len() != "py"@.len());
            }
            if q == 3 {
                assert(seq!["js"@, "jsx"@, "mjs"@, "cjs"@][3] == "cjs"@);
                reveal_strlit("cjs");
                reveal_strlit("py");
                assert("cjs"@.len() != "py"@.len());
            }
            }
        }
    }
    assert(language_of_extension("pyi"@) == Some(Language::Python)) by {
        assert(seq!["py"@, "pyi"@][1] == "pyi"@);
        assert(!seq!["rs"@].contains("pyi"@)) by {
            assert forall|q: int| 0 <= q < seq!["rs"@].len() implies seq!["rs"@][q] != "pyi"@ by {
            if q == 0 {
                assert(seq!["rs"@][0] == "rs"@);
                reveal_strlit("rs");
                reveal_strlit("pyi");
                assert("rs"@.len() != "pyi"@.len());
            }
            }
        }
        assert(!seq!["ts"@, "tsx"@, "mts"@, "cts"@].contains("pyi"@)) by {
            assert forall|q: int| 0 <= q < seq!["ts"@, "tsx"@, "mts"@, "cts"@].len() implies seq!["ts"@, "tsx"@, "mts"@, "cts"@][q] != "pyi"@ by {
            if q == 0 {
                assert(seq!["ts"@, "tsx"@, "mts"@, "cts"@][0] == "ts"@);
                reveal_strlit("ts");
                reveal_strlit("pyi");
                assert("ts"@.len() != "pyi"@.len());
            }
            if q == 1 {
                assert(seq!["ts"@, "tsx"@, "mts"@, "cts"@][1] == "tsx"@);
                reveal_strlit("tsx");
                reveal_strlit("pyi");
                assert("tsx"@[0] != "pyi"@[0]);
            }
            if q == 2 {
                assert(seq!["ts"@, "tsx"@, "mts"@, "cts"@][2] == "mts"@);
                reveal_strlit("mts");
                reveal_strlit("pyi");
                assert("mts"@[0] != "pyi"@[0]);
            }
            if q == 3 {
                assert(seq!["ts"@, "tsx"@, "mts"@, "cts"@][3] == "cts"@);
                reveal_strlit("cts");
                reveal_strlit("pyi");
                assert("cts"@[0] != "pyi"@[0]);
            }
            }
        }
        assert(!seq!["js"@, "jsx"@, "mjs"@, "cjs"@].contains("pyi"@)) by {
            assert forall|q: int| 0 <= q < seq!["js"@, "jsx"@, "mjs"@, "cjs"@].len() implies seq!["js"@, "jsx"@, "mjs"@, "cjs"@][q] != "pyi"@ by {
            if q == 0 {
                assert(seq!["js"@, "jsx"@, "mjs"@, "cjs"@][0] == "js"@);
                reveal_strlit("js");
                reveal_strlit("pyi");
                assert("js"@.len() != "pyi"@.len());
            }
            if q == 1 {
                assert(seq!["js"@, "jsx"@, "mjs"@, "cjs"@][1] == "jsx"@);
                reveal_strlit("jsx");
                reveal_strlit("pyi");
                assert("jsx"@[0] != "pyi"@[0]);
            }
            if q == 2 {
                assert(seq!["js"@, "jsx"@, "mjs"@, "cjs"@][2] == "mjs"@);
                reveal_strlit("mjs");
                reveal_strlit("pyi");
                assert("mjs"@[0] != "pyi"@[0]);
            }
            if q == 3 {
                assert(seq!["js"@, "jsx"@, "mjs"@, "cjs"@][3] == "cjs"@);
                reveal_strlit("cjs");
                reveal_strlit("pyi");
                assert("cjs"@[0] != "pyi"@[0]);
            }
            }
        }
    }
    assert(language_of_extension("go"@) == Some(Language::Go)) by {
        assert(seq!["go"@][0] == "go"@);
        assert(!seq!["rs"@].contains("go"@)) by {
            assert forall|q: int| 0 <= q < seq!["rs"@].len() implies seq!["rs"@][q] != "go"@ by {
            if q == 0 {
                assert(seq!["rs"@][0] == "rs"@);
                reveal_strlit("rs");
                reveal_strlit("go");
                assert("rs"@[0] != "go"@[0]);
            }
            }
        }
        assert(!seq!["ts"@, "tsx"@, "mts"@, "cts"@].contains("go"@)) by {
            assert forall|q: int| 0 <= q < seq!["ts"@, "tsx"@, "mts"@, "cts"@].len() implies seq!["ts"@, "tsx"@, "mts"@, "cts"@][q] != "go"@ by {
            if q == 0 {
                assert(seq!["ts"@, "tsx"@, "mts"@, "cts"@][0] == "ts"@);
                reveal_strlit("ts");
                reveal_strlit("go");
                assert("ts"@[0] != "go"@[0]);
            }
            if q == 1 {
                assert(seq!["ts"@, "tsx"@, "mts"@, "cts"@][1] == "tsx"@);
                reveal_strlit("tsx");
                reveal_strlit("go");
                assert("tsx"@.len() != "go"@.len());
            }
            if q == 2 {
                assert(seq!["ts"@, "tsx"@, "mts"@, "cts"@][2] == "mts"@);
                reveal_strlit("mts");
                reveal_strlit("go");
                assert("mts"@.len() != "go"@.len());
            }
            if q == 3 {
                assert(seq!["ts"@, "tsx"@, "mts"@, "cts"@][3] == "cts"@);
                reveal_strlit("cts");
                reveal_strlit("go");
                assert("cts"@.len() != "go"@.len());
            }
            }
        }
        assert(!seq!["js"@, "jsx"@, "mjs"@, "cjs"@].contains("go"@)) by {
            assert forall|q: int| 0 <= q < seq!["js"@, "jsx"@, "mjs"@, "cjs"@].len() implies seq!["js"@, "jsx"@, "mjs"@, "cjs"@][q] != "go"@ by {
            if q == 0 {
                assert(seq!["js"@, "jsx"@, "mjs"@, "cjs"@][0] == "js"@);
                reveal_strlit("js");
                reveal_strlit("go");
                assert("js"@[0] != "go"@[0]);
            }
            if q == 1 {
                assert(seq!["js"@, "jsx"@, "mjs"@, "cjs"@][1] == "jsx"@);
                reveal_strlit("jsx");
                reveal_strlit("go");
                assert("jsx"@.len() != "go"@.len());
            }
            if q == 2 {
                assert(seq!["js"@, "jsx"@, "mjs"@, "cjs"@][2] == "mjs"@);
                reveal_strlit("mjs");
                reveal_strlit("go");
                assert("mjs"@.len() != "go"@.len());
            }
            if q == 3 {
                assert(seq!["js"@, "jsx"@, "mjs"@, "cjs"@][3] == "cjs"@);
                reveal_strlit("cjs");
                reveal_strlit("go");
                assert("cjs"@.len() != "go"@.len());
            }
            }
        }
        assert(!seq!["py"@, "pyi"@].contains("go"@)) by {
            assert forall|q: int| 0 <= q < seq!["py"@, "pyi"@].len() implies seq!["py"@, "pyi"@][q] != "go"@ by {
            if q == 0 {
                assert(seq!["py"@, "pyi"@][0] == "py"@);
                reveal_strlit("py");
                reveal_strlit("go");
                assert("py"@[0] != "go"@[0]);
            }
            if q == 1 {
                assert(seq!["py"@, "pyi"@][1] == "pyi"@);
                reveal_strlit("pyi");
                reveal_strlit("go");
                assert("pyi"@.len() != "go"@.len());
            }
            }
        }
    }
    assert(language_of_extension("java"@) == Some(Language::Java)) by {
        assert(seq!["java"@][0] == "java"@);
        assert(!seq!["rs"@].contains("java"@)) by {
            assert forall|q: int| 0 <= q < seq!["rs"@].len() implies seq!["rs"@][q] != "java"@ by {
            if q == 0 {
                assert(seq!["rs"@][0] == "rs"@);
                reveal_strlit("rs");
                reveal_strlit("java");
                assert("rs"@.len() != "java"@.len());
            }
            }
        }
        assert(!seq!["ts"@, "tsx"@, "mts"@, "cts"@].contains("java"@)) by {
            assert forall|q: int| 0 <= q < seq!["ts"@, "tsx"@, "mts"@, "cts"@].len() implies seq!["ts"@, "tsx"@, "mts"@, "cts"@][q] != "java"@ by {
            if q == 0 {
                assert(seq!["ts"@, "tsx"@, "mts"@, "cts"@][0] == "ts"@);
                reveal_strlit("ts");
                reveal_strlit("java");
                assert("ts"@.len() != "java"@.len());
            }
            if q == 1 {
                assert(seq!["ts"@, "tsx"@, "mts"@, "cts"@][1] == "tsx"@);
                reveal_strlit("tsx");
                reveal_strlit("java");
                assert("tsx"@.len() != "java"@.len());
            }
            if q == 2 {
                assert(seq!["ts"@, "tsx"@, "mts"@, "cts"@][2] == "mts"@);
                reveal_strlit("mts");
                reveal_strlit("java");
                assert("mts"@.len() != "java"@.len());
            }
            if q == 3 {
                assert(seq!["ts"@, "tsx"@, "mts"@, "cts"@][3] == "cts"@);
                reveal_strlit("cts");
                reveal_strlit("java");
                assert("cts"@.len() != "java"@.len());
            }
            }
        }
        assert(!seq!["js"@, "jsx"@, "mjs"@, "cjs"@].contains("java"@)) by {
            assert forall|q: int| 0 <= q < seq!["js"@, "jsx"@, "mjs"@, "cjs"@].len() implies seq!["js"@, "jsx"@, "mjs"@, "cjs"@][q] != "java"@ by {
            if q == 0 {
                assert(seq!["js"@, "jsx"@, "mjs"@, "cjs"@][0] == "js"@);
                reveal_strlit("js");
                reveal_strlit("java");
                assert("js"@.len() != "java"@.len());
            }
            if q == 1 {
                assert(seq!["js"@, "jsx"@, "mjs"@, "cjs"@][1] == "jsx"@);
                reveal_strlit("jsx");
                reveal_strlit("java");
                assert("jsx"@.len() != "java"@.len());
            }
            if q == 2 {
                assert(seq!["js"@, "jsx"@, "mjs"@, "cjs"@][2] == "mjs"@);
                reveal_strlit("mjs");
                reveal_strlit("java");
                assert("mjs"@.len() != "java"@.len());
            }
            if q == 3 {
                assert(seq!["js"@, "jsx"@, "mjs"@, "cjs"@][3] == "cjs"@);
                reveal_strlit("cjs");
                reveal_strlit("java");
                assert("cjs"@.len() != "java"@.len());
            }
            }
        }
        assert(!seq!["py"@, "pyi"@].contains("java"@)) by {
            assert forall|q: int| 0 <= q < seq!["py"@, "pyi"@].len() implies seq!["py"@, "pyi"@][q] != "java"@ by {
            if q == 0 {
                assert(seq!["py"@, "pyi"@][0] == "py"@);
                reveal_strlit("py");
                reveal_strlit("java");
                assert("py"@.len() != "java"@.len());
            }
            if q == 1 {
                assert(seq!["py"@, "pyi"@][1] == "pyi"@);
                reveal_strlit("pyi");
                reveal_strlit("java");
                assert("pyi"@.len() != "java"@.len());
            }
            }
        }
        assert(!seq!["go"@].contains("java"@)) by {
            assert forall|q: int| 0 <= q < seq!["go"@].len() implies seq!["go"@][q] != "java"@ by {
            if q == 0 {
                assert(seq!["go"@][0] == "go"@);
                reveal_strlit("go");
                reveal_strlit("java");
                assert("go"@.len() != "java"@.len());
            }
            }
        }
    }
    assert(language_of_extension("cs"@) == Some(Language::CSharp)) by {
        assert(seq!["cs"@][0] == "cs"@);
        assert(!seq!["rs"@].contains("cs"@)) by {
            assert forall|q: int| 0 <= q < seq!["rs"@].len() implies seq!["rs"@][q] != "cs"@ by {
            if q == 0 {
                assert(seq!["rs"@][0] == "rs"@);
                reveal_strlit("rs");
                reveal_strlit("cs");
                assert("rs"@[0] != "cs"@[0]);
            }
            }
        }
        assert(!seq!["ts"@, "tsx"@, "mts"@, "cts"@].contains("cs"@)) by {
            assert forall|q: int| 0 <= q < seq!["ts"@, "tsx"@, "mts"@, "cts"@].len() implies seq!["ts"@, "tsx"@, "mts"@, "cts"@][q] != "cs"@ by {
            if q == 0 {
                assert(seq!["ts"@, "tsx"@, "mts"@, "cts"@][0] == "ts"@);
                reveal_strlit("ts");
                reveal_strlit("cs");
                assert("ts"@[0] != "cs"@[0]);
            }
            if q == 1 {
                assert(seq!["ts"@, "tsx"@, "mts"@, "cts"@][1] == "tsx"@);
                reveal_strlit("tsx");
                reveal_strlit("cs");
                assert("tsx"@.len() != "cs"@.len());
            }
            if q == 2 {
                assert(seq!["ts"@, "tsx"@, "mts"@, "cts"@][2] == "mts"@);
                reveal_strlit("mts");
                reveal_strlit("cs");
                assert("mts"@.len() != "cs"@.len());
            }
            if q == 3 {
                assert(seq!["ts"@, "tsx"@, "mts"@, "cts"@][3] == "cts"@);
                reveal_strlit("cts");
                reveal_strlit("cs");
                assert("cts"@.len() != "cs"@.len());
            }
            }
        }
        assert(!seq!["js"@, "jsx"@, "mjs"@, "cjs"@].contains("cs"@)) by {
            assert forall|q: int| 0 <= q < seq!["js"@, "jsx"@, "mjs"@, "cjs"@].len() implies seq!["js"@, "jsx"@, "mjs"@, "cjs"@][q] != "cs"@ by {
            if q == 0 {
                assert(seq!["js"@, "jsx"@, "mjs"@, "cjs"@][0] == "js"@);
                reveal_strlit("js");
                reveal_strlit("cs");
                assert("js"@[0] != "cs"@[0]);
            }
            if q == 1 {
                assert(seq!["js"@, "jsx"@, "mjs"@, "cjs"@][1] == "jsx"@);
                reveal_strlit("jsx");
                reveal_strlit("cs");
                assert("jsx"@.len() != "cs"@.len());
            }
            if q == 2 {
                assert(seq!["js"@, "jsx"@, "mjs"@, "cjs"@][2] == "mjs"@);
                reveal_strlit("mjs");
                reveal_strlit("cs");
                assert("mjs"@.len() != "cs"@.len());
            }
            if q == 3 {
                assert(seq!["js"@, "jsx"@, "mjs"@, "cjs"@][3] == "cjs"@);
                reveal_strlit("cjs");
                reveal_strlit("cs");
                assert("cjs"@.len() != "cs"@.len());
            }
            }
        }
        assert(!seq!["py"@, "pyi"@].contains("cs"@)) by {
            assert forall|q: int| 0 <= q < seq!["py"@, "pyi"@].len() implies seq!["py"@, "pyi"@][q] != "cs"@ by {
            if q == 0 {
                assert(seq!["py"@, "pyi"@][0] == "py"@);
                reveal_strlit("py");
                reveal_strlit("cs");
                assert("py"@[0] != "cs"@[0]);
            }
            if q == 1 {
                assert(seq!["py"@, "pyi"@][1] == "pyi"@);
                reveal_strlit("pyi");
                reveal_strlit("cs");
                assert("pyi"@.len() != "cs"@.len());
            }
            }
        }
        assert(!seq!["go"@].contains("cs"@)) by {
            assert forall|q: int| 0 <= q < seq!["go"@].len() implies seq!["go"@][q] != "cs"@ by {
            if q == 0 {
                assert(seq!["go"@][0] == "go"@);
                reveal_strlit("go");
                reveal_strlit("cs");
                assert("go"@[0] != "cs"@[0]);
            }
            }
        }
        assert(!seq!["java"@].contains("cs"@)) by {
            assert forall|q: int| 0 <= q < seq!["java"@].len() implies seq!["java"@][q] != "cs"@ by {
            if q == 0 {
                assert(seq!["java"@][0] == "java"@);
                reveal_strlit("java");
                reveal_strlit("cs");
                assert("java"@.len() != "cs"@.len());
            }
            }
        }
    }
    assert(language_of_extension("c"@) == Some(Language::C)) by {
        assert(seq!["c"@, "h"@][0] == "c"@);
        assert(!seq!["rs"@].contains("c"@)) by {
            assert forall|q: int| 0 <= q < seq!["rs"@].len() implies seq!["rs"@][q] != "c"@ by {
            if q == 0 {
                assert(seq!["rs"@][0] == "rs"@);
                reveal_strlit("rs");
                reveal_strlit("c");
                assert("rs"@.len() != "c"@.len());
            }
            }
        }
        assert(!seq!["ts"@, "tsx"@, "mts"@, "cts"@].contains("c"@)) by {
            assert forall|q: int| 0 <= q < seq!["ts"@, "tsx"@, "mts"@, "cts"@].len() implies seq!["ts"@, "tsx"@, "mts"@, "cts"@][q] != "c"@ by {
            if q == 0 {
                assert(seq!["ts"@, "tsx"@, "mts"@, "cts"@][0] == "ts"@);
                reveal_strlit("ts");
                reveal_strlit("c");
                assert("ts"@.len() != "c"@.len());
            }
            if q == 1 {
                assert(seq!["ts"@, "tsx"@, "mts"@, "cts"@][1] == "tsx"@);
                reveal_strlit("tsx");
                reveal_strlit("c");
                assert("tsx"@.len() != "c"@.len());
            }
            if q == 2 {
                assert(seq!["ts"@, "tsx"@, "mts"@, "cts"@][2] == "mts"@);
                reveal_strlit("mts");
                reveal_strlit("c");
                assert("mts"@.len() != "c"@.len());
            }
            if q == 3 {
                assert(seq!["ts"@, "tsx"@, "mts"@, "cts"@][3] == "cts"@);
                reveal_strlit("cts");
                reveal_strlit("c");
                assert("cts"@.len() != "c"@.len());
            }
            }
        }
        assert(!seq!["js"@, "jsx"@, "mjs"@, "cjs"@].contains("c"@)) by {
            assert forall|q: int| 0 <= q < seq!["js"@, "jsx"@, "mjs"@, "cjs"@].len() implies seq!["js"@, "jsx"@, "mjs"@, "cjs"@][q] != "c"@ by {
            if q == 0 {
                assert(seq!["js"@, "jsx"@, "mjs"@, "cjs"@][0] == "js"@);
                reveal_strlit("js");
                reveal_strlit("c");
                assert("js"@.len() != "c"@.len());
            }
            if q == 1 {
                assert(seq!["js"@, "jsx"@, "mjs"@, "cjs"@][1] == "jsx"@);
                reveal_strlit("jsx");
                reveal_strlit("c");
                assert("jsx"@.len() != "c"@.len());
            }
            if q == 2 {
                assert(seq!["js"@, "jsx"@, "mjs"@, "cjs"@][2] == "mjs"@);
                reveal_strlit("mjs");
                reveal_strlit("c");
                assert("mjs"@.len() != "c"@.len());
            }
            if q == 3 {
                assert(seq!["js"@, "jsx"@, "mjs"@, "cjs"@][3] == "cjs"@);
                reveal_strlit("cjs");
                reveal_strlit("c");
                assert("cjs"@.len() != "c"@.len());
            }
            }
        }
        assert(!seq!["py"@, "pyi"@].contains("c"@)) by {
            assert forall|q: int| 0 <= q < seq!["py"@, "pyi"@].len() implies seq!["py"@, "pyi"@][q] != "c"@ by {
            if q == 0 {
                assert(seq!["py"@, "pyi"@][0] == "py"@);
                reveal_strlit("py");
                reveal_strlit("c");
                assert("py"@.len() != "c"@.len());
            }
            if q == 1 {
                assert(seq!["py"@, "pyi"@][1] == "pyi"@);
                reveal_strlit("pyi");
                reveal_strlit("c");
                assert("pyi"@.len() != "c"@.len());
            }
            }
        }
        assert(!seq!["go"@].contains("c"@)) by {
            assert forall|q: int| 0 <= q < seq!["go"@].len() implies seq!["go"@][q] != "c"@ by {
            if q == 0 {
                assert(seq!["go"@][0] == "go"@);
                reveal_strlit("go");
                reveal_strlit("c");
                assert("go"@.len() != "c"@.len());
            }
            }
        }
        assert(!seq!["java"@].contains("c"@)) by {
            assert forall|q: int| 0 <= q < seq!["java"@].len() implies seq!["java"@][q] != "c"@ by {
            if q == 0 {
                assert(seq!["java"@][0] == "java"@);
                reveal_strlit("java");
                reveal_strlit("c");
                assert("java"@.len() != "c"@.len());
            }
            }
        }
        assert(!seq!["cs"@].contains("c"@)) by {
            assert forall|q: int| 0 <= q < seq!["cs"@].len() implies seq!["cs"@][q] != "c"@ by {
            if q == 0 {
                assert(seq!["cs"@][0] == "cs"@);
                reveal_strlit("cs");
                reveal_strlit("c");
                assert("cs"@.len() != "c"@.len());
            }
            }
        }
    }
    assert(language_of_extension("h"@) == Some(Language::C)) by {
        assert(seq!["c"@, "h"@][1] == "h"@);
        assert(!seq!["rs"@].contains("h"@)) by {
            assert forall|q: int| 0 <= q < seq!["rs"@].len() implies seq!["rs"@][q] != "h"@ by {
            if q == 0 {
                assert(seq!["rs"@][0] == "rs"@);
                reveal_strlit("rs");
                reveal_strlit("h");
                assert("rs"@.len() != "h"@.len());
            }
            }
        }
        assert(!seq!["ts"@, "tsx"@, "mts"@, "cts"@].contains("h"@)) by {
            assert forall|q: int| 0 <= q < seq!["ts"@, "tsx"@, "mts"@, "cts"@].len() implies seq!["ts"@, "tsx"@, "mts"@, "cts"@][q] != "h"@ by {
            if q == 0 {
                assert(seq!["ts"@, "tsx"@, "mts"@, "cts"@][0] == "ts"@);
                reveal_strlit("ts");
                reveal_strlit("h");
                assert("ts"@.len() != "h"@.len());
            }
            if q == 1 {
                assert(seq!["ts"@, "tsx"@, "mts"@, "cts"@][1] == "tsx"@);
                reveal_strlit("tsx");
                reveal_strlit("h");
                assert("tsx"@.len() != "h"@.len());
            }
            if q == 2 {
                assert(seq!["ts"@, "tsx"@, "mts"@, "cts"@][2] == "mts"@);
                reveal_strlit("mts");
                reveal_strlit("h");
                assert("mts"@.len() != "h"@.len());
            }
            if q == 3 {
                assert(seq!["ts"@, "tsx"@, "mts"@, "cts"@][3] == "cts"@);
                reveal_strlit("cts");
                reveal_strlit("h");
                assert("cts"@.len() != "h"@.len());
            }
            }
        }
        assert(!seq!["js"@, "jsx"@, "mjs"@, "cjs"@].contains("h"@)) by {
            assert forall|q: int| 0 <= q < seq!["js"@, "jsx"@, "mjs"@, "cjs"@].len() implies seq!["js"@, "jsx"@, "mjs"@, "cjs"@][q] != "h"@ by {
            if q == 0 {
                assert(seq!["js"@, "jsx"@, "mjs"@, "cjs"@][0] == "js"@);
                reveal_strlit("js");
                reveal_strlit("h");
                assert("js"@.len() != "h"@.len());
            }
            if q == 1 {
                assert(seq!["js"@, "jsx"@, "mjs"@, "cjs"@][1] == "jsx"@);
                reveal_strlit("jsx");
                reveal_strlit("h");
                assert("jsx"@.len() != "h"@.len());
            }
            if q == 2 {
                assert(seq!["js"@, "jsx"@, "mjs"@, "cjs"@][2] == "mjs"@);
                reveal_strlit("mjs");
                reveal_strlit("h");
                assert("mjs"@.len() != "h"@.len());
            }
            if q == 3 {
                assert(seq!["js"@, "jsx"@, "mjs"@, "cjs"@][3] == "cjs"@);
                reveal_strlit("cjs");
                reveal_strlit("h");
                assert("cjs"@.len() != "h"@.len());
            }
            }
        }
        assert(!seq!["py"@, "pyi"@].contains("h"@)) by {
            assert forall|q: int| 0 <= q < seq!["py"@, "pyi"@].len() implies seq!["py"@, "pyi"@][q] != "h"@ by {
            if q == 0 {
                assert(seq!["py"@, "pyi"@][0] == "py"@);
                reveal_strlit("py");
                reveal_strlit("h");
                assert("py"@.len() != "h"@.len());
            }
            if q == 1 {
                assert(seq!["py"@, "pyi"@][1] == "pyi"@);
                reveal_strlit("pyi");
                reveal_strlit("h");
                assert("pyi"@.len() != "h"@.len());
            }
            }
        }
        assert(!seq!["go"@].contains("h"@)) by {
            assert forall|q: int| 0 <= q < seq!["go"@].len() implies seq!["go"@][q] != "h"@ by {
            if q == 0 {
                assert(seq!["go"@][0] == "go"@);
                reveal_strlit("go");
                reveal_strlit("h");
                assert("go"@.len() != "h"@.len());
            }
            }
        }
        assert(!seq!["java"@].contains("h"@)) by {
            assert forall|q: int| 0 <= q < seq!["java"@].len() implies seq!["java"@][q] != "h"@ by {
            if q == 0 {
                assert(seq!["java"@][0] == "java"@);
                reveal_strlit("java");
                reveal_strlit("h");
                assert("java"@.len() != "h"@.len());
            }
            }
        }
        assert(!seq!["cs"@].contains("h"@)) by {
            assert forall|q: int| 0 <= q < seq!["cs"@].len() implies seq!["cs"@][q] != "h"@ by {
            if q == 0 {
                assert(seq!["cs"@][0] == "cs"@);
                reveal_strlit("cs");
                reveal_strlit("h");
                assert("cs"@.len() != "h"@.len());
            }
            }
        }
    }
    assert(language_of_extension("cpp"@) == Some(Language::Cpp)) by {
        assert(seq!["cpp"@, "cc"@, "cxx"@, "hpp"@, "hh"@, "hxx"@, "cppm"@][0] == "cpp"@);
        assert(!seq!["rs"@].contains("cpp"@)) by {
            assert forall|q: int| 0 <= q < seq!["rs"@].len() implies seq!["rs"@][q] != "cpp"@ by {
            if q == 0 {
                assert(seq!["rs"@][0] == "rs"@);
                reveal_strlit("rs");
                reveal_strlit("cpp");
                assert("rs"@.len() != "cpp"@.len());
            }
            }
        }
        assert(!seq!["ts"@, "tsx"@, "mts"@, "cts"@].contains("cpp"@)) by {
            assert forall|q: int| 0 <= q < seq!["ts"@, "tsx"@, "mts"@, "cts"@].len() implies seq!["ts"@, "tsx"@, "mts"@, "cts"@][q] != "cpp"@ by {
            if q == 0 {
                assert(seq!["ts"@, "tsx"@, "mts"@, "cts"@][0] == "ts"@);
                reveal_strlit("ts");
                reveal_strlit("cpp");
                assert("ts"@.len() != "cpp"@.len());
            }
            if q == 1 {
                assert(seq!["ts"@, "tsx"@, "mts"@, "cts"@][1] == "tsx"@);
                reveal_strlit("tsx");
                reveal_strlit("cpp");
                assert("tsx"@[0] != "cpp"@[0]);
            }
            if q == 2 {
                assert(seq!["ts"@, "tsx"@, "mts"@, "cts"@][2] == "mts"@);
                reveal_strlit("mts");
                reveal_strlit("cpp");
                assert("mts"@[0] != "cpp"@[0]);
            }
            if q == 3 {
                assert(seq!["ts"@, "tsx"@, "mts"@, "cts"@][3] == "cts"@);
                reveal_strlit("cts");
                reveal_strlit("cpp");
                assert("cts"@[1] != "cpp"@[1]);
            }
            }
        }
        assert(!seq!["js"@, "jsx"@, "mjs"@, "cjs"@].contains("cpp"@)) by {
            assert forall|q: int| 0 <= q < seq!["js"@, "jsx"@, "mjs"@, "cjs"@].len() implies seq!["js"@, "jsx"@, "mjs"@, "cjs"@][q] != "cpp"@ by {
            if q == 0 {
                assert(seq!["js"@, "jsx"@, "mjs"@, "cjs"@][0] == "js"@);
                reveal_strlit("js");
                reveal_strlit("cpp");
                assert("js"@.len() != "cpp"@.len());
            }
            if q == 1 {
                assert(seq!["js"@, "jsx"@, "mjs"@, "cjs"@][1] == "jsx"@);
                reveal_strlit("jsx");
                reveal_strlit("cpp");
                assert("jsx"@[0] != "cpp"@[0]);
            }
            if q == 2 {
                assert(seq!["js"@, "jsx"@, "mjs"@, "cjs"@][2] == "mjs"@);
                reveal_strlit("mjs");
                reveal_strlit("cpp");
                assert("mjs"@[0] != "cpp"@[0]);
            }
            if q == 3 {
                assert(seq!["js"@, "jsx"@, "mjs"@, "cjs"@][3] == "cjs"@);
                reveal_strlit("cjs");
                reveal_strlit("cpp");
                assert("cjs"@[1] != "cpp"@[1]);
            }
            }
        }
        assert(!seq!["py"@, "pyi"@].contains("cpp"@)) by {
            assert forall|q: int| 0 <= q < seq!["py"@, "pyi"@].len() implies seq!["py"@, "pyi"@][q] != "cpp"@ by {
            if q == 0 {
                assert(seq!["py"@, "pyi"@][0] == "py"@);
                reveal_strlit("py");
                reveal_strlit("cpp");
                assert("py"@.len() != "cpp"@.len());
            }
            if q == 1 {
                assert(seq!["py"@, "pyi"@][1] == "pyi"@);
                reveal_strlit("pyi");
                reveal_strlit("cpp");
                assert("pyi"@[0] != "cpp"@[0]);
            }
            }
        }
        assert(!seq!["go"@].contains("cpp"@)) by {
            assert forall|q: int| 0 <= q < seq!["go"@].len() implies seq!["go"@][q] != "cpp"@ by {
            if q == 0 {
                assert(seq!["go"@][0] == "go"@);
                reveal_strlit("go");
                reveal_strlit("cpp");
                assert("go"@.len() != "cpp"@.len());
            }
            }
        }
        assert(!seq!["java"@].contains("cpp"@)) by {
            assert forall|q: int| 0 <= q < seq!["java"@].len() implies seq!["java"@][q] != "cpp"@ by {
            if q == 0 {
                assert(seq!["java"@][0] == "java"@);
                reveal_strlit("java");
                reveal_strlit("cpp");
                assert("java"@.len() != "cpp"@.len());
            }
            }
        }
        assert(!seq!["cs"@].contains("cpp"@)) by {
            assert forall|q: int| 0 <= q < seq!["cs"@].len() implies seq!["cs"@][q] != "cpp"@ by {
            if q == 0 {
                assert(seq!["cs"@][0] == "cs"@);
                reveal_strlit("cs");
                reveal_strlit("cpp");
                assert("cs"@.len() != "cpp"@.len());
            }
            }
        }
        assert(!seq!["c"@, "h"@].contains("cpp"@)) by {
            assert forall|q: int| 0 <= q < seq!["c"@, "h"@].len() implies seq!["c"@, "h"@][q] != "cpp"@ by {
            if q == 0 {
                assert(seq!["c"@, "h"@][0] == "c"@);
                reveal_strlit("c");
                reveal_strlit("cpp");
                assert("c"@.len() != "cpp"@.len());
            }
            if q == 1 {
                assert(seq!["c"@, "h"@][1] == "h"@);
                reveal_strlit("h");
                reveal_strlit("cpp");
                assert("h"@.len() != "cpp"@.len());
            }
            }
        }
    }
    assert(language_of_extension("cc"@) == Some(Language::Cpp)) by {
        assert(seq!["cpp"@, "cc"@, "cxx"@, "hpp"@, "hh"@, "hxx"@, "cppm"@][1] == "cc"@);
        assert(!seq!["rs"@].contains("cc"@)) by {
            assert forall|q: int| 0 <= q < seq!["rs"@].len() implies seq!["rs"@][q] != "cc"@ by {
            if q == 0 {
                assert(seq!["rs"@][0] == "rs"@);
                reveal_strlit("rs");
                reveal_strlit("cc");
                assert("rs"@[0] != "cc"@[0]);
            }
            }
        }
        assert(!seq!["ts"@, "tsx"@, "mts"@, "cts"@].contains("cc"@)) by {
            assert forall|q: int| 0 <= q < seq!["ts"@, "tsx"@, "mts"@, "cts"@].len() implies seq!["ts"@, "tsx"@, "mts"@, "cts"@][q] != "cc"@ by {
            if q == 0 {
                assert(seq!["ts"@, "tsx"@, "mts"@, "cts"@][0] == "ts"@);
                reveal_strlit("ts");
                reveal_strlit("cc");
                assert("ts"@[0] != "cc"@[0]);
            }
            if q == 1 {
                assert(seq!["ts"@, "tsx"@, "mts"@, "cts"@][1] == "tsx"@);
                reveal_strlit("tsx");
                reveal_strlit("cc");
                assert("tsx"@.len() != "cc"@.len());
            }
            if q == 2 {
                assert(seq!["ts"@, "tsx"@, "mts"@, "cts"@][2] == "mts"@);
                reveal_strlit("mts");
                reveal_strlit("cc");
                assert("mts"@.len() != "cc"@.len());
            }
            if q == 3 {
                assert(seq!["ts"@, "tsx"@, "mts"@, "cts"@][3] == "cts"@);
                reveal_strlit("cts");
                reveal_strlit("cc");
                assert("cts"@.len() != "cc"@.len());
            }
            }
        }
        assert(!seq!["js"@, "jsx"@, "mjs"@, "cjs"@].contains("cc"@)) by {
            assert forall|q: int| 0 <= q < seq!["js"@, "jsx"@, "mjs"@, "cjs"@].len() implies seq!["js"@, "jsx"@, "mjs"@, "cjs"@][q] != "cc"@ by {
            if q == 0 {
                assert(seq!["js"@, "jsx"@, "mjs"@, "cjs"@][0] == "js"@);
                reveal_strlit("js");
                reveal_strlit("cc");
                assert("js"@[0] != "cc"@[0]);
            }
            if q == 1 {
                assert(seq!["js"@, "jsx"@, "mjs"@, "cjs"@][1] == "jsx"@);
                reveal_strlit("jsx");
                reveal_strlit("cc");
                assert("jsx"@.len() != "cc"@.len());
            }
            if q == 2 {
                assert(seq!["js"@, "jsx"@, "mjs"@, "cjs"@][2] == "mjs"@);
                reveal_strlit("mjs");
                reveal_strlit("cc");
                assert("mjs"@.len() != "cc"@.len());
            }
            if q == 3 {
                assert(seq!["js"@, "jsx"@, "mjs"@, "cjs"@][3] == "cjs"@);
                reveal_strlit("cjs");
                reveal_strlit("cc");
                assert("cjs"@.len() != "cc"@.len());
            }
            }
        }
        assert(!seq!["py"@, "pyi"@].contains("cc"@)) by {
            assert forall|q: int| 0 <= q < seq!["py"@, "pyi"@].len() implies seq!["py"@, "pyi"@][q] != "cc"@ by {
            if q == 0 {
                assert(seq!["py"@, "pyi"@][0] == "py"@);
                reveal_strlit("py");
                reveal_strlit("cc");
                assert("py"@[0] != "cc"@[0]);
            }
            if q == 1 {
                assert(seq!["py"@, "pyi"@][1] == "pyi"@);
                reveal_strlit("pyi");
                reveal_strlit("cc");
                assert("pyi"@.len() != "cc"@.len());
            }
            }
        }
        assert(!seq!["go"@].contains("cc"@)) by {
            assert forall|q: int| 0 <= q < seq!["go"@].len() implies seq!["go"@][q] != "cc"@ by {
            if q == 0 {
                assert(seq!["go"@][0] == "go"@);
                reveal_strlit("go");
                reveal_strlit("cc");
                assert("go"@[0] != "cc"@[0]);
            }
            }
        }
        assert(!seq!["java"@].contains("cc"@)) by {
            assert forall|q: int| 0 <= q < seq!["java"@].len() implies seq!["java"@][q] != "cc"@ by {
            if q == 0 {
                assert(seq!["java"@][0] == "java"@);
                reveal_strlit("java");
                reveal_strlit("cc");
                assert("java"@.len() != "cc"@.len());
            }
            }
        }
        assert(!seq!["cs"@].contains("cc"@)) by {
            assert forall|q: int| 0 <= q < seq!["cs"@].len() implies seq!["cs"@][q] != "cc"@ by {
            if q == 0 {
                assert(seq!["cs"@][0] == "cs"@);
                reveal_strlit("cs");
                reveal_strlit("cc");
                assert("cs"@[1] != "cc"@[1]);
            }
            }
        }
        assert(!seq!["c"@, "h"@].contains("cc"@)) by {
            assert forall|q: int| 0 <= q < seq!["c"@, "h"@].len() implies seq!["c"@, "h"@][q] != "cc"@ by {
            if q == 0 {
                assert(seq!["c"@, "h"@][0] == "c"@);
                reveal_strlit("c");
                reveal_strlit("cc");
                assert("c"@.len() != "cc"@.len());
            }
            if q == 1 {
                assert(seq!["c"@, "h"@][1] == "h"@);
                reveal_strlit("h");
                reveal_strlit("cc");
                assert("h"@.len() != "cc"@.len());
            }
            }
        }
    }
    assert(language_of_extension("cxx"@) == Some(Language::Cpp)) by {
        assert(seq!["cpp"@, "cc"@, "cxx"@, "hpp"@, "hh"@, "hxx"@, "cppm"@][2] == "cxx"@);
        assert(!seq!["rs"@].contains("cxx"@)) by {
            assert forall|q: int| 0 <= q < seq!["rs"@].len() implies seq!["rs"@][q] != "cxx"@ by {
            if q == 0 {
                assert(seq!["rs"@][0] == "rs"@);
                reveal_strlit("rs");
                reveal_strlit("cxx");
                assert("rs"@.len() != "cxx"@.len());
            }
            }
        }
        assert(!seq!["ts"@, "tsx"@, "mts"@, "cts"@].contains("cxx"@)) by {
            assert forall|q: int| 0 <= q < seq!["ts"@, "tsx"@, "mts"@, "cts"@].len() implies seq!["ts"@, "tsx"@, "mts"@, "cts"@][q] != "cxx"@ by {
            if q == 0 {
                assert(seq!["ts"@, "tsx"@, "mts"@, "cts"@][0] == "ts"@);
                reveal_strlit("ts");
                reveal_strlit("cxx");
                assert("ts"@.len() != "cxx"@.len());
            }
            if q == 1 {
                assert(seq!["ts"@, "tsx"@, "mts"@, "cts"@][1] == "tsx"@);
                reveal_strlit("tsx");
                reveal_strlit("cxx");
                assert("tsx"@[0] != "cxx"@[0]);
            }
            if q == 2 {
                assert(seq!["ts"@, "tsx"@, "mts"@, "cts"@][2] == "mts"@);
                reveal_strlit("mts");
                reveal_strlit("cxx");
                assert("mts"@[0] != "cxx"@[0]);
            }
            if q == 3 {
                assert(seq!["ts"@, "tsx"@, "mts"@, "cts"@][3] == "cts"@);
                reveal_strlit("cts");
                reveal_strlit("cxx");
                assert("cts"@[1] != "cxx"@[1]);
            }
            }
        }
        assert(!seq!["js"@, "jsx"@, "mjs"@, "cjs"@].contains("cxx"@)) by {
            assert forall|q: int| 0 <= q < seq!["js"@, "jsx"@, "mjs"@, "cjs"@].len() implies seq!["js"@, "jsx"@, "mjs"@, "cjs"@][q] != "cxx"@ by {
            if q == 0 {
                assert(seq!["js"@, "jsx"@, "mjs"@, "cjs"@][0] == "js"@);
                reveal_strlit("js");
                reveal_strlit("cxx");
                assert("js"@.len() != "cxx"@.len());
            }
            if q == 1 {
                assert(seq!["js"@, "jsx"@, "mjs"@, "cjs"@][1] == "jsx"@);
                reveal_strlit("jsx");
                reveal_strlit("cxx");
                assert("jsx"@[0] != "cxx"@[0]);
            }
            if q == 2 {
                assert(seq!["js"@, "jsx"@, "mjs"@, "cjs"@][2] == "mjs"@);
                reveal_strlit("mjs");
                reveal_strlit("cxx");
                assert("mjs"@[0] != "cxx"@[0]);
            }
            if q == 3 {
                assert(seq!["js"@, "jsx"@, "mjs"@, "cjs"@][3] == "cjs"@);
                reveal_strlit("cjs");
                reveal_strlit("cxx");
                assert("cjs"@[1] != "cxx"@[1]);
            }
            }
        }
        assert(!seq!["py"@, "pyi"@].contains("cxx"@)) by {
            assert forall|q: int| 0 <= q < seq!["py"@, "pyi"@].len() implies seq!["py"@, "pyi"@][q] != "cxx"@ by {
            if q == 0 {
                assert(seq!["py"@, "pyi"@][0] == "py"@);
                reveal_strlit("py");
                reveal_strlit("cxx");
                assert("py"@.len() != "cxx"@.len());
            }
            if q == 1 {
                assert(seq!["py"@, "pyi"@][1] == "pyi"@);
                reveal_strlit("pyi");
                reveal_strlit("cxx");
                assert("pyi"@[0] != "cxx"@[0]);
            }
            }
        }
        assert(!seq!["go"@].contains("cxx"@)) by {
            assert forall|q: int| 0 <= q < seq!["go"@].len() implies seq!["go"@][q] != "cxx"@ by {
            if q == 0 {
                assert(seq!["go"@][0] == "go"@);
                reveal_strlit("go");
                reveal_strlit("cxx");
                assert("go"@.len() != "cxx"@.len());
            }
            }
        }
        assert(!seq!["java"@].contains("cxx"@)) by {
            assert forall|q: int| 0 <= q < seq!["java"@].len() implies seq!["java"@][q] != "cxx"@ by {
            if q == 0 {
                assert(seq!["java"@][0] == "java"@);
                reveal_strlit("java");
                reveal_strlit("cxx");
                assert("java"@.len() != "cxx"@.len());
            }
            }
        }
        assert(!seq!["cs"@].contains("cxx"@)) by {
            assert forall|q: int| 0 <= q < seq!["cs"@].len() implies seq!["cs"@][q] != "cxx"@ by {
            if q == 0 {
                assert(seq!["cs"@][0] == "cs"@);
                reveal_strlit("cs");
                reveal_strlit("cxx");
                assert("cs"@.len() != "cxx"@.len());
            }
            }
        }
        assert(!seq!["c"@, "h"@].contains("cxx"@)) by {
            assert forall|q: int| 0 <= q < seq!["c"@, "h"@].len() implies seq!["c"@, "h"@][q] != "cxx"@ by {
            if q == 0 {
                assert(seq!["c"@, "h"@][0] == "c"@);
                reveal_strlit("c");
                reveal_strlit("cxx");
                assert("c"@.len() != "cxx"@.len());
            }
            if q == 1 {
                assert(seq!["c"@, "h"@][1] == "h"@);
                reveal_strlit("h");
                reveal_strlit("cxx");
                assert("h"@.len() != "cxx"@.len());
            }
            }
        }
    }
    assert(language_of_extension("hpp"@) == Some(Language::Cpp)) by {
        assert(seq!["cpp"@, "cc"@, "cxx"@, "hpp"@, "hh"@, "hxx"@, "cppm"@][3] == "hpp"@);
        assert(!seq!["rs"@].contains("hpp"@)) by {
            assert forall|q: int| 0 <= q < seq!["rs"@].len() implies seq!["rs"@][q] != "hpp"@ by {
            if q == 0 {
                assert(seq!["rs"@][0] == "rs"@);
                reveal_strlit("rs");
                reveal_strlit("hpp");
                assert("rs"@.len() != "hpp"@.len());
            }
            }
        }
        assert(!seq!["ts"@, "tsx"@, "mts"@, "cts"@].contains("hpp"@)) by {
            assert forall|q: int| 0 <= q < seq!["ts"@, "tsx"@, "mts"@, "cts"@].len() implies seq!["ts"@, "tsx"@, "mts"@, "cts"@][q] != "hpp"@ by {
            if q == 0 {
                assert(seq!["ts"@, "tsx"@, "mts"@, "cts"@][0] == "ts"@);
                reveal_strlit("ts");
                reveal_strlit("hpp");
                assert("ts"@.len() != "hpp"@.len());
            }
            if q == 1 {
                assert(seq!["ts"@, "tsx"@, "mts"@, "cts"@][1] == "tsx"@);
                reveal_strlit("tsx");
                reveal_strlit("hpp");
                assert("tsx"@[0] != "hpp"@[0]);
            }
            if q == 2 {
                assert(seq!["ts"@, "tsx"@, "mts"@, "cts"@][2] == "mts"@);
                reveal_strlit("mts");
                reveal_strlit("hpp");
                assert("mts"@[0] != "hpp"@[0]);
            }
            if q == 3 {
                assert(seq!["ts"@, "tsx"@, "mts"@, "cts"@][3] == "cts"@);
                reveal_strlit("cts");
                reveal_strlit("hpp");
                assert("cts"@[0] != "hpp"@[0]);
            }
            }
        }
        assert(!seq!["js"@, "jsx"@, "mjs"@, "cjs"@].contains("hpp"@)) by {
            assert forall|q: int| 0 <= q < seq!["js"@, "jsx"@, "mjs"@, "cjs"@].len() implies seq!["js"@, "jsx"@, "mjs"@, "cjs"@][q] != "hpp"@ by {
            if q == 0 {
                assert(seq!["js"@, "jsx"@, "mjs"@, "cjs"@][0] == "js"@);
                reveal_strlit("js");
                reveal_strlit("hpp");
                assert("js"@.len() != "hpp"@.len());
            }
            if q == 1 {
                assert(seq!["js"@, "jsx"@, "mjs"@, "cjs"@][1] == "jsx"@);
                reveal_strlit("jsx");
                reveal_strlit("hpp");
                assert("jsx"@[0] != "hpp"@[0]);
            }
            if q == 2 {
                assert(seq!["js"@, "jsx"@, "mjs"@, "cjs"@][2] == "mjs"@);
                reveal_strlit("mjs");
                reveal_strlit("hpp");
                assert("mjs"@[0] != "hpp"@[0]);
            }
            if q == 3 {
                assert(seq!["js"@, "jsx"@, "mjs"@, "cjs"@][3] == "cjs"@);
                reveal_strlit("cjs");
                reveal_strlit("hpp");
                assert("cjs"@[0] != "hpp"@[0]);
            }
            }
        }
        assert(!seq!["py"@, "pyi"@].contains("hpp"@)) by {
            assert forall|q: int| 0 <= q < seq!["py"@, "pyi"@].len() implies seq!["py"@, "pyi"@][q] != "hpp"@ by {
            if q == 0 {
                assert(seq!["py"@, "pyi"@][0] == "py"@);
                reveal_strlit("py");
                reveal_strlit("hpp");
                assert("py"@.len() != "hpp"@.len());
            }
            if q == 1 {
                assert(seq!["py"@, "pyi"@][1] == "pyi"@);
                reveal_strlit("pyi");
                reveal_strlit("hpp");
                assert("pyi"@[0] != "hpp"@[0]);
            }
            }
        }
        assert(!seq!["go"@].contains("hpp"@)) by {
            assert forall|q: int| 0 <= q < seq!["go"@].len() implies seq!["go"@][q] != "hpp"@ by {
            if q == 0 {
                assert(seq!["go"@][0] == "go"@);
                reveal_strlit("go");
                reveal_strlit("hpp");
                assert("go"@.len() != "hpp"@.len());
            }
            }
        }
        assert(!seq!["java"@].contains("hpp"@)) by {
            assert forall|q: int| 0 <= q < seq!["java"@].len() implies seq!["java"@][q] != "hpp"@ by {
            if q == 0 {
                assert(seq!["java"@][0] == "java"@);
                reveal_strlit("java");
                reveal_strlit("hpp");
                assert("java"@.len() != "hpp"@.len());
            }
            }
        }
        assert(!seq!["cs"@].contains("hpp"@)) by {
            assert forall|q: int| 0 <= q < seq!["cs"@].len() implies seq!["cs"@][q] != "hpp"@ by {
            if q == 0 {
                assert(seq!["cs"@][0] == "cs"@);
                reveal_strlit("cs");
                reveal_strlit("hpp");
                assert("cs"@.len() != "hpp"@.len());
            }
            }
        }
        assert(!seq!["c"@, "h"@].contains("hpp"@)) by {
            assert forall|q: int| 0 <= q < seq!["c"@, "h"@].len() implies seq!["c"@, "h"@][q] != "hpp"@ by {
            if q == 0 {
                assert(seq!["c"@, "h"@][0] == "c"@);
                reveal_strlit("c");
                reveal_strlit("hpp");
                assert("c"@.len() != "hpp"@.len());
            }
            if q == 1 {
                assert(seq!["c"@, "h"@][1] == "h"@);
                reveal_strlit("h");
                reveal_strlit("hpp");
                assert("h"@.len() != "hpp"@.len());
            }
            }
        }
    }
    assert(language_of_extension("hh"@) == Some(Language::Cpp)) by {
        assert(seq!["cpp"@, "cc"@, "cxx"@, "hpp"@, "hh"@, "hxx"@, "cppm"@][4] == "hh"@);
        assert(!seq!["rs"@].contains("hh"@)) by {
            assert forall|q: int| 0 <= q < seq!["rs"@].len() implies seq!["rs"@][q] != "hh"@ by {
            if q == 0 {
                assert(seq!["rs"@][0] == "rs"@);
                reveal_strlit("rs");
                reveal_strlit("hh");
                assert("rs"@[0] != "hh"@[0]);
            }
            }
        }
        assert(!seq!["ts"@, "tsx"@, "mts"@, "cts"@].contains("hh"@)) by {
            assert forall|q: int| 0 <= q < seq!["ts"@, "tsx"@, "mts"@, "cts"@].len() implies seq!["ts"@, "tsx"@, "mts"@, "cts"@][q] != "hh"@ by {
            if q == 0 {
                assert(seq!["ts"@, "tsx"@, "mts"@, "cts"@][0] == "ts"@);
                reveal_strlit("ts");
                reveal_strlit("hh");
                assert("ts"@[0] != "hh"@[0]);
            }
            if q == 1 {
                assert(seq!["ts"@, "tsx"@, "mts"@, "cts"@][1] == "tsx"@);
                reveal_strlit("tsx");
                reveal_strlit("hh");
                assert("tsx"@.len() != "hh"@.len());
            }
            if q == 2 {
                assert(seq!["ts"@, "tsx"@, "mts"@, "cts"@][2] == "mts"@);
                reveal_strlit("mts");
                reveal_strlit("hh");
                assert("mts"@.len() != "hh"@.len());
            }
            if q == 3 {
                assert(seq!["ts"@, "tsx"@, "mts"@, "cts"@][3] == "cts"@);
                reveal_strlit("cts");
                reveal_strlit("hh");
                assert("cts"@.len() != "hh"@.len());
            }
            }
        }
        assert(!seq!["js"@, "jsx"@, "mjs"@, "cjs"@].contains("hh"@)) by {
            assert forall|q: int| 0 <= q < seq!["js"@, "jsx"@, "mjs"@, "cjs"@].len() implies seq!["js"@, "jsx"@, "mjs"@, "cjs"@][q] != "hh"@ by {
            if q == 0 {
                assert(seq!["js"@, "jsx"@, "mjs"@, "cjs"@][0] == "js"@);
                reveal_strlit("js");
                reveal_strlit("hh");
                assert("js"@[0] != "hh"@[0]);
            }
            if q == 1 {
                assert(seq!["js"@, "jsx"@, "mjs"@, "cjs"@][1] == "jsx"@);
                reveal_strlit("jsx");
                reveal_strlit("hh");
                assert("jsx"@.len() != "hh"@.len());
            }
            if q == 2 {
                assert(seq!["js"@, "jsx"@, "mjs"@, "cjs"@][2] == "mjs"@);
                reveal_strlit("mjs");
                reveal_strlit("hh");
                assert("mjs"@.len() != "hh"@.len());
            }
            if q == 3 {
                assert(seq!["js"@, "jsx"@, "mjs"@, "cjs"@][3] == "cjs"@);
                reveal_strlit("cjs");
                reveal_strlit("hh");
                assert("cjs"@.len() != "hh"@.len());
            }
            }
        }
        assert(!seq!["py"@, "pyi"@].contains("hh"@)) by {
            assert forall|q: int| 0 <= q < seq!["py"@, "pyi"@].len() implies seq!["py"@, "pyi"@][q] != "hh"@ by {
            if q == 0 {
                assert(seq!["py"@, "pyi"@][0] == "py"@);
                reveal_strlit("py");
                reveal_strlit("hh");
                assert("py"@[0] != "hh"@[0]);
            }
            if q == 1 {
                assert(seq!["py"@, "pyi"@][1] == "pyi"@);
                reveal_strlit("pyi");
                reveal_strlit("hh");
                assert("pyi"@.len() != "hh"@.len());
            }
            }
        }
        assert(!seq!["go"@].contains("hh"@)) by {
            assert forall|q: int| 0 <= q < seq!["go"@].len() implies seq!["go"@][q] != "hh"@ by {
            if q == 0 {
                assert(seq!["go"@][0] == "go"@);
                reveal_strlit("go");
                reveal_strlit("hh");
                assert("go"@[0] != "hh"@[0]);
            }
            }
        }
        assert(!seq!["java"@].contains("hh"@)) by {
            assert forall|q: int| 0 <= q < seq!["java"@].len() implies seq!["java"@][q] != "hh"@ by {
            if q == 0 {
                assert(seq!["java"@][0] == "java"@);
                reveal_strlit("java");
                reveal_strlit("hh");
                assert("java"@.len() != "hh"@.len());
            }
            }
        }
        assert(!seq!["cs"@].contains("hh"@)) by {
            assert forall|q: int| 0 <= q < seq!["cs"@].len() implies seq!["cs"@][q] != "hh"@ by {
            if q == 0 {
                assert(seq!["cs"@][0] == "cs"@);
                reveal_strlit("cs");
                reveal_strlit("hh");
                assert("cs"@[0] != "hh"@[0]);
            }
            }
        }
        assert(!seq!["c"@, "h"@].contains("hh"@)) by {
            assert forall|q: int| 0 <= q < seq!["c"@, "h"@].len() implies seq!["c"@, "h"@][q] != "hh"@ by {
            if q == 0 {
                assert(seq!["c"@, "h"@][0] == "c"@);
                reveal_strlit("c");
                reveal_strlit("hh");
                assert("c"@.len() != "hh"@.len());
            }
            if q == 1 {
                assert(seq!["c"@, "h"@][1] == "h"@);
                reveal_strlit("h");
                reveal_strlit("hh");
                assert("h"@.len() != "hh"@.len());
            }
            }
        }
    }
    assert(language_of_extension("hxx"@) == Some(Language::Cpp)) by {
        assert(seq!["cpp"@, "cc"@, "cxx"@, "hpp"@, "hh"@, "hxx"@, "cppm"@][5] == "hxx"@);
        assert(!seq!["rs"@].contains("hxx"@)) by {
            assert forall|q: int| 0 <= q < seq!["rs"@].len() implies seq!["rs"@][q] != "hxx"@ by {
            if q == 0 {
                assert(seq!["rs"@][0] == "rs"@);
                reveal_strlit("rs");
                reveal_strlit("hxx");
                assert("rs"@.len() != "hxx"@.len());
            }
            }
        }
        assert(!seq!["ts"@, "tsx"@, "mts"@, "cts"@].contains("hxx"@)) by {
            assert forall|q: int| 0 <= q < seq!["ts"@, "tsx"@, "mts"@, "cts"@].len() implies seq!["ts"@, "tsx"@, "mts"@, "cts"@][q] != "hxx"@ by {
            if q == 0 {
                assert(seq!["ts"@, "tsx"@, "mts"@, "cts"@][0] == "ts"@);
                reveal_strlit("ts");
                reveal_strlit("hxx");
                assert("ts"@.len() != "hxx"@.len());
            }
            if q == 1 {
                assert(seq!["ts"@, "tsx"@, "mts"@, "cts"@][1] == "tsx"@);
                reveal_strlit("tsx");
                reveal_strlit("hxx");
                assert("tsx"@[0] != "hxx"@[0]);
            }
            if q == 2 {
                assert(seq!["ts"@, "tsx"@, "mts"@, "cts"@][2] == "mts"@);
                reveal_strlit("mts");
                reveal_strlit("hxx");
                assert("mts"@[0] != "hxx"@[0]);
            }
            if q == 3 {
                assert(seq!["ts"@, "tsx"@, "mts"@, "cts"@][3] == "cts"@);
                reveal_strlit("cts");
                reveal_strlit("hxx");
                assert("cts"@[0] != "hxx"@[0]);
            }
            }
        }
        assert(!seq!["js"@, "jsx"@, "mjs"@, "cjs"@].contains("hxx"@)) by {
            assert forall|q: int| 0 <= q < seq!["js"@, "jsx"@, "mjs"@, "cjs"@].len() implies seq!["js"@, "jsx"@, "mjs"@, "cjs"@][q] != "hxx"@ by {
            if q == 0 {
                assert(seq!["js"@, "jsx"@, "mjs"@, "cjs"@][0] == "js"@);
                reveal_strlit("js");
                reveal_strlit("hxx");
                assert("js"@.len() != "hxx"@.len());
            }
            if q == 1 {
                assert(seq!["js"@, "jsx"@, "mjs"@, "cjs"@][1] == "jsx"@);
                reveal_strlit("jsx");
                reveal_strlit("hxx");
                assert("jsx"@[0] != "hxx"@[0]);
            }
            if q == 2 {
                assert(seq!["js"@, "jsx"@, "mjs"@, "cjs"@][2] == "mjs"@);
                reveal_strlit("mjs");
                reveal_strlit("hxx");
                assert("mjs"@[0] != "hxx"@[0]);
            }
            if q == 3 {
                assert(seq!["js"@, "jsx"@, "mjs"@, "cjs"@][3] == "cjs"@);
                reveal_strlit("cjs");
                reveal_strlit("hxx");
                assert("cjs"@[0] != "hxx"@[0]);
            }
            }
        }
        assert(!seq!["py"@, "pyi"@].contains("hxx"@)) by {
            assert forall|q: int| 0 <= q < seq!["py"@, "pyi"@].len() implies seq!["py"@, "pyi"@][q] != "hxx"@ by {
            if q == 0 {
                assert(seq!["py"@, "pyi"@][0] == "py"@);
                reveal_strlit("py");
                reveal_strlit("hxx");
                assert("py"@.len() != "hxx"@.len());
            }
            if q == 1 {
                assert(seq!["py"@, "pyi"@][1] == "pyi"@);
                reveal_strlit("pyi");
                reveal_strlit("hxx");
                assert("pyi"@[0] != "hxx"@[0]);
            }
            }
        }
        assert(!seq!["go"@].contains("hxx"@)) by {
            assert forall|q: int| 0 <= q < seq!["go"@].len() implies seq!["go"@][q] != "hxx"@ by {
            if q == 0 {
                assert(seq!["go"@][0] == "go"@);
                reveal_strlit("go");
                reveal_strlit("hxx");
                assert("go"@.len() != "hxx"@.len());
            }
            }
        }
        assert(!seq!["java"@].contains("hxx"@)) by {
            assert forall|q: int| 0 <= q < seq!["java"@].len() implies seq!["java"@][q] != "hxx"@ by {
            if q == 0 {
                assert(seq!["java"@][0] == "java"@);
                reveal_strlit("java");
                reveal_strlit("hxx");
                assert("java"@.len() != "hxx"@.len());
            }
            }
        }
        assert(!seq!["cs"@].contains("hxx"@)) by {
            assert forall|q: int| 0 <= q < seq!["cs"@].len() implies seq!["cs"@][q] != "hxx"@ by {
            if q == 0 {
                assert(seq!["cs"@][0] == "cs"@);
                reveal_strlit("cs");
                reveal_strlit("hxx");
                assert("cs"@.len() != "hxx"@.len());
            }
            }
        }
        assert(!seq!["c"@, "h"@].contains("hxx"@)) by {
            assert forall|q: int| 0 <= q < seq!["c"@, "h"@].len() implies seq!["c"@, "h"@][q] != "hxx"@ by {
            if q == 0 {
                assert(seq!["c"@, "h"@][0] == "c"@);
                reveal_strlit("c");
                reveal_strlit("hxx");
                assert("c"@.len() != "hxx"@.len());
            }
            if q == 1 {
                assert(seq!["c"@, "h"@][1] == "h"@);
                reveal_strlit("h");
                reveal_strlit("hxx");
                assert("h"@.len() != "hxx"@.len());
            }
            }
        }
    }
    assert(language_of_extension("cppm"@) == Some(Language::Cpp)) by {
        assert(seq!["cpp"@, "cc"@, "cxx"@, "hpp"@, "hh"@, "hxx"@, "cppm"@][6] == "cppm"@);
        assert(!seq!["rs"@].contains("cppm"@)) by {
            assert forall|q: int| 0 <= q < seq!["rs"@].len() implies seq!["rs"@][q] != "cppm"@ by {
            if q == 0 {
                assert(seq!["rs"@][0] == "rs"@);
                reveal_strlit("rs");
                reveal_strlit("cppm");
                assert("rs"@.len() != "cppm"@.len());
            }
            }
        }
        assert(!seq!["ts"@, "tsx"@, "mts"@, "cts"@].contains("cppm"@)) by {
            assert forall|q: int| 0 <= q < seq!["ts"@, "tsx"@, "mts"@, "cts"@].len() implies seq!["ts"@, "tsx"@, "mts"@, "cts"@][q] != "cppm"@ by {
            if q == 0 {
                assert(seq!["ts"@, "tsx"@, "mts"@, "cts"@][0] == "ts"@);
                reveal_strlit("ts");
                reveal_strlit("cppm");
                assert("ts"@.len() != "cppm"@.len());
            }
            if q == 1 {
                assert(seq!["ts"@, "tsx"@, "mts"@, "cts"@][1] == "tsx"@);
                reveal_strlit("tsx");
                reveal_strlit("cppm");
                assert("tsx"@.len() != "cppm"@.len());
            }
            if q == 2 {
                assert(seq!["ts"@, "tsx"@, "mts"@, "cts"@][2] == "mts"@);
                reveal_strlit("mts");
                reveal_strlit("cppm");
                assert("mts"@.len() != "cppm"@.len());
            }
            if q == 3 {
                assert(seq!["ts"@, "tsx"@, "mts"@, "cts"@][3] == "cts"@);
                reveal_strlit("cts");
                reveal_strlit("cppm");
                assert("cts"@.len() != "cppm"@.len());
            }
            }
        }
        assert(!seq!["js"@, "jsx"@, "mjs"@, "cjs"@].contains("cppm"@)) by {
            assert forall|q: int| 0 <= q < seq!["js"@, "jsx"@, "mjs"@, "cjs"@].len() implies seq!["js"@, "jsx"@, "mjs"@, "cjs"@][q] != "cppm"@ by {
            if q == 0 {
                assert(seq!["js"@, "jsx"@, "mjs"@, "cjs"@][0] == "js"@);
                reveal_strlit("js");
                reveal_strlit("cppm");
                assert("js"@.len() != "cppm"@.len());
            }
            if q == 1 {
                assert(seq!["js"@, "jsx"@, "mjs"@, "cjs"@][1] == "jsx"@);
                reveal_strlit("jsx");
                reveal_strlit("cppm");
                assert("jsx"@.len() != "cppm"@.len());
            }
            if q == 2 {
                assert(seq!["js"@, "jsx"@, "mjs"@, "cjs"@][2] == "mjs"@);
                reveal_strlit("mjs");
                reveal_strlit("cppm");
                assert("mjs"@.len() != "cppm"@.len());
            }
            if q == 3 {
                assert(seq!["js"@, "jsx"@, "mjs"@, "cjs"@][3] == "cjs"@);
                reveal_strlit("cjs");
                reveal_strlit("cppm");
                assert("cjs"@.len() != "cppm"@.len());
            }
            }
        }
        assert(!seq!["py"@, "pyi"@].contains("cppm"@)) by {
            assert forall|q: int| 0 <= q < seq!["py"@, "pyi"@].len() implies seq!["py"@, "pyi"@][q] != "cppm"@ by {
            if q == 0 {
                assert(seq!["py"@, "pyi"@][0] == "py"@);
                reveal_strlit("py");
                reveal_strlit("cppm");
                assert("py"@.len() != "cppm"@.len());
            }
            if q == 1 {
                assert(seq!["py"@, "pyi"@][1] == "pyi"@);
                reveal_strlit("pyi");
                reveal_strlit("cppm");
                assert("pyi"@.len() != "cppm"@.len());
            }
            }
        }
        assert(!seq!["go"@].contains("cppm"@)) by {
            assert forall|q: int| 0 <= q < seq!["go"@].len() implies seq!["go"@][q] != "cppm"@ by {
            if q == 0 {
                assert(seq!["go"@][0] == "go"@);
                reveal_strlit("go");
                reveal_strlit("cppm");
                assert("go"@.len() != "cppm"@.len());
            }
            }
        }
        assert(!seq!["java"@].contains("cppm"@)) by {
            assert forall|q: int| 0 <= q < seq!["java"@].len() implies seq!["java"@][q] != "cppm"@ by {
            if q == 0 {
                assert(seq!["java"@][0] == "java"@);
                reveal_strlit("java");
                reveal_strlit("cppm");
                assert("java"@[0] != "cppm"@[0]);
            }
            }
        }
        assert(!seq!["cs"@].contains("cppm"@)) by {
            assert forall|q: int| 0 <= q < seq!["cs"@].len() implies seq!["cs"@][q] != "cppm"@ by {
            if q == 0 {
                assert(seq!["cs"@][0] == "cs"@);
                reveal_strlit("cs");
                reveal_strlit("cppm");
                assert("cs"@.len() != "cppm"@.len());
            }
            }
        }
        assert(!seq!["c"@, "h"@].contains("cppm"@)) by {
            assert forall|q: int| 0 <= q < seq!["c"@, "h"@].len() implies seq!["c"@, "h"@][q] != "cppm"@ by {
            if q == 0 {
                assert(seq!["c"@, "h"@][0] == "c"@);
                reveal_strlit("c");
                reveal_strlit("cppm");
                assert("c"@.len() != "cppm"@.len());
            }
            if q == 1 {
                assert(seq!["c"@, "h"@][1] == "h"@);
                reveal_strlit("h");
                reveal_strlit("cppm");
                assert("h"@.len() != "cppm"@.len());
            }
            }
        }
    }
    assert(language_of_extension("json"@) == Some(Language::Json)) by {
        assert(seq!["json"@, "jsonc"@, "json5"@][0] == "json"@);
        assert(!seq!["rs"@].contains("json"@)) by {
            assert forall|q: int| 0 <= q < seq!["rs"@].len() implies seq!["rs"@][q] != "json"@ by {
            if q == 0 {
                assert(seq!["rs"@][0] == "rs"@);
                reveal_strlit("rs");
                reveal_strlit("json");
                assert("rs"@.len() != "json"@.len());
            }
            }
        }
        assert(!seq!["ts"@, "tsx"@, "mts"@, "cts"@].contains("json"@)) by {
            assert forall|q: int| 0 <= q < seq!["ts"@, "tsx"@, "mts"@, "cts"@].len() implies seq!["ts"@, "tsx"@, "mts"@, "cts"@][q] != "json"@ by {
            if q == 0 {
                assert(seq!["ts"@, "tsx"@, "mts"@, "cts"@][0] == "ts"@);
                reveal_strlit("ts");
                reveal_strlit("json");
                assert("ts"@.len() != "json"@.len());
            }
            if q == 1 {
                assert(seq!["ts"@, "tsx"@, "mts"@, "cts"@][1] == "tsx"@);
                reveal_strlit("tsx");
                reveal_strlit("json");
                assert("tsx"@.len() != "json"@.len());
            }
            if q == 2 {
                assert(seq!["ts"@, "tsx"@, "mts"@, "cts"@][2] == "mts"@);
                reveal_strlit("mts");
                reveal_strlit("json");
                assert("mts"@.len() != "json"@.len());
            }
            if q == 3 {
                assert(seq!["ts"@, "tsx"@, "mts"@, "cts"@][3] == "cts"@);
                reveal_strlit("cts");
                reveal_strlit("json");
                assert("cts"@.len() != "json"@.len());
            }
            }
        }
        assert(!seq!["js"@, "jsx"@, "mjs"@, "cjs"@].contains("json"@)) by {
            assert forall|q: int| 0 <= q < seq!["js"@, "jsx"@, "mjs"@, "cjs"@].len() implies seq!["js"@, "jsx"@, "mjs"@, "cjs"@][q] != "json"@ by {
            if q == 0 {
                assert(seq!["js"@, "jsx"@, "mjs"@, "cjs"@][0] == "js"@);
                reveal_strlit("js");
                reveal_strlit("json");
                assert("js"@.len() != "json"@.len());
            }
            if q == 1 {
                assert(seq!["js"@, "jsx"@, "mjs"@, "cjs"@][1] == "jsx"@);
                reveal_strlit("jsx");
                reveal_strlit("json");
                assert("jsx"@.len() != "json"@.len());
            }
            if q == 2 {
                assert(seq!["js"@, "jsx"@, "mjs"@, "cjs"@][2] == "mjs"@);
                reveal_strlit("mjs");
                reveal_strlit("json");
                assert("mjs"@.len() != "json"@.len());
            }
            if q == 3 {
                assert(seq!["js"@, "jsx"@, "mjs"@, "cjs"@][3] == "cjs"@);
                reveal_strlit("cjs");
                reveal_strlit("json");
                assert("cjs"@.len() != "json"@.len());
            }
            }
        }
        assert(!seq!["py"@, "pyi"@].contains("json"@)) by {
            assert forall|q: int| 0 <= q < seq!["py"@, "pyi"@].len() implies seq!["py"@, "pyi"@][q] != "json"@ by {
            if q == 0 {
                assert(seq!["py"@, "pyi"@][0] == "py"@);
                reveal_strlit("py");
                reveal_strlit("json");
                assert("py"@.len() != "json"@.len());
            }
            if q == 1 {
                assert(seq!["py"@, "pyi"@][1] == "pyi"@);
                reveal_strlit("pyi");
                reveal_strlit("json");
                assert("pyi"@.len() != "json"@.len());
            }
            }
        }
        assert(!seq!["go"@].contains("json"@)) by {
            assert forall|q: int| 0 <= q < seq!["go"@].len() implies seq!["go"@][q] != "json"@ by {
            if q == 0 {
                assert(seq!["go"@][0] == "go"@);
                reveal_strlit("go");
                reveal_strlit("json");
                assert("go"@.len() != "json"@.len());
            }
            }
        }
        assert(!seq!["java"@].contains("json"@)) by {
            assert forall|q: int| 0 <= q < seq!["java"@].len() implies seq!["java"@][q] != "json"@ by {
            if q == 0 {
                assert(seq!["java"@][0] == "java"@);
                reveal_strlit("java");
                reveal_strlit("json");
                assert("java"@[1] != "json"@[1]);
            }
            }
        }
        assert(!seq!["cs"@].contains("json"@)) by {
            assert forall|q: int| 0 <= q < seq!["cs"@].len() implies seq!["cs"@][q] != "json"@ by {
            if q == 0 {
                assert(seq!["cs"@][0] == "cs"@);
                reveal_strlit("cs");
                reveal_strlit("json");
                assert("cs"@.len() != "json"@.len());
            }
            }
        }
        assert(!seq!["c"@, "h"@].contains("json"@)) by {
            assert forall|q: int| 0 <= q < seq!["c"@, "h"@].len() implies seq!["c"@, "h"@][q] != "json"@ by {
            if q == 0 {
                assert(seq!["c"@, "h"@][0] == "c"@);
                reveal_strlit("c");
                reveal_strlit("json");
                assert("c"@.len() != "json"@.len());
            }
            if q == 1 {
                assert(seq!["c"@, "h"@][1] == "h"@);
                reveal_strlit("h");
                reveal_strlit("json");
                assert("h"@.len() != "json"@.len());
            }
            }
        }
        assert(!seq!["cpp"@, "cc"@, "cxx"@, "hpp"@, "hh"@, "hxx"@, "cppm"@].contains("json"@)) by {
            assert forall|q: int| 0 <= q < seq!["cpp"@, "cc"@, "cxx"@, "hpp"@, "hh"@, "hxx"@, "cppm"@].len() implies seq!["cpp"@, "cc"@, "cxx"@, "hpp"@, "hh"@, "hxx"@, "cppm"@][q] != "json"@ by {
            if q == 0 {
                assert(seq!["cpp"@, "cc"@, "cxx"@, "hpp"@, "hh"@, "hxx"@, "cppm"@][0] == "cpp"@);
                reveal_strlit("cpp");
                reveal_strlit("json");
                assert("cpp"@.len() != "json"@.len());
            }
            if q == 1 {
                assert(seq!["cpp"@, "cc"@, "cxx"@, "hpp"@, "hh"@, "hxx"@, "cppm"@][1] == "cc"@);
                reveal_strlit("cc");
                reveal_strlit("json");
                assert("cc"@.len() != "json"@.len());
            }
            if q == 2 {
                assert(seq!["cpp"@, "cc"@, "cxx"@, "hpp"@, "hh"@, "hxx"@, "cppm"@][2] == "cxx"@);
                reveal_strlit("cxx");
                reveal_strlit("json");
                assert("cxx"@.len() != "json"@.len());
            }
            if q == 3 {
                assert(seq!["cpp"@, "cc"@, "cxx"@, "hpp"@, "hh"@, "hxx"@, "cppm"@][3] == "hpp"@);
                reveal_strlit("hpp");
                reveal_strlit("json");
                assert("hpp"@.len() != "json"@.len());
            }
            if q == 4 {
                assert(seq!["cpp"@, "cc"@, "cxx"@, "hpp"@, "hh"@, "hxx"@, "cppm"@][4] == "hh"@);
                reveal_strlit("hh");
                reveal_strlit("json");
                assert("hh"@.len() != "json"@.len());
            }
            if q == 5 {
                assert(seq!["cpp"@, "cc"@, "cxx"@, "hpp"@, "hh"@, "hxx"@, "cppm"@][5] == "hxx"@);
                reveal_strlit("hxx");
                reveal_strlit("json");
                assert("hxx"@.len() != "json"@.len());
            }
            if q == 6 {
                assert(seq!["cpp"@, "cc"@, "cxx"@, "hpp"@, "hh"@, "hxx"@, "cppm"@][6] == "cppm"@);
                reveal_strlit("cppm");
                reveal_strlit("json");
                assert("cppm"@[0] != "json"@[0]);
            }
            }
        }
    }
    assert(language_of_extension("jsonc"@) == Some(Language::Json)) by {
        assert(seq!["json"@, "jsonc"@, "json5"@][1] == "jsonc"@);
        assert(!seq!["rs"@].contains("jsonc"@)) by {
            assert forall|q: int| 0 <= q < seq!["rs"@].len() implies seq!["rs"@][q] != "jsonc"@ by {
            if q == 0 {
                assert(seq!["rs"@][0] == "rs"@);
                reveal_strlit("rs");
                reveal_strlit("jsonc");
                assert("rs"@.len() != "jsonc"@.len());
            }
            }
        }
        assert(!seq!["ts"@, "tsx"@, "mts"@, "cts"@].contains("jsonc"@)) by {
            assert forall|q: int| 0 <= q < seq!["ts"@, "tsx"@, "mts"@, "cts"@].len() implies seq!["ts"@, "tsx"@, "mts"@, "cts"@][q] != "jsonc"@ by {
            if q == 0 {
                assert(seq!["ts"@, "tsx"@, "mts"@, "cts"@][0] == "ts"@);
                reveal_strlit("ts");
                reveal_strlit("jsonc");
                assert("ts"@.len() != "jsonc"@.len());
            }
            if q == 1 {
                assert(seq!["ts"@, "tsx"@, "mts"@, "cts"@][1] == "tsx"@);
                reveal_strlit("tsx");
                reveal_strlit("jsonc");
                assert("tsx"@.len() != "jsonc"@.len());
            }
            if q == 2 {
                assert(seq!["ts"@, "tsx"@, "mts"@, "cts"@][2] == "mts"@);
                reveal_strlit("mts");
                reveal_strlit("jsonc");
                assert("mts"@.len() != "jsonc"@.len());
            }
            if q == 3 {
                assert(seq!["ts"@, "tsx"@, "mts"@, "cts"@][3] == "cts"@);
                reveal_strlit("cts");
                reveal_strlit("jsonc");
                assert("cts"@.len() != "jsonc"@.len());
            }
            }
        }
        assert(!seq!["js"@, "jsx"@, "mjs"@, "cjs"@].contains("jsonc"@)) by {
            assert forall|q: int| 0 <= q < seq!["js"@, "jsx"@, "mjs"@, "cjs"@].len() implies seq!["js"@, "jsx"@, "mjs"@, "cjs"@][q] != "jsonc"@ by {
            if q == 0 {
                assert(seq!["js"@, "jsx"@, "mjs"@, "cjs"@][0] == "js"@);
                reveal_strlit("js");
                reveal_strlit("jsonc");
                assert("js"@.len() != "jsonc"@.len());
            }
            if q == 1 {
                assert(seq!["js"@, "jsx"@, "mjs"@, "cjs"@][1] == "jsx"@);
                reveal_strlit("jsx");
                reveal_strlit("jsonc");
                assert("jsx"@.len() != "jsonc"@.len());
            }
            if q == 2 {
                assert(seq!["js"@, "jsx"@, "mjs"@, "cjs"@][2] == "mjs"@);
                reveal_strlit("mjs");
                reveal_strlit("jsonc");
                assert("mjs"@.len() != "jsonc"@.len());
            }
            if q == 3 {
                assert(seq!["js"@, "jsx"@, "mjs"@, "cjs"@][3] == "cjs"@);
                reveal_strlit("cjs");
                reveal_strlit("jsonc");
                assert("cjs"@.len() != "jsonc"@.len());
            }
            }
        }
        assert(!seq!["py"@, "pyi"@].contains("jsonc"@)) by {
            assert forall|q: int| 0 <= q < seq!["py"@, "pyi"@].len() implies seq!["py"@, "pyi"@][q] != "jsonc"@ by {
            if q == 0 {
                assert(seq!["py"@, "pyi"@][0] == "py"@);
                reveal_strlit("py");
                reveal_strlit("jsonc");
                assert("py"@.len() != "jsonc"@.len());
            }
            if q == 1 {
                assert(seq!["py"@, "pyi"@][1] == "pyi"@);
                reveal_strlit("pyi");
                reveal_strlit("jsonc");
                assert("pyi"@.len() != "jsonc"@.len());
            }
            }
        }
        assert(!seq!["go"@].contains("jsonc"@)) by {
            assert forall|q: int| 0 <= q < seq!["go"@].len() implies seq!["go"@][q] != "jsonc"@ by {
            if q == 0 {
                assert(seq!["go"@][0] == "go"@);
                reveal_strlit("go");
                reveal_strlit("jsonc");
                assert("go"@.len() != "jsonc"@.len());
            }
            }
        }
        assert(!seq!["java"@].contains("jsonc"@)) by {
            assert forall|q: int| 0 <= q < seq!["java"@].len() implies seq!["java"@][q] != "jsonc"@ by {
            if q == 0 {
                assert(seq!["java"@][0] == "java"@);
                reveal_strlit("java");
                reveal_strlit("jsonc");
                assert("java"@.len() != "jsonc"@.len());
            }
            }
        }
        assert(!seq!["cs"@].contains("jsonc"@)) by {
            assert forall|q: int| 0 <= q < seq!["cs"@].len() implies seq!["cs"@][q] != "jsonc"@ by {
            if q == 0 {
                assert(seq!["cs"@][0] == "cs"@);
                reveal_strlit("cs");
                reveal_strlit("jsonc");
                assert("cs"@.len() != "jsonc"@.len());
            }
            }
        }
        assert(!seq!["c"@, "h"@].contains("jsonc"@)) by {
            assert forall|q: int| 0 <= q < seq!["c"@, "h"@].len() implies seq!["c"@, "h"@][q] != "jsonc"@ by {
            if q == 0 {
                assert(seq!["c"@, "h"@][0] == "c"@);
                reveal_strlit("c");
                reveal_strlit("jsonc");
                assert("c"@.len() != "jsonc"@.len());
            }
            if q == 1 {
                assert(seq!["c"@, "h"@][1] == "h"@);
                reveal_strlit("h");
                reveal_strlit("jsonc");
                assert("h"@.len() != "jsonc"@.len());
            }
            }
        }
        assert(!seq!["cpp"@, "cc"@, "cxx"@, "hpp"@, "hh"@, "hxx"@, "cppm"@].contains("jsonc"@)) by {
            assert forall|q: int| 0 <= q < seq!["cpp"@, "cc"@, "cxx"@, "hpp"@, "hh"@, "hxx"@, "cppm"@].len() implies seq!["cpp"@, "cc"@, "cxx"@, "hpp"@, "hh"@, "hxx"@, "cppm"@][q] != "jsonc"@ by {
            if q == 0 {
                assert(seq!["cpp"@, "cc"@, "cxx"@, "hpp"@, "hh"@, "hxx"@, "cppm"@][0] == "cpp"@);
                reveal_strlit("cpp");
                reveal_strlit("jsonc");
                assert("cpp"@.len() != "jsonc"@.len());
            }
            if q == 1 {
                assert(seq!["cpp"@, "cc"@, "cxx"@, "hpp"@, "hh"@, "hxx"@, "cppm"@][1] == "cc"@);
                reveal_strlit("cc");
                reveal_strlit("jsonc");
                assert("cc"@.len() != "jsonc"@.len());
            }
            if q == 2 {
                assert(seq!["cpp"@, "cc"@, "cxx"@, "hpp"@, "hh"@, "hxx"@, "cppm"@][2] == "cxx"@);
                reveal_strlit("cxx");
                reveal_strlit("jsonc");
                assert("cxx"@.len() != "jsonc"@.len());
            }
            if q == 3 {
                assert(seq!["cpp"@, "cc"@, "cxx"@, "hpp"@, "hh"@, "hxx"@, "cppm"@][3] == "hpp"@);
                reveal_strlit("hpp");
                reveal_strlit("jsonc");
                assert("hpp"@.len() != "jsonc"@.len());
            }
            if q == 4 {
                assert(seq!["cpp"@, "cc"@, "cxx"@, "hpp"@, "hh"@, "hxx"@, "cppm"@][4] == "hh"@);
                reveal_strlit("hh");
                reveal_strlit("jsonc");
                assert("hh"@.len() != "jsonc"@.len());
            }
            if q == 5 {
                assert(seq!["cpp"@, "cc"@, "cxx"@, "hpp"@, "hh"@, "hxx"@, "cppm"@][5] == "hxx"@);
                reveal_strlit("hxx");
                reveal_strlit("jsonc");
                assert("hxx"@.len() != "jsonc"@.len());
            }
            if q == 6 {
                assert(seq!["cpp"@, "cc"@, "cxx"@, "hpp"@, "hh"@, "hxx"@, "cppm"@][6] == "cppm"@);
                reveal_strlit("cppm");
                reveal_strlit("jsonc");
                assert("cppm"@.len() != "jsonc"@.len());
            }
            }
        }
    }
    assert(language_of_extension("json5"@) == Some(Language::Json)) by {
        assert(seq!["json"@, "jsonc"@, "json5"@][2] == "json5"@);
        assert(!seq!["rs"@].contains("json5"@)) by {
            assert forall|q: int| 0 <= q < seq!["rs"@].len() implies seq!["rs"@][q] != "json5"@ by {
            if q == 0 {
                assert(seq!["rs"@][0] == "rs"@);
                reveal_strlit("rs");
                reveal_strlit("json5");
                assert("rs"@.len() != "json5"@.len());
            }
            }
        }
        assert(!seq!["ts"@, "tsx"@, "mts"@, "cts"@].contains("json5"@)) by {
            assert forall|q: int| 0 <= q < seq!["ts"@, "tsx"@, "mts"@, "cts"@].len() implies seq!["ts"@, "tsx"@, "mts"@, "cts"@][q] != "json5"@ by {
            if q == 0 {
                assert(seq!["ts"@, "tsx"@, "mts"@, "cts"@][0] == "ts"@);
                reveal_strlit("ts");
                reveal_strlit("json5");
                assert("ts"@.len() != "json5"@.len());
            }
            if q == 1 {
                assert(seq!["ts"@, "tsx"@, "mts"@, "cts"@][1] == "tsx"@);
                reveal_strlit("tsx");
                reveal_strlit("json5");
                assert("tsx"@.len() != "json5"@.len());
            }
            if q == 2 {
                assert(seq!["ts"@, "tsx"@, "mts"@, "cts"@][2] == "mts"@);
                reveal_strlit("mts");
                reveal_strlit("json5");
                assert("mts"@.len() != "json5"@.len());
            }
            if q == 3 {
                assert(seq!["ts"@, "tsx"@, "mts"@, "cts"@][3] == "cts"@);
                reveal_strlit("cts");
                reveal_strlit("json5");
                assert("cts"@.len() != "json5"@.len());
            }
            }
        }
        assert(!seq!["js"@, "jsx"@, "mjs"@, "cjs"@].contains("json5"@)) by {
            assert forall|q: int| 0 <= q < seq!["js"@, "jsx"@, "mjs"@, "cjs"@].len() implies seq!["js"@, "jsx"@, "mjs"@, "cjs"@][q] != "json5"@ by {
            if q == 0 {
                assert(seq!["js"@, "jsx"@, "mjs"@, "cjs"@][0] == "js"@);
                reveal_strlit("js");
                reveal_strlit("json5");
                assert("js"@.len() != "json5"@.len());
            }
            if q == 1 {
                assert(seq!["js"@, "jsx"@, "mjs"@, "cjs"@][1] == "jsx"@);
                reveal_strlit("jsx");
                reveal_strlit("json5");
                assert("jsx"@.len() != "json5"@.len());
            }
            if q == 2 {
                assert(seq!["js"@, "jsx"@, "mjs"@, "cjs"@][2] == "mjs"@);
                reveal_strlit("mjs");
                reveal_strlit("json5");
                assert("mjs"@.len() != "json5"@.len());
            }
            if q == 3 {
                assert(seq!["js"@, "jsx"@, "mjs"@, "cjs"@][3] == "cjs"@);
                reveal_strlit("cjs");
                reveal_strlit("json5");
                assert("cjs"@.len() != "json5"@.len());
            }
            }
        }
        assert(!seq!["py"@, "pyi"@].contains("json5"@)) by {
            assert forall|q: int| 0 <= q < seq!["py"@, "pyi"@].len() implies seq!["py"@, "pyi"@][q] != "json5"@ by {
            if q == 0 {
                assert(seq!["py"@, "pyi"@][0] == "py"@);
                reveal_strlit("py");
                reveal_strlit("json5");
                assert("py"@.len() != "json5"@.len());
            }
            if q == 1 {
                assert(seq!["py"@, "pyi"@][1] == "pyi"@);
                reveal_strlit("pyi");
                reveal_strlit("json5");
                assert("pyi"@.len() != "json5"@.len());
            }
            }
        }
        assert(!seq!["go"@].contains("json5"@)) by {
            assert forall|q: int| 0 <= q < seq!["go"@].len() implies seq!["go"@][q] != "json5"@ by {
            if q == 0 {
                assert(seq!["go"@][0] == "go"@);
                reveal_strlit("go");
                reveal_strlit("json5");
                assert("go"@.len() != "json5"@.len());
            }
            }
        }
        assert(!seq!["java"@].contains("json5"@)) by {
            assert forall|q: int| 0 <= q < seq!["java"@].len() implies seq!["java"@][q] != "json5"@ by {
            if q == 0 {
                assert(seq!["java"@][0] == "java"@);
                reveal_strlit("java");
                reveal_strlit("json5");
                assert("java"@.len() != "json5"@.len());
            }
            }
        }
        assert(!seq!["cs"@].contains("json5"@)) by {
            assert forall|q: int| 0 <= q < seq!["cs"@].len() implies seq!["cs"@][q] != "json5"@ by {
            if q == 0 {
                assert(seq!["cs"@][0] == "cs"@);
                reveal_strlit("cs");
                reveal_strlit("json5");
                assert("cs"@.len() != "json5"@.len());
            }
            }
        }
        assert(!seq!["c"@, "h"@].contains("json5"@)) by {
            assert forall|q: int| 0 <= q < seq!["c"@, "h"@].len() implies seq!["c"@, "h"@][q] != "json5"@ by {
            if q == 0 {
                assert(seq!["c"@, "h"@][0] == "c"@);
                reveal_strlit("c");
                reveal_strlit("json5");
                assert("c"@.len() != "json5"@.len());
            }
            if q == 1 {
                assert(seq!["c"@, "h"@][1] == "h"@);
                reveal_strlit("h");
                reveal_strlit("json5");
                assert("h"@.len() != "json5"@.len());
            }
            }
        }
        assert(!seq!["cpp"@, "cc"@, "cxx"@, "hpp"@, "hh"@, "hxx"@, "cppm"@].contains("json5"@)) by {
            assert forall|q: int| 0 <= q < seq!["cpp"@, "cc"@, "cxx"@, "hpp"@, "hh"@, "hxx"@, "cppm"@].len() implies seq!["cpp"@, "cc"@, "cxx"@, "hpp"@, "hh"@, "hxx"@, "cppm"@][q] != "json5"@ by {
            if q == 0 {
                assert(seq!["cpp"@, "cc"@, "cxx"@, "hpp"@, "hh"@, "hxx"@, "cppm"@][0] == "cpp"@);
                reveal_strlit("cpp");
                reveal_strlit("json5");
                assert("cpp"@.len() != "json5"@.len());
            }
            if q == 1 {
                assert(seq!["cpp"@, "cc"@, "cxx"@, "hpp"@, "hh"@, "hxx"@, "cppm"@][1] == "cc"@);
                reveal_strlit("cc");
                reveal_strlit("json5");
                assert("cc"@.len() != "json5"@.len());
            }
            if q == 2 {
                assert(seq!["cpp"@, "cc"@, "cxx"@, "hpp"@, "hh"@, "hxx"@, "cppm"@][2] == "cxx"@);
                reveal_strlit("cxx");
                reveal_strlit("json5");
                assert("cxx"@.len() != "json5"@.len());
            }
            if q == 3 {
                assert(seq!["cpp"@, "cc"@, "cxx"@, "hpp"@, "hh"@, "hxx"@, "cppm"@][3] == "hpp"@);
                reveal_strlit("hpp");
                reveal_strlit("json5");
                assert("hpp"@.len() != "json5"@.len());
            }
            if q == 4 {
                assert(seq!["cpp"@, "cc"@, "cxx"@, "hpp"@, "hh"@, "hxx"@, "cppm"@][4] == "hh"@);
                reveal_strlit("hh");
                reveal_strlit("json5");
                assert("hh"@.len() != "json5"@.len());
            }
            if q == 5 {
                assert(seq!["cpp"@, "cc"@, "cxx"@, "hpp"@, "hh"@, "hxx"@, "cppm"@][5] == "hxx"@);
                reveal_strlit("hxx");
                reveal_strlit("json5");
                assert("hxx"@.len() != "json5"@.len());
            }
            if q == 6 {
                assert(seq!["cpp"@, "cc"@, "cxx"@, "hpp"@, "hh"@, "hxx"@, "cppm"@][6] == "cppm"@);
                reveal_strlit("cppm");
                reveal_strlit("json5");
                assert("cppm"@.len() != "json5"@.len());
            }
            }
        }
    }
    assert(language_of_extension("yaml"@) == Some(Language::Yaml)) by {
        assert(seq!["yaml"@, "yml"@][0] == "yaml"@);
        assert(!seq!["rs"@].contains("yaml"@)) by {
            assert forall|q: int| 0 <= q < seq!["rs"@].len() implies seq!["rs"@][q] != "yaml"@ by {
            if q == 0 {
                assert(seq!["rs"@][0] == "rs"@);
                reveal_strlit("rs");
                reveal_strlit("yaml");
                assert("rs"@.len() != "yaml"@.len());
            }
            }
        }
        assert(!seq!["ts"@, "tsx"@, "mts"@, "cts"@].contains("yaml"@)) by {
            assert forall|q: int| 0 <= q < seq!["ts"@, "tsx"@, "mts"@, "cts"@].len() implies seq!["ts"@, "tsx"@, "mts"@, "cts"@][q] != "yaml"@ by {
            if q == 0 {
                assert(seq!["ts"@, "tsx"@, "mts"@, "cts"@][0] == "ts"@);
                reveal_strlit("ts");
                reveal_strlit("yaml");
                assert("ts"@.len() != "yaml"@.len());
            }
            if q == 1 {
                assert(seq!["ts"@, "tsx"@, "mts"@, "cts"@][1] == "tsx"@);
                reveal_strlit("tsx");
                reveal_strlit("yaml");
                assert("tsx"@.len() != "yaml"@.len());
            }
            if q == 2 {
                assert(seq!["ts"@, "tsx"@, "mts"@, "cts"@][2] == "mts"@);
                reveal_strlit("mts");
                reveal_strlit("yaml");
                assert("mts"@.len() != "yaml"@.len());
            }
            if q == 3 {
                assert(seq!["ts"@, "tsx"@, "mts"@, "cts"@][3] == "cts"@);
                reveal_strlit("cts");
                reveal_strlit("yaml");
                assert("cts"@.len() != "yaml"@.len());
            }
            }
        }
        assert(!seq!["js"@, "jsx"@, "mjs"@, "cjs"@].contains("yaml"@)) by {
            assert forall|q: int| 0 <= q < seq!["js"@, "jsx"@, "mjs"@, "cjs"@].len() implies seq!["js"@, "jsx"@, "mjs"@, "cjs"@][q] != "yaml"@ by {
            if q == 0 {
                assert(seq!["js"@, "jsx"@, "mjs"@, "cjs"@][0] == "js"@);
                reveal_strlit("js");
                reveal_strlit("yaml");
                assert("js"@.len() != "yaml"@.len());
            }
            if q == 1 {
                assert(seq!["js"@, "jsx"@, "mjs"@, "cjs"@][1] == "jsx"@);
                reveal_strlit("jsx");
                reveal_strlit("yaml");
                assert("jsx"@.len() != "yaml"@.len());
            }
            if q == 2 {
                assert(seq!["js"@, "jsx"@, "mjs"@, "cjs"@][2] == "mjs"@);
                reveal_strlit("mjs");
                reveal_strlit("yaml");
                assert("mjs"@.len() != "yaml"@.len());
            }
            if q == 3 {
                assert(seq!["js"@, "jsx"@, "mjs"@, "cjs"@][3] == "cjs"@);
                reveal_strlit("cjs");
                reveal_strlit("yaml");
                assert("cjs"@.len() != "yaml"@.len());
            }
            }
        }
        assert(!seq!["py"@, "pyi"@].contains("yaml"@)) by {
            assert forall|q: int| 0 <= q < seq!["py"@, "pyi"@].len() implies seq!["py"@, "pyi"@][q] != "yaml"@ by {
            if q == 0 {
                assert(seq!["py"@, "pyi"@][0] == "py"@);
                reveal_strlit("py");
                reveal_strlit("yaml");
                assert("py"@.len() != "yaml"@.len());
            }
            if q == 1 {
                assert(seq!["py"@, "pyi"@][1] == "pyi"@);
                reveal_strlit("pyi");
                reveal_strlit("yaml");
                assert("pyi"@.len() != "yaml"@.len());
            }
            }
        }
        assert(!seq!["go"@].contains("yaml"@)) by {
            assert forall|q: int| 0 <= q < seq!["go"@].len() implies seq!["go"@][q] != "yaml"@ by {
            if q == 0 {
                assert(seq!["go"@][0] == "go"@);
                reveal_strlit("go");
                reveal_strlit("yaml");
                assert("go"@.len() != "yaml"@.len());
            }
            }
        }
        assert(!seq!["java"@].contains("yaml"@)) by {
            assert forall|q: int| 0 <= q < seq!["java"@].len() implies seq!["java"@][q] != "yaml"@ by {
            if q == 0 {
                assert(seq!["java"@][0] == "java"@);
                reveal_strlit("java");
                reveal_strlit("yaml");
                assert("java"@[0] != "yaml"@[0]);
            }
            }
        }
        assert(!seq!["cs"@].contains("yaml"@)) by {
            assert forall|q: int| 0 <= q < seq!["cs"@].len() implies seq!["cs"@][q] != "yaml"@ by {
            if q == 0 {
                assert(seq!["cs"@][0] == "cs"@);
                reveal_strlit("cs");
                reveal_strlit("yaml");
                assert("cs"@.len() != "yaml"@.len());
            }
            }
        }
        assert(!seq!["c"@, "h"@].contains("yaml"@)) by {
            assert forall|q: int| 0 <= q < seq!["c"@, "h"@].len() implies seq!["c"@, "h"@][q] != "yaml"@ by {
            if q == 0 {
                assert(seq!["c"@, "h"@][0] == "c"@);
                reveal_strlit("c");
                reveal_strlit("yaml");
                assert("c"@.len() != "yaml"@.len());
            }
            if q == 1 {
                assert(seq!["c"@, "h"@][1] == "h"@);
                reveal_strlit("h");
                reveal_strlit("yaml");
                assert("h"@.len() != "yaml"@.len());
            }
            }
        }
        assert(!seq!["cpp"@, "cc"@, "cxx"@, "hpp"@, "hh"@, "hxx"@, "cppm"@].contains("yaml"@)) by {
            assert forall|q: int| 0 <= q < seq!["cpp"@, "cc"@, "cxx"@, "hpp"@, "hh"@, "hxx"@, "cppm"@].len() implies seq!["cpp"@, "cc"@, "cxx"@, "hpp"@, "hh"@, "hxx"@, "cppm"@][q] != "yaml"@ by {
            if q == 0 {
                assert(seq!["cpp"@, "cc"@, "cxx"@, "hpp"@, "hh"@, "hxx"@, "cppm"@][0] == "cpp"@);
                reveal_strlit("cpp");
                reveal_strlit("yaml");
                assert("cpp"@.len() != "yaml"@.len());
            }
            if q == 1 {
                assert(seq!["cpp"@, "cc"@, "cxx"@, "hpp"@, "hh"@, "hxx"@, "cppm"@][1] == "cc"@);
                reveal_strlit("cc");
                reveal_strlit("yaml");
                assert("cc"@.len() != "yaml"@.len());
            }
            if q == 2 {
                assert(seq!["cpp"@, "cc"@, "cxx"@, "hpp"@, "hh"@, "hxx"@, "cppm"@][2] == "cxx"@);
                reveal_strlit("cxx");
                reveal_strlit("yaml");
                assert("cxx"@.len() != "yaml"@.len());
            }
            if q == 3 {
                assert(seq!["cpp"@, "cc"@, "cxx"@, "hpp"@, "hh"@, "hxx"@, "cppm"@][3] == "hpp"@);
                reveal_strlit("hpp");
                reveal_strlit("yaml");
                assert("hpp"@.len() != "yaml"@.len());
            }
            if q == 4 {
                assert(seq!["cpp"@, "cc"@, "cxx"@, "hpp"@, "hh"@, "hxx"@, "cppm"@][4] == "hh"@);
                reveal_strlit("hh");
                reveal_strlit("yaml");
                assert("hh"@.len() != "yaml"@.len());
            }
            if q == 5 {
                assert(seq!["cpp"@, "cc"@, "cxx"@, "hpp"@, "hh"@, "hxx"@, "cppm"@][5] == "hxx"@);
                reveal_strlit("hxx");
                reveal_strlit("yaml");
                assert("hxx"@.len() != "yaml"@.len());
            }
            if q == 6 {
                assert(seq!["cpp"@, "cc"@, "cxx"@, "hpp"@, "hh"@, "hxx"@, "cppm"@][6] == "cppm"@);
                reveal_strlit("cppm");
                reveal_strlit("yaml");
                assert("cppm"@[0] != "yaml"@[0]);
            }
            }
        }
        assert(!seq!["json"@, "jsonc"@, "json5"@].contains("yaml"@)) by {
            assert forall|q: int| 0 <= q < seq!["json"@, "jsonc"@, "json5"@].len() implies seq!["json"@, "jsonc"@, "json5"@][q] != "yaml"@ by {
            if q == 0 {
                assert(seq!["json"@, "jsonc"@, "json5"@][0] == "json"@);
                reveal_strlit("json");
                reveal_strlit("yaml");
                assert("json"@[0] != "yaml"@[0]);
            }
            if q == 1 {
                assert(seq!["json"@, "jsonc"@, "json5"@][1] == "jsonc"@);
                reveal_strlit("jsonc");
                reveal_strlit("yaml");
                assert("jsonc"@.len() != "yaml"@.len());
            }
            if q == 2 {
                assert(seq!["json"@, "jsonc"@, "json5"@][2] == "json5"@);
                reveal_strlit("json5");
                reveal_strlit("yaml");
                assert("json5"@.len() != "yaml"@.len());
            }
            }
        }
    }
    assert(language_of_extension("yml"@) == Some(Language::Yaml)) by {
        assert(seq!["yaml"@, "yml"@][1] == "yml"@);
        assert(!seq!["rs"@].contains("yml"@)) by {
            assert forall|q: int| 0 <= q < seq!["rs"@].len() implies seq!["rs"@][q] != "yml"@ by {
            if q == 0 {
                assert(seq!["rs"@][0] == "rs"@);
                reveal_strlit("rs");
                reveal_strlit("yml");
                assert("rs"@.len() != "yml"@.len());
            }
            }
        }
        assert(!seq!["ts"@, "tsx"@, "mts"@, "cts"@].contains("yml"@)) by {
            assert forall|q: int| 0 <= q < seq!["ts"@, "tsx"@, "mts"@, "cts"@].len() implies seq!["ts"@, "tsx"@, "mts"@, "cts"@][q] != "yml"@ by {
            if q == 0 {
                assert(seq!["ts"@, "tsx"@, "mts"@, "cts"@][0] == "ts"@);
                reveal_strlit("ts");
                reveal_strlit("yml");
                assert("ts"@.len() != "yml"@.len());
            }
            if q == 1 {
                assert(seq!["ts"@, "tsx"@, "mts"@, "cts"@][1] == "tsx"@);
                reveal_strlit("tsx");
                reveal_strlit("yml");
                assert("tsx"@[0] != "yml"@[0]);
            }
            if q == 2 {
                assert(seq!["ts"@, "tsx"@, "mts"@, "cts"@][2] == "mts"@);
                reveal_strlit("mts");
                reveal_strlit("yml");
                assert("mts"@[0] != "yml"@[0]);
            }
            if q == 3 {
                assert(seq!["ts"@, "tsx"@, "mts"@, "cts"@][3] == "cts"@);
                reveal_strlit("cts");
                reveal_strlit("yml");
                assert("cts"@[0] != "yml"@[0]);
            }
            }
        }
        assert(!seq!["js"@, "jsx"@, "mjs"@, "cjs"@].contains("yml"@)) by {
            assert forall|q: int| 0 <= q < seq!["js"@, "jsx"@, "mjs"@, "cjs"@].len() implies seq!["js"@, "jsx"@, "mjs"@, "cjs"@][q] != "yml"@ by {
            if q == 0 {
                assert(seq!["js"@, "jsx"@, "mjs"@, "cjs"@][0] == "js"@);
                reveal_strlit("js");
                reveal_strlit("yml");
                assert("js"@.len() != "yml"@.len());
            }
            if q == 1 {
                assert(seq!["js"@, "jsx"@, "mjs"@, "cjs"@][1] == "jsx"@);
                reveal_strlit("jsx");
                reveal_strlit("yml");
                assert("jsx"@[0] != "yml"@[0]);
            }
            if q == 2 {
                assert(seq!["js"@, "jsx"@, "mjs"@, "cjs"@][2] == "mjs"@);
                reveal_strlit("mjs");
                reveal_strlit("yml");
                assert("mjs"@[0] != "yml"@[0]);
            }
            if q == 3 {
                assert(seq!["js"@, "jsx"@, "mjs"@, "cjs"@][3] == "cjs"@);
                reveal_strlit("cjs");
                reveal_strlit("yml");
                assert("cjs"@[0] != "yml"@[0]);
            }
            }
        }
        assert(!seq!["py"@, "pyi"@].contains("yml"@)) by {
            assert forall|q: int| 0 <= q < seq!["py"@, "pyi"@].len() implies seq!["py"@, "pyi"@][q] != "yml"@ by {
            if q == 0 {
                assert(seq!["py"@, "pyi"@][0] == "py"@);
                reveal_strlit("py");
                reveal_strlit("yml");
                assert("py"@.len() != "yml"@.len());
            }
            if q == 1 {
                assert(seq!["py"@, "pyi"@][1] == "pyi"@);
                reveal_strlit("pyi");
                reveal_strlit("yml");
                assert("pyi"@[0] != "yml"@[0]);
            }
            }
        }
        assert(!seq!["go"@].contains("yml"@)) by {
            assert forall|q: int| 0 <= q < seq!["go"@].len() implies seq!["go"@][q] != "yml"@ by {
            if q == 0 {
                assert(seq!["go"@][0] == "go"@);
                reveal_strlit("go");
                reveal_strlit("yml");
                assert("go"@.len() != "yml"@.len());
            }
            }
        }
        assert(!seq!["java"@].contains("yml"@)) by {
            assert forall|q: int| 0 <= q < seq!["java"@].len() implies seq!["java"@][q] != "yml"@ by {
            if q == 0 {
                assert(seq!["java"@][0] == "java"@);
                reveal_strlit("java");
                reveal_strlit("yml");
                assert("java"@.len() != "yml"@.len());
            }
            }
        }
        assert(!seq!["cs"@].contains("yml"@)) by {
            assert forall|q: int| 0 <= q < seq!["cs"@].len() implies seq!["cs"@][q] != "yml"@ by {
            if q == 0 {
                assert(seq!["cs"@][0] == "cs"@);
                reveal_strlit("cs");
                reveal_strlit("yml");
                assert("cs"@.len() != "yml"@.len());
            }
            }
        }
        assert(!seq!["c"@, "h"@].contains("yml"@)) by {
            assert forall|q: int| 0 <= q < seq!["c"@, "h"@].len() implies seq!["c"@, "h"@][q] != "yml"@ by {
            if q == 0 {
                assert(seq!["c"@, "h"@][0] == "c"@);
                reveal_strlit("c");
                reveal_strlit("yml");
                assert("c"@.len() != "yml"@.len());
            }
            if q == 1 {
                assert(seq!["c"@, "h"@][1] == "h"@);
                reveal_strlit("h");
                reveal_strlit("yml");
                assert("h"@.len() != "yml"@.len());
            }
            }
        }
        assert(!seq!["cpp"@, "cc"@, "cxx"@, "hpp"@, "hh"@, "hxx"@, "cppm"@].contains("yml"@)) by {
            assert forall|q: int| 0 <= q < seq!["cpp"@, "cc"@, "cxx"@, "hpp"@, "hh"@, "hxx"@, "cppm"@].len() implies seq!["cpp"@, "cc"@, "cxx"@, "hpp"@, "hh"@, "hxx"@, "cppm"@][q] != "yml"@ by {
            if q == 0 {
                assert(seq!["cpp"@, "cc"@, "cxx"@, "hpp"@, "hh"@, "hxx"@, "cppm"@][0] == "cpp"@);
                reveal_strlit("cpp");
                reveal_strlit("yml");
                assert("cpp"@[0] != "yml"@[0]);
            }
            if q == 1 {
                assert(seq!["cpp"@, "cc"@, "cxx"@, "hpp"@, "hh"@, "hxx"@, "cppm"@][1] == "cc"@);
                reveal_strlit("cc");
                reveal_strlit("yml");
                assert("cc"@.len() != "yml"@.len());
            }
            if q == 2 {
                assert(seq!["cpp"@, "cc"@, "cxx"@, "hpp"@, "hh"@, "hxx"@, "cppm"@][2] == "cxx"@);
                reveal_strlit("cxx");
                reveal_strlit("yml");
                assert("cxx"@[0] != "yml"@[0]);
            }
            if q == 3 {
                assert(seq!["cpp"@, "cc"@, "cxx"@, "hpp"@, "hh"@, "hxx"@, "cppm"@][3] == "hpp"@);
                reveal_strlit("hpp");
                reveal_strlit("yml");
                assert("hpp"@[0] != "yml"@[0]);
            }
            if q == 4 {
                assert(seq!["cpp"@, "cc"@, "cxx"@, "hpp"@, "hh"@, "hxx"@, "cppm"@][4] == "hh"@);
                reveal_strlit("hh");
                reveal_strlit("yml");
                assert("hh"@.len() != "yml"@.len());
            }
            if q == 5 {
                assert(seq!["cpp"@, "cc"@, "cxx"@, "hpp"@, "hh"@, "hxx"@, "cppm"@][5] == "hxx"@);
                reveal_strlit("hxx");
                reveal_strlit("yml");
                assert("hxx"@[0] != "yml"@[0]);
            }
            if q == 6 {
                assert(seq!["cpp"@, "cc"@, "cxx"@, "hpp"@, "hh"@, "hxx"@, "cppm"@][6] == "cppm"@);
                reveal_strlit("cppm");
                reveal_strlit("yml");
                assert("cppm"@.len() != "yml"@.len());
            }
            }
        }
        assert(!seq!["json"@, "jsonc"@, "json5"@].contains("yml"@)) by {
            assert forall|q: int| 0 <= q < seq!["json"@, "jsonc"@, "json5"@].len() implies seq!["json"@, "jsonc"@, "json5"@][q] != "yml"@ by {
            if q == 0 {
                assert(seq!["json"@, "jsonc"@, "json5"@][0] == "json"@);
                reveal_strlit("json");
                reveal_strlit("yml");
                assert("json"@.len() != "yml"@.len());
            }
            if q == 1 {
                assert(seq!["json"@, "jsonc"@, "json5"@][1] == "jsonc"@);
                reveal_strlit("jsonc");
                reveal_strlit("yml");
                assert("jsonc"@.len() != "yml"@.len());
            }
            if q == 2 {
                assert(seq!["json"@, "jsonc"@, "json5"@][2] == "json5"@);
                reveal_strlit("json5");
                reveal_strlit("yml");
                assert("json5"@.len() != "yml"@.len());
            }
            }
        }
    }
    assert(language_of_extension("toml"@) == Some(Language::Toml)) by {
        assert(seq!["toml"@, "tml"@][0] == "toml"@);
        assert(!seq!["rs"@].contains("toml"@)) by {
            assert forall|q: int| 0 <= q < seq!["rs"@].len() implies seq!["rs"@][q] != "toml"@ by {
            if q == 0 {
                assert(seq!["rs"@][0] == "rs"@);
                reveal_strlit("rs");
                reveal_strlit("toml");
                assert("rs"@.len() != "toml"@.len());
            }
            }
        }
        assert(!seq!["ts"@, "tsx"@, "mts"@, "cts"@].contains("toml"@)) by {
            assert forall|q: int| 0 <= q < seq!["ts"@, "tsx"@, "mts"@, "cts"@].len() implies seq!["ts"@, "tsx"@, "mts"@, "cts"@][q] != "toml"@ by {
            if q == 0 {
                assert(seq!["ts"@, "tsx"@, "mts"@, "cts"@][0] == "ts"@);
                reveal_strlit("ts");
                reveal_strlit("toml");
                assert("ts"@.len() != "toml"@.len());
            }
            if q == 1 {
                assert(seq!["ts"@, "tsx"@, "mts"@, "cts"@][1] == "tsx"@);
                reveal_strlit("tsx");
                reveal_strlit("toml");
                assert("tsx"@.len() != "toml"@.len());
            }
            if q == 2 {
                assert(seq!["ts"@, "tsx"@, "mts"@, "cts"@][2] == "mts"@);
                reveal_strlit("mts");
                reveal_strlit("toml");
                assert("mts"@.len() != "toml"@.len());
            }
            if q == 3 {
                assert(seq!["ts"@, "tsx"@, "mts"@, "cts"@][3] == "cts"@);
                reveal_strlit("cts");
                reveal_strlit("toml");
                assert("cts"@.len() != "toml"@.len());
            }
            }
        }
        assert(!seq!["js"@, "jsx"@, "mjs"@, "cjs"@].contains("toml"@)) by {
            assert forall|q: int| 0 <= q < seq!["js"@, "jsx"@, "mjs"@, "cjs"@].len() implies seq!["js"@, "jsx"@, "mjs"@, "cjs"@][q] != "toml"@ by {
            if q == 0 {
                assert(seq!["js"@, "jsx"@, "mjs"@, "cjs"@][0] == "js"@);
                reveal_strlit("js");
                reveal_strlit("toml");
                assert("js"@.len() != "toml"@.len());
            }
            if q == 1 {
                assert(seq!["js"@, "jsx"@, "mjs"@, "cjs"@][1] == "jsx"@);
                reveal_strlit("jsx");
                reveal_strlit("toml");
                assert("jsx"@.len() != "toml"@.len());
            }
            if q == 2 {
                assert(seq!["js"@, "jsx"@, "mjs"@, "cjs"@][2] == "mjs"@);
                reveal_strlit("mjs");
                reveal_strlit("toml");
                assert("mjs"@.len() != "toml"@.len());
            }
            if q == 3 {
                assert(seq!["js"@, "jsx"@, "mjs"@, "cjs"@][3] == "cjs"@);
                reveal_strlit("cjs");
                reveal_strlit("toml");
                assert("cjs"@.len() != "toml"@.len());
            }
            }
        }
        assert(!seq!["py"@, "pyi"@].contains("toml"@)) by {
            assert forall|q: int| 0 <= q < seq!["py"@, "pyi"@].len() implies seq!["py"@, "pyi"@][q] != "toml"@ by {
            if q == 0 {
                assert(seq!["py"@, "pyi"@][0] == "py"@);
                reveal_strlit("py");
                reveal_strlit("toml");
                assert("py"@.len() != "toml"@.len());
            }
            if q == 1 {
                assert(seq!["py"@, "pyi"@][1] == "pyi"@);
                reveal_strlit("pyi");
                reveal_strlit("toml");
                assert("pyi"@.len() != "toml"@.len());
            }
            }
        }
        assert(!seq!["go"@].contains("toml"@)) by {
            assert forall|q: int| 0 <= q < seq!["go"@].len() implies seq!["go"@][q] != "toml"@ by {
            if q == 0 {
                assert(seq!["go"@][0] == "go"@);
                reveal_strlit("go");
                reveal_strlit("toml");
                assert("go"@.len() != "toml"@.len());
            }
            }
        }
        assert(!seq!["java"@].contains("toml"@)) by {
            assert forall|q: int| 0 <= q < seq!["java"@].len() implies seq!["java"@][q] != "toml"@ by {
            if q == 0 {
                assert(seq!["java"@][0] == "java"@);
                reveal_strlit("java");
                reveal_strlit("toml");
                assert("java"@[0] != "toml"@[0]);
            }
            }
        }
        assert(!seq!["cs"@].contains("toml"@)) by {
            assert forall|q: int| 0 <= q < seq!["cs"@].len() implies seq!["cs"@][q] != "toml"@ by {
            if q == 0 {
                assert(seq!["cs"@][0] == "cs"@);
                reveal_strlit("cs");
                reveal_strlit("toml");
                assert("cs"@.len() != "toml"@.len());
            }
            }
        }
        assert(!seq!["c"@, "h"@].contains("toml"@)) by {
            assert forall|q: int| 0 <= q < seq!["c"@, "h"@].len() implies seq!["c"@, "h"@][q] != "toml"@ by {
            if q == 0 {
                assert(seq!["c"@, "h"@][0] == "c"@);
                reveal_strlit("c");
                reveal_strlit("toml");
                assert("c"@.len() != "toml"@.len());
            }
            if q == 1 {
                assert(seq!["c"@, "h"@][1] == "h"@);
                reveal_strlit("h");
                reveal_strlit("toml");
                assert("h"@.len() != "toml"@.len());
            }
            }
        }
        assert(!seq!["cpp"@, "cc"@, "cxx"@, "hpp"@, "hh"@, "hxx"@, "cppm"@].contains("toml"@)) by {
            assert forall|q: int| 0 <= q < seq!["cpp"@, "cc"@, "cxx"@, "hpp"@, "hh"@, "hxx"@, "cppm"@].len() implies seq!["cpp"@, "cc"@, "cxx"@, "hpp"@, "hh"@, "hxx"@, "cppm"@][q] != "toml"@ by {
            if q == 0 {
                assert(seq!["cpp"@, "cc"@, "cxx"@, "hpp"@, "hh"@, "hxx"@, "cppm"@][0] == "cpp"@);
                reveal_strlit("cpp");
                reveal_strlit("toml");
                assert("cpp"@.len() != "toml"@.len());
            }
            if q == 1 {
                assert(seq!["cpp"@, "cc"@, "cxx"@, "hpp"@, "hh"@, "hxx"@, "cppm"@][1] == "cc"@);
                reveal_strlit("cc");
                reveal_strlit("toml");
                assert("cc"@.len() != "toml"@.len());
            }
            if q == 2 {
                assert(seq!["cpp"@, "cc"@, "cxx"@, "hpp"@, "hh"@, "hxx"@, "cppm"@][2] == "cxx"@);
                reveal_strlit("cxx");
                reveal_strlit("toml");
                assert("cxx"@.len() != "toml"@.len());
            }
            if q == 3 {
                assert(seq!["cpp"@, "cc"@, "cxx"@, "hpp"@, "hh"@, "hxx"@, "cppm"@][3] == "hpp"@);
                reveal_strlit("hpp");
                reveal_strlit("toml");
                assert("hpp"@.len() != "toml"@.len());
            }
            if q == 4 {
                assert(seq!["cpp"@, "cc"@, "cxx"@, "hpp"@, "hh"@, "hxx"@, "cppm"@][4] == "hh"@);
                reveal_strlit("hh");
                reveal_strlit("toml");
                assert("hh"@.len() != "toml"@.len());
            }
            if q == 5 {
                assert(seq!["cpp"@, "cc"@, "cxx"@, "hpp"@, "hh"@, "hxx"@, "cppm"@][5] == "hxx"@);
                reveal_strlit("hxx");
                reveal_strlit("toml");
                assert("hxx"@.len() != "toml"@.len());
            }
            if q == 6 {
                assert(seq!["cpp"@, "cc"@, "cxx"@, "hpp"@, "hh"@, "hxx"@, "cppm"@][6] == "cppm"@);
                reveal_strlit("cppm");
                reveal_strlit("toml");
                assert("cppm"@[0] != "toml"@[0]);
            }
            }
        }
        assert(!seq!["json"@, "jsonc"@, "json5"@].contains("toml"@)) by {
            assert forall|q: int| 0 <= q < seq!["json"@, "jsonc"@, "json5"@].len() implies seq!["json"@, "jsonc"@, "json5"@][q] != "toml"@ by {
            if q == 0 {
                assert(seq!["json"@, "jsonc"@, "json5"@][0] == "json"@);
                reveal_strlit("json");
                reveal_strlit("toml");
                assert("json"@[0] != "toml"@[0]);
            }
            if q == 1 {
                assert(seq!["json"@, "jsonc"@, "json5"@][1] == "jsonc"@);
                reveal_strlit("jsonc");
                reveal_strlit("toml");
                assert("jsonc"@.len() != "toml"@.len());
            }
            if q == 2 {
                assert(seq!["json"@, "jsonc"@, "json5"@][2] == "json5"@);
                reveal_strlit("json5");
                reveal_strlit("toml");
                assert("json5"@.len() != "toml"@.len());
            }
            }
        }
        assert(!seq!["yaml"@, "yml"@].contains("toml"@)) by {
            assert forall|q: int| 0 <= q < seq!["yaml"@, "yml"@].len() implies seq!["yaml"@, "yml"@][q] != "toml"@ by {
            if q == 0 {
                assert(seq!["yaml"@, "yml"@][0] == "yaml"@);
                reveal_strlit("yaml");
                reveal_strlit("toml");
                assert("yaml"@[0] != "toml"@[0]);
            }
            if q == 1 {
                assert(seq!["yaml"@, "yml"@][1] == "yml"@);
                reveal_strlit("yml");
                reveal_strlit("toml");
                assert("yml"@.len() != "toml"@.len());
            }
            }
        }
    }
    assert(language_of_extension("tml"@) == Some(Language::Toml)) by {
        assert(seq!["toml"@, "tml"@][1] == "tml"@);
        assert(!seq!["rs"@].contains("tml"@)) by {
            assert forall|q: int| 0 <= q < seq!["rs"@].len() implies seq!["rs"@][q] != "tml"@ by {
            if q == 0 {
                assert(seq!["rs"@][0] == "rs"@);
                reveal_strlit("rs");
                reveal_strlit("tml");
                assert("rs"@.len() != "tml"@.len());
            }
            }
        }
        assert(!seq!["ts"@, "tsx"@, "mts"@, "cts"@].contains("tml"@)) by {
            assert forall|q: int| 0 <= q < seq!["ts"@, "tsx"@, "mts"@, "cts"@].len() implies seq!["ts"@, "tsx"@, "mts"@, "cts"@][q] != "tml"@ by {
            if q == 0 {
                assert(seq!["ts"@, "tsx"@, "mts"@, "cts"@][0] == "ts"@);
                reveal_strlit("ts");
                reveal_strlit("tml");
                assert("ts"@.len() != "tml"@.len());
            }
            if q == 1 {
                assert(seq!["ts"@, "tsx"@, "mts"@, "cts"@][1] == "tsx"@);
                reveal_strlit("tsx");
                reveal_strlit("tml");
                assert("tsx"@[1] != "tml"@[1]);
            }
            if q == 2 {
                assert(seq!["ts"@, "tsx"@, "mts"@, "cts"@][2] == "mts"@);
                reveal_strlit("mts");
                reveal_strlit("tml");
                assert("mts"@[0] != "tml"@[0]);
            }
            if q == 3 {
                assert(seq!["ts"@, "tsx"@, "mts"@, "cts"@][3] == "cts"@);
                reveal_strlit("cts");
                reveal_strlit("tml");
                assert("cts"@[0] != "tml"@[0]);
            }
            }
        }
        assert(!seq!["js"@, "jsx"@, "mjs"@, "cjs"@].contains("tml"@)) by {
            assert forall|q: int| 0 <= q < seq!["js"@, "jsx"@, "mjs"@, "cjs"@].len() implies seq!["js"@, "jsx"@, "mjs"@, "cjs"@][q] != "tml"@ by {
            if q == 0 {
                assert(seq!["js"@, "jsx"@, "mjs"@, "cjs"@][0] == "js"@);
                reveal_strlit("js");
                reveal_strlit("tml");
                assert("js"@.len() != "tml"@.len());
            }
            if q == 1 {
                assert(seq!["js"@, "jsx"@, "mjs"@, "cjs"@][1] == "jsx"@);
                reveal_strlit("jsx");
                reveal_strlit("tml");
                assert("jsx"@[0] != "tml"@[0]);
            }
            if q == 2 {
                assert(seq!["js"@, "jsx"@, "mjs"@, "cjs"@][2] == "mjs"@);
                reveal_strlit("mjs");
                reveal_strlit("tml");
                assert("mjs"@[0] != "tml"@[0]);
            }
            if q == 3 {
                assert(seq!["js"@, "jsx"@, "mjs"@, "cjs"@][3] == "cjs"@);
                reveal_strlit("cjs");
                reveal_strlit("tml");
                assert("cjs"@[0] != "tml"@[0]);
            }
            }
        }
        assert(!seq!["py"@, "pyi"@].contains("tml"@)) by {
            assert forall|q: int| 0 <= q < seq!["py"@, "pyi"@].len() implies seq!["py"@, "pyi"@][q] != "tml"@ by {
            if q == 0 {
                assert(seq!["py"@, "pyi"@][0] == "py"@);
                reveal_strlit("py");
                reveal_strlit("tml");
                assert("py"@.len() != "tml"@.len());
            }
            if q == 1 {
                assert(seq!["py"@, "pyi"@][1] == "pyi"@);
                reveal_strlit("pyi");
                reveal_strlit("tml");
                assert("pyi"@[0] != "tml"@[0]);
            }
            }
        }
        assert(!seq!["go"@].contains("tml"@)) by {
            assert forall|q: int| 0 <= q < seq!["go"@].len() implies seq!["go"@][q] != "tml"@ by {
            if q == 0 {
                assert(seq!["go"@][0] == "go"@);
                reveal_strlit("go");
                reveal_strlit("tml");
                assert("go"@.len() != "tml"@.len());
            }
            }
        }
        assert(!seq!["java"@].contains("tml"@)) by {
            assert forall|q: int| 0 <= q < seq!["java"@].len() implies seq!["java"@][q] != "tml"@ by {
            if q == 0 {
                assert(seq!["java"@][0] == "java"@);
                reveal_strlit("java");
                reveal_strlit("tml");
                assert("java"@.len() != "tml"@.len());
            }
            }
        }
        assert(!seq!["cs"@].contains("tml"@)) by {
            assert forall|q: int| 0 <= q < seq!["cs"@].len() implies seq!["cs"@][q] != "tml"@ by {
            if q == 0 {
                assert(seq!["cs"@][0] == "cs"@);
                reveal_strlit("cs");
                reveal_strlit("tml");
                assert("cs"@.len() != "tml"@.len());
            }
            }
        }
        assert(!seq!["c"@, "h"@].contains("tml"@)) by {
            assert forall|q: int| 0 <= q < seq!["c"@, "h"@].len() implies seq!["c"@, "h"@][q] != "tml"@ by {
            if q == 0 {
                assert(seq!["c"@, "h"@][0] == "c"@);
                reveal_strlit("c");
                reveal_strlit("tml");
                assert("c"@.len() != "tml"@.len());
            }
            if q == 1 {
                assert(seq!["c"@, "h"@][1] == "h"@);
                reveal_strlit("h");
                reveal_strlit("tml");
                assert("h"@.len() != "tml"@.len());
            }
            }
        }
        assert(!seq!["cpp"@, "cc"@, "cxx"@, "hpp"@, "hh"@, "hxx"@, "cppm"@].contains("tml"@)) by {
            assert forall|q: int| 0 <= q < seq!["cpp"@, "cc"@, "cxx"@, "hpp"@, "hh"@, "hxx"@, "cppm"@].len() implies seq!["cpp"@, "cc"@, "cxx"@, "hpp"@, "hh"@, "hxx"@, "cppm"@][q] != "tml"@ by {
            if q == 0 {
                assert(seq!["cpp"@, "cc"@, "cxx"@, "hpp"@, "hh"@, "hxx"@, "cppm"@][0] == "cpp"@);
                reveal_strlit("cpp");
                reveal_strlit("tml");
                assert("cpp"@[0] != "tml"@[0]);
            }
            if q == 1 {
                assert(seq!["cpp"@, "cc"@, "cxx"@, "hpp"@, "hh"@, "hxx"@, "cppm"@][1] == "cc"@);
                reveal_strlit("cc");
                reveal_strlit("tml");
                assert("cc"@.len() != "tml"@.len());
            }
            if q == 2 {
                assert(seq!["cpp"@, "cc"@, "cxx"@, "hpp"@, "hh"@, "hxx"@, "cppm"@][2] == "cxx"@);
                reveal_strlit("cxx");
                reveal_strlit("tml");
                assert("cxx"@[0] != "tml"@[0]);
            }
            if q == 3 {
                assert(seq!["cpp"@, "cc"@, "cxx"@, "hpp"@, "hh"@, "hxx"@, "cppm"@][3] == "hpp"@);
                reveal_strlit("hpp");
                reveal_strlit("tml");
                assert("hpp"@[0] != "tml"@[0]);
            }
            if q == 4 {
                assert(seq!["cpp"@, "cc"@, "cxx"@, "hpp"@, "hh"@, "hxx"@, "cppm"@][4] == "hh"@);
                reveal_strlit("hh");
                reveal_strlit("tml");
                assert("hh"@.len() != "tml"@.len());
            }
            if q == 5 {
                assert(seq!["cpp"@, "cc"@, "cxx"@, "hpp"@, "hh"@, "hxx"@, "cppm"@][5] == "hxx"@);
                reveal_strlit("hxx");
                reveal_strlit("tml");
                assert("hxx"@[0] != "tml"@[0]);
            }
            if q == 6 {
                assert(seq!["cpp"@, "cc"@, "cxx"@, "hpp"@, "hh"@, "hxx"@, "cppm"@][6] == "cppm"@);
                reveal_strlit("cppm");
                reveal_strlit("tml");
                assert("cppm"@.len() != "tml"@.len());
            }
            }
        }
        assert(!seq!["json"@, "jsonc"@, "json5"@].contains("tml"@)) by {
            assert forall|q: int| 0 <= q < seq!["json"@, "jsonc"@, "json5"@].len() implies seq!["json"@, "jsonc"@, "json5"@][q] != "tml"@ by {
            if q == 0 {
                assert(seq!["json"@, "jsonc"@, "json5"@][0] == "json"@);
                reveal_strlit("json");
                reveal_strlit("tml");
                assert("json"@.len() != "tml"@.len());
            }
            if q == 1 {
                assert(seq!["json"@, "jsonc"@, "json5"@][1] == "jsonc"@);
                reveal_strlit("jsonc");
                reveal_strlit("tml");
                assert("jsonc"@.len() != "tml"@.len());
            }
            if q == 2 {
                assert(seq!["json"@, "jsonc"@, "json5"@][2] == "json5"@);
                reveal_strlit("json5");
                reveal_strlit("tml");
                assert("json5"@.len() != "tml"@.len());
            }
            }
        }
        assert(!seq!["yaml"@, "yml"@].contains("tml"@)) by {
            assert forall|q: int| 0 <= q < seq!["yaml"@, "yml"@].len() implies seq!["yaml"@, "yml"@][q] != "tml"@ by {
            if q == 0 {
                assert(seq!["yaml"@, "yml"@][0] == "yaml"@);
                reveal_strlit("yaml");
                reveal_strlit("tml");
                assert("yaml"@.len() != "tml"@.len());
            }
            if q == 1 {
                assert(seq!["yaml"@, "yml"@][1] == "yml"@);
                reveal_strlit("yml");
                reveal_strlit("tml");
                assert("yml"@[0] != "tml"@[0]);
            }
            }
        }
    }
    assert(language_of_extension("md"@) == Some(Language::Markdown)) by {
        assert(seq!["md"@, "markdown"@][0] == "md"@);
        assert(!seq!["rs"@].contains("md"@)) by {
            assert forall|q: int| 0 <= q < seq!["rs"@].len() implies seq!["rs"@][q] != "md"@ by {
            if q == 0 {
                assert(seq!["rs"@][0] == "rs"@);
                reveal_strlit("rs");
                reveal_strlit("md");
                assert("rs"@[0] != "md"@[0]);
            }
            }
        }
        assert(!seq!["ts"@, "tsx"@, "mts"@, "cts"@].contains("md"@)) by {
            assert forall|q: int| 0 <= q < seq!["ts"@, "tsx"@, "mts"@, "cts"@].len() implies seq!["ts"@, "tsx"@, "mts"@, "cts"@][q] != "md"@ by {
            if q == 0 {
                assert(seq!["ts"@, "tsx"@, "mts"@, "cts"@][0] == "ts"@);
                reveal_strlit("ts");
                reveal_strlit("md");
                assert("ts"@[0] != "md"@[0]);
            }
            if q == 1 {
                assert(seq!["ts"@, "tsx"@, "mts"@, "cts"@][1] == "tsx"@);
                reveal_strlit("tsx");
                reveal_strlit("md");
                assert("tsx"@.len() != "md"@.len());
            }
            if q == 2 {
                assert(seq!["ts"@, "tsx"@, "mts"@, "cts"@][2] == "mts"@);
                reveal_strlit("mts");
                reveal_strlit("md");
                assert("mts"@.len() != "md"@.len());
            }
            if q == 3 {
                assert(seq!["ts"@, "tsx"@, "mts"@, "cts"@][3] == "cts"@);
                reveal_strlit("cts");
                reveal_strlit("md");
                assert("cts"@.len() != "md"@.len());
            }
            }
        }
        assert(!seq!["js"@, "jsx"@, "mjs"@, "cjs"@].contains("md"@)) by {
            assert forall|q: int| 0 <= q < seq!["js"@, "jsx"@, "mjs"@, "cjs"@].len() implies seq!["js"@, "jsx"@, "mjs"@, "cjs"@][q] != "md"@ by {
            if q == 0 {
                assert(seq!["js"@, "jsx"@, "mjs"@, "cjs"@][0] == "js"@);
                reveal_strlit("js");
                reveal_strlit("md");
                assert("js"@[0] != "md"@[0]);
            }
            if q == 1 {
                assert(seq!["js"@, "jsx"@, "mjs"@, "cjs"@][1] == "jsx"@);
                reveal_strlit("jsx");
                reveal_strlit("md");
                assert("jsx"@.len() != "md"@.len());
            }
            if q == 2 {
                assert(seq!["js"@, "jsx"@, "mjs"@, "cjs"@][2] == "mjs"@);
                reveal_strlit("mjs");
                reveal_strlit("md");
                assert("mjs"@.len() != "md"@.len());
            }
            if q == 3 {
                assert(seq!["js"@, "jsx"@, "mjs"@, "cjs"@][3] == "cjs"@);
                reveal_strlit("cjs");
                reveal_strlit("md");
                assert("cjs"@.len() != "md"@.len());
            }
            }
        }
        assert(!seq!["py"@, "pyi"@].contains("md"@)) by {
            assert forall|q: int| 0 <= q < seq!["py"@, "pyi"@].len() implies seq!["py"@, "pyi"@][q] != "md"@ by {
            if q == 0 {
                assert(seq!["py"@, "pyi"@][0] == "py"@);
                reveal_strlit("py");
                reveal_strlit("md");
                assert("py"@[0] != "md"@[0]);
            }
            if q == 1 {
                assert(seq!["py"@, "pyi"@][1] == "pyi"@);
                reveal_strlit("pyi");
                reveal_strlit("md");
                assert("pyi"@.len() != "md"@.len());
            }
            }
        }
        assert(!seq!["go"@].contains("md"@)) by {
            assert forall|q: int| 0 <= q < seq!["go"@].len() implies seq!["go"@][q] != "md"@ by {
            if q == 0 {
                assert(seq!["go"@][0] == "go"@);
                reveal_strlit("go");
                reveal_strlit("md");
                assert("go"@[0] != "md"@[0]);
            }
            }
        }
        assert(!seq!["java"@].contains("md"@)) by {
            assert forall|q: int| 0 <= q < seq!["java"@].len() implies seq!["java"@][q] != "md"@ by {
            if q == 0 {
                assert(seq!["java"@][0] == "java"@);
                reveal_strlit("java");
                reveal_strlit("md");
                assert("java"@.len() != "md"@.len());
            }
            }
        }
        assert(!seq!["cs"@].contains("md"@)) by {
            assert forall|q: int| 0 <= q < seq!["cs"@].len() implies seq!["cs"@][q] != "md"@ by {
            if q == 0 {
                assert(seq!["cs"@][0] == "cs"@);
                reveal_strlit("cs");
                reveal_strlit("md");
                assert("cs"@[0] != "md"@[0]);
            }
            }
        }
        assert(!seq!["c"@, "h"@].contains("md"@)) by {
            assert forall|q: int| 0 <= q < seq!["c"@, "h"@].len() implies seq!["c"@, "h"@][q] != "md"@ by {
            if q == 0 {
                assert(seq!["c"@, "h"@][0] == "c"@);
                reveal_strlit("c");
                reveal_strlit("md");
                assert("c"@.len() != "md"@.len());
            }
            if q == 1 {
                assert(seq!["c"@, "h"@][1] == "h"@);
                reveal_strlit("h");
                reveal_strlit("md");
                assert("h"@.len() != "md"@.len());
            }
            }
        }
        assert(!seq!["cpp"@, "cc"@, "cxx"@, "hpp"@, "hh"@, "hxx"@, "cppm"@].contains("md"@)) by {
            assert forall|q: int| 0 <= q < seq!["cpp"@, "cc"@, "cxx"@, "hpp"@, "hh"@, "hxx"@, "cppm"@].len() implies seq!["cpp"@, "cc"@, "cxx"@, "hpp"@, "hh"@, "hxx"@, "cppm"@][q] != "md"@ by {
            if q == 0 {
                assert(seq!["cpp"@, "cc"@, "cxx"@, "hpp"@, "hh"@, "hxx"@, "cppm"@][0] == "cpp"@);
                reveal_strlit("cpp");
                reveal_strlit("md");
                assert("cpp"@.len() != "md"@.len());
            }
            if q == 1 {
                assert(seq!["cpp"@, "cc"@, "cxx"@, "hpp"@, "hh"@, "hxx"@, "cppm"@][1] == "cc"@);
                reveal_strlit("cc");
                reveal_strlit("md");
                assert("cc"@[0] != "md"@[0]);
            }
            if q == 2 {
                assert(seq!["cpp"@, "cc"@, "cxx"@, "hpp"@, "hh"@, "hxx"@, "cppm"@][2] == "cxx"@);
                reveal_strlit("cxx");
                reveal_strlit("md");
                assert("cxx"@.len() != "md"@.len());
            }
            if q == 3 {
                assert(seq!["cpp"@, "cc"@, "cxx"@, "hpp"@, "hh"@, "hxx"@, "cppm"@][3] == "hpp"@);
                reveal_strlit("hpp");
                reveal_strlit("md");
                assert("hpp"@.len() != "md"@.len());
            }
            if q == 4 {
                assert(seq!["cpp"@, "cc"@, "cxx"@, "hpp"@, "hh"@, "hxx"@, "cppm"@][4] == "hh"@);
                reveal_strlit("hh");
                reveal_strlit("md");
                assert("hh"@[0] != "md"@[0]);
            }
            if q == 5 {
                assert(seq!["cpp"@, "cc"@, "cxx"@, "hpp"@, "hh"@, "hxx"@, "cppm"@][5] == "hxx"@);
                reveal_strlit("hxx");
                reveal_strlit("md");
                assert("hxx"@.len() != "md"@.len());
            }
            if q == 6 {
                assert(seq!["cpp"@, "cc"@, "cxx"@, "hpp"@, "hh"@, "hxx"@, "cppm"@][6] == "cppm"@);
                reveal_strlit("cppm");
                reveal_strlit("md");
                assert("cppm"@.len() != "md"@.len());
            }
            }
        }
        assert(!seq!["json"@, "jsonc"@, "json5"@].contains("md"@)) by {
            assert forall|q: int| 0 <= q < seq!["json"@, "jsonc"@, "json5"@].len() implies seq!["json"@, "jsonc"@, "json5"@][q] != "md"@ by {
            if q == 0 {
                assert(seq!["json"@, "jsonc"@, "json5"@][0] == "json"@);
                reveal_strlit("json");
                reveal_strlit("md");
                assert("json"@.len() != "md"@.len());
            }
            if q == 1 {
                assert(seq!["json"@, "jsonc"@, "json5"@][1] == "jsonc"@);
                reveal_strlit("jsonc");
                reveal_strlit("md");
                assert("jsonc"@.len() != "md"@.len());
            }
            if q == 2 {
                assert(seq!["json"@, "jsonc"@, "json5"@][2] == "json5"@);
                reveal_strlit("json5");
                reveal_strlit("md");
                assert("json5"@.len() != "md"@.len());
            }
            }
        }
        assert(!seq!["yaml"@, "yml"@].contains("md"@)) by {
            assert forall|q: int| 0 <= q < seq!["yaml"@, "yml"@].len() implies seq!["yaml"@, "yml"@][q] != "md"@ by {
            if q == 0 {
                assert(seq!["yaml"@, "yml"@][0] == "yaml"@);
                reveal_strlit("yaml");
                reveal_strlit("md");
                assert("yaml"@.len() != "md"@.len());
            }
            if q == 1 {
                assert(seq!["yaml"@, "yml"@][1] == "yml"@);
                reveal_strlit("yml");
                reveal_strlit("md");
                assert("yml"@.len() != "md"@.len());
            }
            }
        }
        assert(!seq!["toml"@, "tml"@].contains("md"@)) by {
            assert forall|q: int| 0 <= q < seq!["toml"@, "tml"@].len() implies seq!["toml"@, "tml"@][q] != "md"@ by {
            if q == 0 {
                assert(seq!["toml"@, "tml"@][0] == "toml"@);
                reveal_strlit("toml");
                reveal_strlit("md");
                assert("toml"@.len() != "md"@.len());
            }
            if q == 1 {
                assert(seq!["toml"@, "tml"@][1] == "tml"@);
                reveal_strlit("tml");
                reveal_strlit("md");
                assert("tml"@.len() != "md"@.len());
            }
            }
        }
    }
    assert(language_of_extension("markdown"@) == Some(Language::Markdown)) by {
        assert(seq!["md"@, "markdown"@][1] == "markdown"@);
        assert(!seq!["rs"@].contains("markdown"@)) by {
            assert forall|q: int| 0 <= q < seq!["rs"@].len() implies seq!["rs"@][q] != "markdown"@ by {
            if q == 0 {
                assert(seq!["rs"@][0] == "rs"@);
                reveal_strlit("rs");
                reveal_strlit("markdown");
                assert("rs"@.len() != "markdown"@.len());
            }
            }
        }
        assert(!seq!["ts"@, "tsx"@, "mts"@, "cts"@].contains("markdown"@)) by {
            assert forall|q: int| 0 <= q < seq!["ts"@, "tsx"@, "mts"@, "cts"@].len() implies seq!["ts"@, "tsx"@, "mts"@, "cts"@][q] != "markdown"@ by {
            if q == 0 {
                assert(seq!["ts"@, "tsx"@, "mts"@, "cts"@][0] == "ts"@);
                reveal_strlit("ts");
                reveal_strlit("markdown");
                assert("ts"@.len() != "markdown"@.len());
            }
            if q == 1 {
                assert(seq!["ts"@, "tsx"@, "mts"@, "cts"@][1] == "tsx"@);
                reveal_strlit("tsx");
                reveal_strlit("markdown");
                assert("tsx"@.len() != "markdown"@.len());
            }
            if q == 2 {
                assert(seq!["ts"@, "tsx"@, "mts"@, "cts"@][2] == "mts"@);
                reveal_strlit("mts");
                reveal_strlit("markdown");
                assert("mts"@.len() != "markdown"@.len());
            }
            if q == 3 {
                assert(seq!["ts"@, "tsx"@, "mts"@, "cts"@][3] == "cts"@);
                reveal_strlit("cts");
                reveal_strlit("markdown");
                assert("cts"@.len() != "markdown"@.len());
            }
            }
        }
        assert(!seq!["js"@, "jsx"@, "mjs"@, "cjs"@].contains("markdown"@)) by {
            assert forall|q: int| 0 <= q < seq!["js"@, "jsx"@, "mjs"@, "cjs"@].len() implies seq!["js"@, "jsx"@, "mjs"@, "cjs"@][q] != "markdown"@ by {
            if q == 0 {
                assert(seq!["js"@, "jsx"@, "mjs"@, "cjs"@][0] == "js"@);
                reveal_strlit("js");
                reveal_strlit("markdown");
                assert("js"@.len() != "markdown"@.len());
            }
            if q == 1 {
                assert(seq!["js"@, "jsx"@, "mjs"@, "cjs"@][1] == "jsx"@);
                reveal_strlit("jsx");
                reveal_strlit("markdown");
                assert("jsx"@.len() != "markdown"@.len());
            }
            if q == 2 {
                assert(seq!["js"@, "jsx"@, "mjs"@, "cjs"@][2] == "mjs"@);
                reveal_strlit("mjs");
                reveal_strlit("markdown");
                assert("mjs"@.len() != "markdown"@.len());
            }
            if q == 3 {
                assert(seq!["js"@, "jsx"@, "mjs"@, "cjs"@][3] == "cjs"@);
                reveal_strlit("cjs");
                reveal_strlit("markdown");
                assert("cjs"@.len() != "markdown"@.len());
            }
            }
        }
        assert(!seq!["py"@, "pyi"@].contains("markdown"@)) by {
            assert forall|q: int| 0 <= q < seq!["py"@, "pyi"@].len() implies seq!["py"@, "pyi"@][q] != "markdown"@ by {
            if q == 0 {
                assert(seq!["py"@, "pyi"@][0] == "py"@);
                reveal_strlit("py");
                reveal_strlit("markdown");
                assert("py"@.len() != "markdown"@.len());
            }
            if q == 1 {
                assert(seq!["py"@, "pyi"@][1] == "pyi"@);
                reveal_strlit("pyi");
                reveal_strlit("markdown");
                assert("pyi"@.len() != "markdown"@.len());
            }
            }
        }
        assert(!seq!["go"@].contains("markdown"@)) by {
            assert forall|q: int| 0 <= q < seq!["go"@].len() implies seq!["go"@][q] != "markdown"@ by {
            if q == 0 {
                assert(seq!["go"@][0] == "go"@);
                reveal_strlit("go");
                reveal_strlit("markdown");
                assert("go"@.len() != "markdown"@.len());
            }
            }
        }
        assert(!seq!["java"@].contains("markdown"@)) by {
            assert forall|q: int| 0 <= q < seq!["java"@].len() implies seq!["java"@][q] != "markdown"@ by {
            if q == 0 {
                assert(seq!["java"@][0] == "java"@);
                reveal_strlit("java");
                reveal_strlit("markdown");
                assert("java"@.len() != "markdown"@.len());
            }
            }
        }
        assert(!seq!["cs"@].contains("markdown"@)) by {
            assert forall|q: int| 0 <= q < seq!["cs"@].len() implies seq!["cs"@][q] != "markdown"@ by {
            if q == 0 {
                assert(seq!["cs"@][0] == "cs"@);
                reveal_strlit("cs");
                reveal_strlit("markdown");
                assert("cs"@.len() != "markdown"@.len());
            }
            }
        }
        assert(!seq!["c"@, "h"@].contains("markdown"@)) by {
            assert forall|q: int| 0 <= q < seq!["c"@, "h"@].len() implies seq!["c"@, "h"@][q] != "markdown"@ by {
            if q == 0 {
                assert(seq!["c"@, "h"@][0] == "c"@);
                reveal_strlit("c");
                reveal_strlit("markdown");
                assert("c"@.len() != "markdown"@.len());
            }
            if q == 1 {
                assert(seq!["c"@, "h"@][1] == "h"@);
                reveal_strlit("h");
                reveal_strlit("markdown");
                assert("h"@.len() != "markdown"@.len());
            }
            }
        }
        assert(!seq!["cpp"@, "cc"@, "cxx"@, "hpp"@, "hh"@, "hxx"@, "cppm"@].contains("markdown"@)) by {
            assert forall|q: int| 0 <= q < seq!["cpp"@, "cc"@, "cxx"@, "hpp"@, "hh"@, "hxx"@, "cppm"@].len() implies seq!["cpp"@, "cc"@, "cxx"@, "hpp"@, "hh"@, "hxx"@, "cppm"@][q] != "markdown"@ by {
            if q == 0 {
                assert(seq!["cpp"@, "cc"@, "cxx"@, "hpp"@, "hh"@, "hxx"@, "cppm"@][0] == "cpp"@);
                reveal_strlit("cpp");
                reveal_strlit("markdown");
                assert("cpp"@.len() != "markdown"@.len());
            }
            if q == 1 {
                assert(seq!["cpp"@, "cc"@, "cxx"@, "hpp"@, "hh"@, "hxx"@, "cppm"@][1] == "cc"@);
                reveal_strlit("cc");
                reveal_strlit("markdown");
                assert("cc"@.len() != "markdown"@.len());
            }
            if q == 2 {
                assert(seq!["cpp"@, "cc"@, "cxx"@, "hpp"@, "hh"@, "hxx"@, "cppm"@][2] == "cxx"@);
                reveal_strlit("cxx");
                reveal_strlit("markdown");
                assert("cxx"@.len() != "markdown"@.len());
            }
            if q == 3 {
                assert(seq!["cpp"@, "cc"@, "cxx"@, "hpp"@, "hh"@, "hxx"@, "cppm"@][3] == "hpp"@);
                reveal_strlit("hpp");
                reveal_strlit("markdown");
                assert("hpp"@.len() != "markdown"@.len());
            }
            if q == 4 {
                assert(seq!["cpp"@, "cc"@, "cxx"@, "hpp"@, "hh"@, "hxx"@, "cppm"@][4] == "hh"@);
                reveal_strlit("hh");
                reveal_strlit("markdown");
                assert("hh"@.len() != "markdown"@.len());
            }
            if q == 5 {
                assert(seq!["cpp"@, "cc"@, "cxx"@, "hpp"@, "hh"@, "hxx"@, "cppm"@][5] == "hxx"@);
                reveal_strlit("hxx");
                reveal_strlit("markdown");
                assert("hxx"@.len() != "markdown"@.len());
            }
            if q == 6 {
                assert(seq!["cpp"@, "cc"@, "cxx"@, "hpp"@, "hh"@, "hxx"@, "cppm"@][6] == "cppm"@);
                reveal_strlit("cppm");
                reveal_strlit("markdown");
                assert("cppm"@.len() != "markdown"@.len());
            }
            }
        }
        assert(!seq!["json"@, "jsonc"@, "json5"@].contains("markdown"@)) by {
            assert forall|q: int| 0 <= q < seq!["json"@, "jsonc"@, "json5"@].len() implies seq!["json"@, "jsonc"@, "json5"@][q] != "markdown"@ by {
            if q == 0 {
                assert(seq!["json"@, "jsonc"@, "json5"@][0] == "json"@);
                reveal_strlit("json");
                reveal_strlit("markdown");
                assert("json"@.len() != "markdown"@.len());
            }
            if q == 1 {
                assert(seq!["json"@, "jsonc"@, "json5"@][1] == "jsonc"@);
                reveal_strlit("jsonc");
                reveal_strlit("markdown");
                assert("jsonc"@.len() != "markdown"@.len());
            }
            if q == 2 {
                assert(seq!["json"@, "jsonc"@, "json5"@][2] == "json5"@);
                reveal_strlit("json5");
                reveal_strlit("markdown");
                assert("json5"@.len() != "markdown"@.len());
            }
            }
        }
        assert(!seq!["yaml"@, "yml"@].contains("markdown"@)) by {
            assert forall|q: int| 0 <= q < seq!["yaml"@, "yml"@].len() implies seq!["yaml"@, "yml"@][q] != "markdown"@ by {
            if q == 0 {
                assert(seq!["yaml"@, "yml"@][0] == "yaml"@);
                reveal_strlit("yaml");
                reveal_strlit("markdown");
                assert("yaml"@.len() != "markdown"@.len());
            }
            if q == 1 {
                assert(seq!["yaml"@, "yml"@][1] == "yml"@);
                reveal_strlit("yml");
                reveal_strlit("markdown");
                assert("yml"@.len() != "markdown"@.len());
            }
            }
        }
        assert(!seq!["toml"@, "tml"@].contains("markdown"@)) by {
            assert forall|q: int| 0 <= q < seq!["toml"@, "tml"@].len() implies seq!["toml"@, "tml"@][q] != "markdown"@ by {
            if q == 0 {
                assert(seq!["toml"@, "tml"@][0] == "toml"@);
                reveal_strlit("toml");
                reveal_strlit("markdown");
                assert("toml"@.len() != "markdown"@.len());
            }
            if q == 1 {
                assert(seq!["toml"@, "tml"@][1] == "tml"@);
                reveal_strlit("tml");
                reveal_strlit("markdown");
                assert("tml"@.len() != "markdown"@.len());
            }
            }
        }
    }
}


/// A file whose name has no extension is known by its name: `README`,
/// `CHANGELOG` and `LICENSE` are Markdown, `.prettierrc` is JSON.
pub proof fn law_known_file_names(p: Seq<char>)
    ensures
        (file_name_of(p) == "README"@ || file_name_of(p) == "CHANGELOG"@ || file_name_of(p) == "LICENSE"@)
            ==> language_of_path(p) == Some(Language::Markdown),
        file_name_of(p) == ".prettierrc"@ ==> language_of_path(p) == Some(Language::Json),
{
    if file_name_of(p) == "README"@ {
        let n = file_name_of(p);
        reveal_strlit("README");
        lemma_last_index_of(n, '.');
        assert(last_index_of(n, '.') == -1);
        assert(extension_of(n) is None);
        assert(seq!["README"@, "CHANGELOG"@, "LICENSE"@][0] == "README"@);
        assert(!seq!["tsconfig.json"@, "tsconfig.eslint.json"@].contains("README"@)) by {
            assert forall|q: int| 0 <= q < seq!["tsconfig.json"@, "tsconfig.eslint.json"@].len() implies seq!["tsconfig.json"@, "tsconfig.eslint.json"@][q] != "README"@ by {
            if q == 0 {
                assert(seq!["tsconfig.json"@, "tsconfig.eslint.json"@][0] == "tsconfig.json"@);
                reveal_strlit("tsconfig.json");
                reveal_strlit("README");
                assert("tsconfig.json"@.len() != "README"@.len());
            }
            if q == 1 {
                assert(seq!["tsconfig.json"@, "tsconfig.eslint.json"@][1] == "tsconfig.eslint.json"@);
                reveal_strlit("tsconfig.eslint.json");
                reveal_strlit("README");
                assert("tsconfig.eslint.json"@.len() != "README"@.len());
            }
            }
        }
        assert(!seq!["package.json"@, "package-lock.json"@, ".prettierrc"@].contains("README"@)) by {
            assert forall|q: int| 0 <= q < seq!["package.json"@, "package-lock.json"@, ".prettierrc"@].len() implies seq!["package.json"@, "package-lock.json"@, ".prettierrc"@][q] != "README"@ by {
            if q == 0 {
                assert(seq!["package.json"@, "package-lock.json"@, ".prettierrc"@][0] == "package.json"@);
                reveal_strlit("package.json");
                reveal_strlit("README");
                assert("package.json"@.len() != "README"@.len());
            }
            if q == 1 {
                assert(seq!["package.json"@, "package-lock.json"@, ".prettierrc"@][1] == "package-lock.json"@);
                reveal_strlit("package-lock.json");
                reveal_strlit("README");
                assert("package-lock.json"@.len() != "README"@.len());
            }
            if q == 2 {
                assert(seq!["package.json"@, "package-lock.json"@, ".prettierrc"@][2] == ".prettierrc"@);
                reveal_strlit(".prettierrc");
                reveal_strlit("README");
                assert(".prettierrc"@.len() != "README"@.len());
            }
            }
        }
        assert(!seq!["Cargo.toml"@, "pyproject.toml"@].contains("README"@)) by {
            assert forall|q: int| 0 <= q < seq!["Cargo.toml"@, "pyproject.toml"@].len() implies seq!["Cargo.toml"@, "pyproject.toml"@][q] != "README"@ by {
            if q == 0 {
                assert(seq!["Cargo.toml"@, "pyproject.toml"@][0] == "Cargo.toml"@);
                reveal_strlit("Cargo.toml");
                reveal_strlit("README");
                assert("Cargo.toml"@.len() != "README"@.len());
            }
            if q == 1 {
                assert(seq!["Cargo.toml"@, "pyproject.toml"@][1] == "pyproject.toml"@);
                reveal_strlit("pyproject.toml");
                reveal_strlit("README");
                assert("pyproject.toml"@.len() != "README"@.len());
            }
            }
        }
        assert(language_of_filename(n) == Some(Language::Markdown));
    }
    if file_name_of(p) == "CHANGELOG"@ {
        let n = file_name_of(p);
        reveal_strlit("CHANGELOG");
        lemma_last_index_of(n, '.');
        assert(last_index_of(n, '.') == -1);
        assert(extension_of(n) is None);
        assert(seq!["README"@, "CHANGELOG"@, "LICENSE"@][1] == "CHANGELOG"@);
        assert(!seq!["tsconfig.json"@, "tsconfig.eslint.json"@].contains("CHANGELOG"@)) by {
            assert forall|q: int| 0 <= q < seq!["tsconfig.json"@, "tsconfig.eslint.json"@].len() implies seq!["tsconfig.json"@, "tsconfig.eslint.json"@][q] != "CHANGELOG"@ by {
            if q == 0 {
                assert(seq!["tsconfig.json"@, "tsconfig.eslint.json"@][0] == "tsconfig.json"@);
                reveal_strlit("tsconfig.json");
                reveal_strlit("CHANGELOG");
                assert("tsconfig.json"@.len() != "CHANGELOG"@.len());
            }
            if q == 1 {
                assert(seq!["tsconfig.json"@, "tsconfig.eslint.json"@][1] == "tsconfig.eslint.json"@);
                reveal_strlit("tsconfig.eslint.json");
                reveal_strlit("CHANGELOG");
                assert("tsconfig.eslint.json"@.len() != "CHANGELOG"@.len());
            }
            }
        }
        assert(!seq!["package.json"@, "package-lock.json"@, ".prettierrc"@].contains("CHANGELOG"@)) by {
            assert forall|q: int| 0 <= q < seq!["package.json"@, "package-lock.json"@, ".prettierrc"@].len() implies seq!["package.json"@, "package-lock.json"@, ".prettierrc"@][q] != "CHANGELOG"@ by {
            if q == 0 {
                assert(seq!["package.json"@, "package-lock.json"@, ".prettierrc"@][0] == "package.json"@);
                reveal_strlit("package.json");
                reveal_strlit("CHANGELOG");
                assert("package.json"@.len() != "CHANGELOG"@.len());
            }
            if q == 1 {
                assert(seq!["package.json"@, "package-lock.json"@, ".prettierrc"@][1] == "package-lock.json"@);
                reveal_strlit("package-lock.json");
                reveal_strlit("CHANGELOG");
                assert("package-lock.json"@.len() != "CHANGELOG"@.len());
            }
            if q == 2 {
                assert(seq!["package.json"@, "package-lock.json"@, ".prettierrc"@][2] == ".prettierrc"@);
                reveal_strlit(".prettierrc");
                reveal_strlit("CHANGELOG");
                assert(".prettierrc"@.len() != "CHANGELOG"@.len());
            }
            }
        }
        assert(!seq!["Cargo.toml"@, "pyproject.toml"@].contains("CHANGELOG"@)) by {
            assert forall|q: int| 0 <= q < seq!["Cargo.toml"@, "pyproject.toml"@].len() implies seq!["Cargo.toml"@, "pyproject.toml"@][q] != "CHANGELOG"@ by {
            if q == 0 {
                assert(seq!["Cargo.toml"@, "pyproject.toml"@][0] == "Cargo.toml"@);
                reveal_strlit("Cargo.toml");
                reveal_strlit("CHANGELOG");
                assert("Cargo.toml"@.len() != "CHANGELOG"@.len());
            }
            if q == 1 {
                assert(seq!["Cargo.toml"@, "pyproject.toml"@][1] == "pyproject.toml"@);
                reveal_strlit("pyproject.toml");
                reveal_strlit("CHANGELOG");
                assert("pyproject.toml"@.len() != "CHANGELOG"@.len());
            }
            }
        }
        assert(language_of_filename(n) == Some(Language::Markdown));
    }
    if file_name_of(p) == "LICENSE"@ {
        let n = file_name_of(p);
        reveal_strlit("LICENSE");
        lemma_last_index_of(n, '.');
        assert(last_index_of(n, '.') == -1);
        assert(extension_of(n) is None);
        assert(seq!["README"@, "CHANGELOG"@, "LICENSE"@][2] == "LICENSE"@);
        assert(!seq!["tsconfig.json"@, "tsconfig.eslint.json"@].contains("LICENSE"@)) by {
            assert forall|q: int| 0 <= q < seq!["tsconfig.json"@, "tsconfig.eslint.json"@].len() implies seq!["tsconfig.json"@, "tsconfig.eslint.json"@][q] != "LICENSE"@ by {
            if q == 0 {
                assert(seq!["tsconfig.json"@, "tsconfig.eslint.json"@][0] == "tsconfig.json"@);
                reveal_strlit("tsconfig.json");
                reveal_strlit("LICENSE");
                assert("tsconfig.json"@.len() != "LICENSE"@.len());
            }
            if q == 1 {
                assert(seq!["tsconfig.json"@, "tsconfig.eslint.json"@][1] == "tsconfig.eslint.json"@);
                reveal_strlit("tsconfig.eslint.json");
                reveal_strlit("LICENSE");
                assert("tsconfig.eslint.json"@.len() != "LICENSE"@.len());
            }
            }
        }
        assert(!seq!["package.json"@, "package-lock.json"@, ".prettierrc"@].contains("LICENSE"@)) by {
            assert forall|q: int| 0 <= q < seq!["package.json"@, "package-lock.json"@, ".prettierrc"@].len() implies seq!["package.json"@, "package-lock.json"@, ".prettierrc"@][q] != "LICENSE"@ by {
            if q == 0 {
                assert(seq!["package.json"@, "package-lock.json"@, ".prettierrc"@][0] == "package.json"@);
                reveal_strlit("package.json");
                reveal_strlit("LICENSE");
                assert("package.json"@.len() != "LICENSE"@.len());
            }
            if q == 1 {
                assert(seq!["package.json"@, "package-lock.json"@, ".prettierrc"@][1] == "package-lock.json"@);
                reveal_strlit("package-lock.json");
                reveal_strlit("LICENSE");
                assert("package-lock.json"@.len() != "LICENSE"@.len());
            }
            if q == 2 {
                assert(seq!["package.json"@, "package-lock.json"@, ".prettierrc"@][2] == ".prettierrc"@);
                reveal_strlit(".prettierrc");
                reveal_strlit("LICENSE");
                assert(".prettierrc"@.len() != "LICENSE"@.len());
            }
            }
        }
        assert(!seq!["Cargo.toml"@, "pyproject.toml"@].contains("LICENSE"@)) by {
            assert forall|q: int| 0 <= q < seq!["Cargo.toml"@, "pyproject.toml"@].len() implies seq!["Cargo.toml"@, "pyproject.toml"@][q] != "LICENSE"@ by {
            if q == 0 {
                assert(seq!["Cargo.toml"@, "pyproject.toml"@][0] == "Cargo.toml"@);
                reveal_strlit("Cargo.toml");
                reveal_strlit("LICENSE");
                assert("Cargo.toml"@.len() != "LICENSE"@.len());
            }
            if q == 1 {
                assert(seq!["Cargo.toml"@, "pyproject.toml"@][1] == "pyproject.toml"@);
                reveal_strlit("pyproject.toml");
                reveal_strlit("LICENSE");
                assert("pyproject.toml"@.len() != "LICENSE"@.len());
            }
            }
        }
        assert(language_of_filename(n) == Some(Language::Markdown));
    }
    if file_name_of(p) == ".prettierrc"@ {
        let n = file_name_of(p);
        reveal_strlit(".prettierrc");
        lemma_last_index_of(n, '.');
        assert(n[0] == '.');
        assert(forall|i: int| 1 <= i < n.len() ==> n[i] != '.');
        assert(last_index_of(n, '.') == 0);
        assert(extension_of(n) is None);
        assert(seq!["package.json"@, "package-lock.json"@, ".prettierrc"@][2] == ".prettierrc"@);
        assert(!seq!["tsconfig.json"@, "tsconfig.eslint.json"@].contains(".prettierrc"@)) by {
            assert forall|q: int| 0 <= q < seq!["tsconfig.json"@, "tsconfig.eslint.json"@].len() implies seq!["tsconfig.json"@, "tsconfig.eslint.json"@][q] != ".prettierrc"@ by {
            if q == 0 {
                assert(seq!["tsconfig.json"@, "tsconfig.eslint.json"@][0] == "tsconfig.json"@);
                reveal_strlit("tsconfig.json");
                reveal_strlit(".prettierrc");
                assert("tsconfig.json"@.len() != ".prettierrc"@.len());
            }
            if q == 1 {
                assert(seq!["tsconfig.json"@, "tsconfig.eslint.json"@][1] == "tsconfig.eslint.json"@);
                reveal_strlit("tsconfig.eslint.json");
                reveal_strlit(".prettierrc");
                assert("tsconfig.eslint.json"@.len() != ".prettierrc"@.len());
            }
            }
        }
        assert(language_of_filename(n) == Some(Language::Json));
    }
}

} // verus!
