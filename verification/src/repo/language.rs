//! Supported languages, frameworks and ecosystems.

use vstd::prelude::*;
use crate::text::{
    chars_of, lower, lower_chars, str_eq, string_from_chars, trim, trim_chars, trim_end_index,
    trim_start_index,
};

verus! {

/// Programming and markup languages recognised by the engine.
#[derive(Debug, Clone, Copy, PartialEq, Eq, Structural, Hash, PartialOrd, Ord)]
pub enum Language {
    /// Rust
    Rust,
    /// TypeScript (`.ts`, `.tsx`, `.mts`, `.cts`)
    TypeScript,
    /// JavaScript (`.js`, `.jsx`, `.mjs`, `.cjs`)
    JavaScript,
    /// Python (`.py`, `.pyi`)
    Python,
    /// Go (`.go`)
    Go,
    /// Java (`.java`)
    Java,
    /// C# (`.cs`)
    CSharp,
    /// C (`.c`, `.h`)
    C,
    /// C++ (`.cpp`, `.cc`, `.cxx`, `.hpp`, `.hh`, `.hxx`)
    Cpp,
    /// JSON (`.json`, `.jsonc`)
    Json,
    /// YAML (`.yaml`, `.yml`)
    Yaml,
    /// TOML (`.toml`)
    Toml,
    /// Markdown (`.md`, `.markdown`)
    Markdown,
}

/// The canonical lower-case name of a language.
pub open spec fn language_name(l: Language) -> Seq<char> {
    match l {
        Language::Rust => "rust"@,
        Language::TypeScript => "typescript"@,
        Language::JavaScript => "javascript"@,
        Language::Python => "python"@,
        Language::Go => "go"@,
        Language::Java => "java"@,
        Language::CSharp => "csharp"@,
        Language::C => "c"@,
        Language::Cpp => "cpp"@,
        Language::Json => "json"@,
        Language::Yaml => "yaml"@,
        Language::Toml => "toml"@,
        Language::Markdown => "markdown"@,
    }
}

/// The language an already lower-cased name or alias denotes.
pub open spec fn language_for_alias(n: Seq<char>) -> Option<Language> {
    if n == "rust"@ || n == "rs"@ {
        Some(Language::Rust)
    } else if n == "typescript"@ || n == "ts"@ || n == "tsx"@ || n == "mts"@ || n == "cts"@ {
        Some(Language::TypeScript)
    } else if n == "javascript"@ || n == "js"@ || n == "jsx"@ || n == "mjs"@ || n == "cjs"@ {
        Some(Language::JavaScript)
    } else if n == "python"@ || n == "py"@ || n == "pyi"@ {
        Some(Language::Python)
    } else if n == "go"@ {
        Some(Language::Go)
    } else if n == "java"@ {
        Some(Language::Java)
    } else if n == "csharp"@ || n == "c#"@ {
        Some(Language::CSharp)
    } else if n == "c"@ {
        Some(Language::C)
    } else if n == "cpp"@ || n == "c++"@ || n == "cc"@ {
        Some(Language::Cpp)
    } else if n == "json"@ || n == "jsonc"@ {
        Some(Language::Json)
    } else if n == "yaml"@ || n == "yml"@ {
        Some(Language::Yaml)
    } else if n == "toml"@ {
        Some(Language::Toml)
    } else if n == "markdown"@ || n == "md"@ {
        Some(Language::Markdown)
    } else {
        None
    }
}

/// The sequence of all languages, in declaration order.
pub open spec fn all_languages() -> Seq<Language> {
    seq![
        Language::Rust,
        Language::TypeScript,
        Language::JavaScript,
        Language::Python,
        Language::Go,
        Language::Java,
        Language::CSharp,
        Language::C,
        Language::Cpp,
        Language::Json,
        Language::Yaml,
        Language::Toml,
        Language::Markdown,
    ]
}

impl Language {
    /// Canonical lowercase string form (`"rust"`, `"typescript"`, ...).
    pub fn as_str(self) -> (r: &'static str)
        ensures
            r@ == language_name(self),
    {
        match self {
            Language::Rust => "rust",
            Language::TypeScript => "typescript",
            Language::JavaScript => "javascript",
            Language::Python => "python",
            Language::Go => "go",
            Language::Java => "java",
            Language::CSharp => "csharp",
            Language::C => "c",
            Language::Cpp => "cpp",
            Language::Json => "json",
            Language::Yaml => "yaml",
            Language::Toml => "toml",
            Language::Markdown => "markdown",
        }
    }

    /// All supported languages in a stable order.
    pub fn all() -> (r: Vec<Language>)
        ensures
            r@ == all_languages(),
    {
        let r = vec![
            Language::Rust,
            Language::TypeScript,
            Language::JavaScript,
            Language::Python,
            Language::Go,
            Language::Java,
            Language::CSharp,
            Language::C,
            Language::Cpp,
            Language::Json,
            Language::Yaml,
            Language::Toml,
            Language::Markdown,
        ];
        assert(r@ =~= all_languages());
        r
    }

    /// Whether the import extractor understands this language's imports
    /// (Rust, TypeScript, JavaScript, Python).
    pub fn supports_import_analysis(self) -> (r: bool)
        ensures
            r == (self == Language::Rust || self == Language::TypeScript || self
                == Language::JavaScript || self == Language::Python),
    {
        match self {
            Language::Rust | Language::TypeScript | Language::JavaScript | Language::Python => true,
            _ => false,
        }
    }

    /// Parses a language name or file-extension alias, ignoring ASCII case.
    pub fn parse(s: &str) -> (r: Result<Language, ()>)
        ensures
            r == (match language_for_alias(lower(s@)) {
                Some(l) => Ok::<Language, ()>(l),
                None => Err(()),
            }),
    {
        let v = chars_of(s);
        let l = lower_chars(v.as_slice());
        let n = string_from_chars(l.as_slice());
        let n = n.as_str();
        if str_eq(n, "rust") || str_eq(n, "rs") {
            Ok(Language::Rust)
        } else if str_eq(n, "typescript") || str_eq(n, "ts") || str_eq(n, "tsx") || str_eq(n, "mts")
            || str_eq(n, "cts") {
            Ok(Language::TypeScript)
        } else if str_eq(n, "javascript") || str_eq(n, "js") || str_eq(n, "jsx") || str_eq(n, "mjs")
            || str_eq(n, "cjs") {
            Ok(Language::JavaScript)
        } else if str_eq(n, "python") || str_eq(n, "py") || str_eq(n, "pyi") {
            Ok(Language::Python)
        } else if str_eq(n, "go") {
            Ok(Language::Go)
        } else if str_eq(n, "java") {
            Ok(Language::Java)
        } else if str_eq(n, "csharp") || str_eq(n, "c#") {
            Ok(Language::CSharp)
        } else if str_eq(n, "c") {
            Ok(Language::C)
        } else if str_eq(n, "cpp") || str_eq(n, "c++") || str_eq(n, "cc") {
            Ok(Language::Cpp)
        } else if str_eq(n, "json") || str_eq(n, "jsonc") {
            Ok(Language::Json)
        } else if str_eq(n, "yaml") || str_eq(n, "yml") {
            Ok(Language::Yaml)
        } else if str_eq(n, "toml") {
            Ok(Language::Toml)
        } else if str_eq(n, "markdown") || str_eq(n, "md") {
            Ok(Language::Markdown)
        } else {
            Err(())
        }
    }
}

impl std::str::FromStr for Language {
    type Err = ();

    fn from_str(s: &str) -> (r: Result<Self, Self::Err>)
        ensures
            r == (match language_for_alias(lower(s@)) {
                Some(l) => Ok::<Language, ()>(l),
                None => Err(()),
            }),
    {
        Language::parse(s)
    }
}

/// Every language's canonical name parses back to that language.
pub proof fn law_language_name_round_trip(l: Language)
    ensures
        language_for_alias(lower(language_name(l))) == Some(l),
{
    if l is Rust {
        assert(language_for_alias(lower("rust"@)) == Some(Language::Rust)) by {
            reveal_strlit("rust");
            assert(lower("rust"@) =~= "rust"@);
        }
    }
    if l is TypeScript {
        assert(language_for_alias(lower("typescript"@)) == Some(Language::TypeScript)) by {
            reveal_strlit("typescript");
            reveal_strlit("rust");
            reveal_strlit("rs");
            assert(lower("typescript"@) =~= "typescript"@);
            assert("typescript"@.len() != "rust"@.len());
            assert("typescript"@.len() != "rs"@.len());
        }
    }
    if l is JavaScript {
        assert(language_for_alias(lower("javascript"@)) == Some(Language::JavaScript)) by {
            reveal_strlit("javascript");
            reveal_strlit("rust");
            reveal_strlit("rs");
            reveal_strlit("typescript");
            reveal_strlit("ts");
            reveal_strlit("tsx");
            reveal_strlit("mts");
            reveal_strlit("cts");
            assert(lower("javascript"@) =~= "javascript"@);
            assert("javascript"@.len() != "rust"@.len());
            assert("javascript"@.len() != "rs"@.len());
            assert("javascript"@[0] != "typescript"@[0]);
            assert("javascript"@.len() != "ts"@.len());
            assert("javascript"@.len() != "tsx"@.len());
            assert("javascript"@.len() != "mts"@.len());
            assert("javascript"@.len() != "cts"@.len());
        }
    }
    if l is Python {
        assert(language_for_alias(lower("python"@)) == Some(Language::Python)) by {
            reveal_strlit("python");
            reveal_strlit("rust");
            reveal_strlit("rs");
            reveal_strlit("typescript");
            reveal_strlit("ts");
            reveal_strlit("tsx");
            reveal_strlit("mts");
            reveal_strlit("cts");
            reveal_strlit("javascript");
            reveal_strlit("js");
            reveal_strlit("jsx");
            reveal_strlit("mjs");
            reveal_strlit("cjs");
            assert(lower("python"@) =~= "python"@);
            assert("python"@.len() != "rust"@.len());
            assert("python"@.len() != "rs"@.len());
            assert("python"@.len() != "typescript"@.len());
            assert("python"@.len() != "ts"@.len());
            assert("python"@.len() != "tsx"@.len());
            assert("python"@.len() != "mts"@.len());
            assert("python"@.len() != "cts"@.len());
            assert("python"@.len() != "javascript"@.len());
            assert("python"@.len() != "js"@.len());
            assert("python"@.len() != "jsx"@.len());
            assert("python"@.len() != "mjs"@.len());
            assert("python"@.len() != "cjs"@.len());
        }
    }
    if l is Go {
        assert(language_for_alias(lower("go"@)) == Some(Language::Go)) by {
            reveal_strlit("go");
            reveal_strlit("rust");
            reveal_strlit("rs");
            reveal_strlit("typescript");
            reveal_strlit("ts");
            reveal_strlit("tsx");
            reveal_strlit("mts");
            reveal_strlit("cts");
            reveal_strlit("javascript");
            reveal_strlit("js");
            reveal_strlit("jsx");
            reveal_strlit("mjs");
            reveal_strlit("cjs");
            reveal_strlit("python");
            reveal_strlit("py");
            reveal_strlit("pyi");
            assert(lower("go"@) =~= "go"@);
            assert("go"@.len() != "rust"@.len());
            assert("go"@[0] != "rs"@[0]);
            assert("go"@.len() != "typescript"@.len());
            assert("go"@[0] != "ts"@[0]);
            assert("go"@.len() != "tsx"@.len());
            assert("go"@.len() != "mts"@.len());
            assert("go"@.len() != "cts"@.len());
            assert("go"@.len() != "javascript"@.len());
            assert("go"@[0] != "js"@[0]);
            assert("go"@.len() != "jsx"@.len());
            assert("go"@.len() != "mjs"@.len());
            assert("go"@.len() != "cjs"@.len());
            assert("go"@.len() != "python"@.len());
            assert("go"@[0] != "py"@[0]);
            assert("go"@.len() != "pyi"@.len());
        }
    }
    if l is Java {
        assert(language_for_alias(lower("java"@)) == Some(Language::Java)) by {
            reveal_strlit("java");
            reveal_strlit("rust");
            reveal_strlit("rs");
            reveal_strlit("typescript");
            reveal_strlit("ts");
            reveal_strlit("tsx");
            reveal_strlit("mts");
            reveal_strlit("cts");
            reveal_strlit("javascript");
            reveal_strlit("js");
            reveal_strlit("jsx");
            reveal_strlit("mjs");
            reveal_strlit("cjs");
            reveal_strlit("python");
            reveal_strlit("py");
            reveal_strlit("pyi");
            reveal_strlit("go");
            assert(lower("java"@) =~= "java"@);
            assert("java"@[0] != "rust"@[0]);
            assert("java"@.len() != "rs"@.len());
            assert("java"@.len() != "typescript"@.len());
            assert("java"@.len() != "ts"@.len());
            assert("java"@.len() != "tsx"@.len());
            assert("java"@.len() != "mts"@.len());
            assert("java"@.len() != "cts"@.len());
            assert("java"@.len() != "javascript"@.len());
            assert("java"@.len() != "js"@.len());
            assert("java"@.len() != "jsx"@.len());
            assert("java"@.len() != "mjs"@.len());
            assert("java"@.len() != "cjs"@.len());
            assert("java"@.len() != "python"@.len());
            assert("java"@.len() != "py"@.len());
            assert("java"@.len() != "pyi"@.len());
            assert("java"@.len() != "go"@.len());
        }
    }
    if l is CSharp {
        assert(language_for_alias(lower("csharp"@)) == Some(Language::CSharp)) by {
            reveal_strlit("csharp");
            reveal_strlit("rust");
            reveal_strlit("rs");
            reveal_strlit("typescript");
            reveal_strlit("ts");
            reveal_strlit("tsx");
            reveal_strlit("mts");
            reveal_strlit("cts");
            reveal_strlit("javascript");
            reveal_strlit("js");
            reveal_strlit("jsx");
            reveal_strlit("mjs");
            reveal_strlit("cjs");
            reveal_strlit("python");
            reveal_strlit("py");
            reveal_strlit("pyi");
            reveal_strlit("go");
            reveal_strlit("java");
            assert(lower("csharp"@) =~= "csharp"@);
            assert("csharp"@.len() != "rust"@.len());
            assert("csharp"@.len() != "rs"@.len());
            assert("csharp"@.len() != "typescript"@.len());
            assert("csharp"@.len() != "ts"@.len());
            assert("csharp"@.len() != "tsx"@.len());
            assert("csharp"@.len() != "mts"@.len());
            assert("csharp"@.len() != "cts"@.len());
            assert("csharp"@.len() != "javascript"@.len());
            assert("csharp"@.len() != "js"@.len());
            assert("csharp"@.len() != "jsx"@.len());
            assert("csharp"@.len() != "mjs"@.len());
            assert("csharp"@.len() != "cjs"@.len());
            assert("csharp"@[0] != "python"@[0]);
            assert("csharp"@.len() != "py"@.len());
            assert("csharp"@.len() != "pyi"@.len());
            assert("csharp"@.len() != "go"@.len());
            assert("csharp"@.len() != "java"@.len());
        }
    }
    if l is C {
        assert(language_for_alias(lower("c"@)) == Some(Language::C)) by {
            reveal_strlit("c");
            reveal_strlit("rust");
            reveal_strlit("rs");
            reveal_strlit("typescript");
            reveal_strlit("ts");
            reveal_strlit("tsx");
            reveal_strlit("mts");
            reveal_strlit("cts");
            reveal_strlit("javascript");
            reveal_strlit("js");
            reveal_strlit("jsx");
            reveal_strlit("mjs");
            reveal_strlit("cjs");
            reveal_strlit("python");
            reveal_strlit("py");
            reveal_strlit("pyi");
            reveal_strlit("go");
            reveal_strlit("java");
            reveal_strlit("csharp");
            reveal_strlit("c#");
            assert(lower("c"@) =~= "c"@);
            assert("c"@.len() != "rust"@.len());
            assert("c"@.len() != "rs"@.len());
            assert("c"@.len() != "typescript"@.len());
            assert("c"@.len() != "ts"@.len());
            assert("c"@.len() != "tsx"@.len());
            assert("c"@.len() != "mts"@.len());
            assert("c"@.len() != "cts"@.len());
            assert("c"@.len() != "javascript"@.len());
            assert("c"@.len() != "js"@.len());
            assert("c"@.len() != "jsx"@.len());
            assert("c"@.len() != "mjs"@.len());
            assert("c"@.len() != "cjs"@.len());
            assert("c"@.len() != "python"@.len());
            assert("c"@.len() != "py"@.len());
            assert("c"@.len() != "pyi"@.len());
            assert("c"@.len() != "go"@.len());
            assert("c"@.len() != "java"@.len());
            assert("c"@.len() != "csharp"@.len());
            assert("c"@.len() != "c#"@.len());
        }
    }
    if l is Cpp {
        assert(language_for_alias(lower("cpp"@)) == Some(Language::Cpp)) by {
            reveal_strlit("cpp");
            reveal_strlit("rust");
            reveal_strlit("rs");
            reveal_strlit("typescript");
            reveal_strlit("ts");
            reveal_strlit("tsx");
            reveal_strlit("mts");
            reveal_strlit("cts");
            reveal_strlit("javascript");
            reveal_strlit("js");
            reveal_strlit("jsx");
            reveal_strlit("mjs");
            reveal_strlit("cjs");
            reveal_strlit("python");
            reveal_strlit("py");
            reveal_strlit("pyi");
            reveal_strlit("go");
            reveal_strlit("java");
            reveal_strlit("csharp");
            reveal_strlit("c#");
            reveal_strlit("c");
            assert(lower("cpp"@) =~= "cpp"@);
            assert("cpp"@.len() != "rust"@.len());
            assert("cpp"@.len() != "rs"@.len());
            assert("cpp"@.len() != "typescript"@.len());
            assert("cpp"@.len() != "ts"@.len());
            assert("cpp"@[0] != "tsx"@[0]);
            assert("cpp"@[0] != "mts"@[0]);
            assert("cpp"@[1] != "cts"@[1]);
            assert("cpp"@.len() != "javascript"@.len());
            assert("cpp"@.len() != "js"@.len());
            assert("cpp"@[0] != "jsx"@[0]);
            assert("cpp"@[0] != "mjs"@[0]);
            assert("cpp"@[1] != "cjs"@[1]);
            assert("cpp"@.len() != "python"@.len());
            assert("cpp"@.len() != "py"@.len());
            assert("cpp"@[0] != "pyi"@[0]);
            assert("cpp"@.len() != "go"@.len());
            assert("cpp"@.len() != "java"@.len());
            assert("cpp"@.len() != "csharp"@.len());
            assert("cpp"@.len() != "c#"@.len());
            assert("cpp"@.len() != "c"@.len());
        }
    }
    if l is Json {
        assert(language_for_alias(lower("json"@)) == Some(Language::Json)) by {
            reveal_strlit("json");
            reveal_strlit("rust");
            reveal_strlit("rs");
            reveal_strlit("typescript");
            reveal_strlit("ts");
            reveal_strlit("tsx");
            reveal_strlit("mts");
            reveal_strlit("cts");
            reveal_strlit("javascript");
            reveal_strlit("js");
            reveal_strlit("jsx");
            reveal_strlit("mjs");
            reveal_strlit("cjs");
            reveal_strlit("python");
            reveal_strlit("py");
            reveal_strlit("pyi");
            reveal_strlit("go");
            reveal_strlit("java");
            reveal_strlit("csharp");
            reveal_strlit("c#");
            reveal_strlit("c");
            reveal_strlit("cpp");
            reveal_strlit("c++");
            reveal_strlit("cc");
            assert(lower("json"@) =~= "json"@);
            assert("json"@[0] != "rust"@[0]);
            assert("json"@.len() != "rs"@.len());
            assert("json"@.len() != "typescript"@.len());
            assert("json"@.len() != "ts"@.len());
            assert("json"@.len() != "tsx"@.len());
            assert("json"@.len() != "mts"@.len());
            assert("json"@.len() != "cts"@.len());
            assert("json"@.len() != "javascript"@.len());
            assert("json"@.len() != "js"@.len());
            assert("json"@.len() != "jsx"@.len());
            assert("json"@.len() != "mjs"@.len());
            assert("json"@.len() != "cjs"@.len());
            assert("json"@.len() != "python"@.len());
            assert("json"@.len() != "py"@.len());
            assert("json"@.len() != "pyi"@.len());
            assert("json"@.len() != "go"@.len());
            assert("json"@[1] != "java"@[1]);
            assert("json"@.len() != "csharp"@.len());
            assert("json"@.len() != "c#"@.len());
            assert("json"@.len() != "c"@.len());
            assert("json"@.len() != "cpp"@.len());
            assert("json"@.len() != "c++"@.len());
            assert("json"@.len() != "cc"@.len());
        }
    }
    if l is Yaml {
        assert(language_for_alias(lower("yaml"@)) == Some(Language::Yaml)) by {
            reveal_strlit("yaml");
            reveal_strlit("rust");
            reveal_strlit("rs");
            reveal_strlit("typescript");
            reveal_strlit("ts");
            reveal_strlit("tsx");
            reveal_strlit("mts");
            reveal_strlit("cts");
            reveal_strlit("javascript");
            reveal_strlit("js");
            reveal_strlit("jsx");
            reveal_strlit("mjs");
            reveal_strlit("cjs");
            reveal_strlit("python");
            reveal_strlit("py");
            reveal_strlit("pyi");
            reveal_strlit("go");
            reveal_strlit("java");
            reveal_strlit("csharp");
            reveal_strlit("c#");
            reveal_strlit("c");
            reveal_strlit("cpp");
            reveal_strlit("c++");
            reveal_strlit("cc");
            reveal_strlit("json");
            reveal_strlit("jsonc");
            assert(lower("yaml"@) =~= "yaml"@);
            assert("yaml"@[0] != "rust"@[0]);
            assert("yaml"@.len() != "rs"@.len());
            assert("yaml"@.len() != "typescript"@.len());
            assert("yaml"@.len() != "ts"@.len());
            assert("yaml"@.len() != "tsx"@.len());
            assert("yaml"@.len() != "mts"@.len());
            assert("yaml"@.len() != "cts"@.len());
            assert("yaml"@.len() != "javascript"@.len());
            assert("yaml"@.len() != "js"@.len());
            assert("yaml"@.len() != "jsx"@.len());
            assert("yaml"@.len() != "mjs"@.len());
            assert("yaml"@.len() != "cjs"@.len());
            assert("yaml"@.len() != "python"@.len());
            assert("yaml"@.len() != "py"@.len());
            assert("yaml"@.len() != "pyi"@.len());
            assert("yaml"@.len() != "go"@.len());
            assert("yaml"@[0] != "java"@[0]);
            assert("yaml"@.len() != "csharp"@.len());
            assert("yaml"@.len() != "c#"@.len());
            assert("yaml"@.len() != "c"@.len());
            assert("yaml"@.len() != "cpp"@.len());
            assert("yaml"@.len() != "c++"@.len());
            assert("yaml"@.len() != "cc"@.len());
            assert("yaml"@[0] != "json"@[0]);
            assert("yaml"@.len() != "jsonc"@.len());
        }
    }
    if l is Toml {
        assert(language_for_alias(lower("toml"@)) == Some(Language::Toml)) by {
            reveal_strlit("toml");
            reveal_strlit("rust");
            reveal_strlit("rs");
            reveal_strlit("typescript");
            reveal_strlit("ts");
            reveal_strlit("tsx");
            reveal_strlit("mts");
            reveal_strlit("cts");
            reveal_strlit("javascript");
            reveal_strlit("js");
            reveal_strlit("jsx");
            reveal_strlit("mjs");
            reveal_strlit("cjs");
            reveal_strlit("python");
            reveal_strlit("py");
            reveal_strlit("pyi");
            reveal_strlit("go");
            reveal_strlit("java");
            reveal_strlit("csharp");
            reveal_strlit("c#");
            reveal_strlit("c");
            reveal_strlit("cpp");
            reveal_strlit("c++");
            reveal_strlit("cc");
            reveal_strlit("json");
            reveal_strlit("jsonc");
            reveal_strlit("yaml");
            reveal_strlit("yml");
            assert(lower("toml"@) =~= "toml"@);
            assert("toml"@[0] != "rust"@[0]);
            assert("toml"@.len() != "rs"@.len());
            assert("toml"@.len() != "typescript"@.len());
            assert("toml"@.len() != "ts"@.len());
            assert("toml"@.len() != "tsx"@.len());
            assert("toml"@.len() != "mts"@.len());
            assert("toml"@.len() != "cts"@.len());
            assert("toml"@.len() != "javascript"@.len());
            assert("toml"@.len() != "js"@.len());
            assert("toml"@.len() != "jsx"@.len());
            assert("toml"@.len() != "mjs"@.len());
            assert("toml"@.len() != "cjs"@.len());
            assert("toml"@.len() != "python"@.len());
            assert("toml"@.len() != "py"@.len());
            assert("toml"@.len() != "pyi"@.len());
            assert("toml"@.len() != "go"@.len());
            assert("toml"@[0] != "java"@[0]);
            assert("toml"@.len() != "csharp"@.len());
            assert("toml"@.len() != "c#"@.len());
            assert("toml"@.len() != "c"@.len());
            assert("toml"@.len() != "cpp"@.len());
            assert("toml"@.len() != "c++"@.len());
            assert("toml"@.len() != "cc"@.len());
            assert("toml"@[0] != "json"@[0]);
            assert("toml"@.len() != "jsonc"@.len());
            assert("toml"@[0] != "yaml"@[0]);
            assert("toml"@.len() != "yml"@.len());
        }
    }
    if l is Markdown {
        assert(language_for_alias(lower("markdown"@)) == Some(Language::Markdown)) by {
            reveal_strlit("markdown");
            reveal_strlit("rust");
            reveal_strlit("rs");
            reveal_strlit("typescript");
            reveal_strlit("ts");
            reveal_strlit("tsx");
            reveal_strlit("mts");
            reveal_strlit("cts");
            reveal_strlit("javascript");
            reveal_strlit("js");
            reveal_strlit("jsx");
            reveal_strlit("mjs");
            reveal_strlit("cjs");
            reveal_strlit("python");
            reveal_strlit("py");
            reveal_strlit("pyi");
            reveal_strlit("go");
            reveal_strlit("java");
            reveal_strlit("csharp");
            reveal_strlit("c#");
            reveal_strlit("c");
            reveal_strlit("cpp");
            reveal_strlit("c++");
            reveal_strlit("cc");
            reveal_strlit("json");
            reveal_strlit("jsonc");
            reveal_strlit("yaml");
            reveal_strlit("yml");
            reveal_strlit("toml");
            assert(lower("markdown"@) =~= "markdown"@);
            assert("markdown"@.len() != "rust"@.len());
            assert("markdown"@.len() != "rs"@.len());
            assert("markdown"@.len() != "typescript"@.len());
            assert("markdown"@.len() != "ts"@.len());
            assert("markdown"@.len() != "tsx"@.len());
            assert("markdown"@.len() != "mts"@.len());
            assert("markdown"@.len() != "cts"@.len());
            assert("markdown"@.len() != "javascript"@.len());
            assert("markdown"@.len() != "js"@.len());
            assert("markdown"@.len() != "jsx"@.len());
            assert("markdown"@.len() != "mjs"@.len());
            assert("markdown"@.len() != "cjs"@.len());
            assert("markdown"@.len() != "python"@.len());
            assert("markdown"@.len() != "py"@.len());
            assert("markdown"@.len() != "pyi"@.len());
            assert("markdown"@.len() != "go"@.len());
            assert("markdown"@.len() != "java"@.len());
            assert("markdown"@.len() != "csharp"@.len());
            assert("markdown"@.len() != "c#"@.len());
            assert("markdown"@.len() != "c"@.len());
            assert("markdown"@.len() != "cpp"@.len());
            assert("markdown"@.len() != "c++"@.len());
            assert("markdown"@.len() != "cc"@.len());
            assert("markdown"@.len() != "json"@.len());
            assert("markdown"@.len() != "jsonc"@.len());
            assert("markdown"@.len() != "yaml"@.len());
            assert("markdown"@.len() != "yml"@.len());
            assert("markdown"@.len() != "toml"@.len());
        }
    }
}

/// The ecosystem a framework belongs to.
#[derive(Debug, Clone, Copy, PartialEq, Eq, Structural, Hash)]
pub enum Ecosystem {
    /// JavaScript / TypeScript
    Javascript,
    /// Python
    Python,
    /// Rust
    Rust,
}

/// The name of an ecosystem.
pub open spec fn ecosystem_name(e: Ecosystem) -> Seq<char> {
    match e {
        Ecosystem::Javascript => "javascript"@,
        Ecosystem::Python => "python"@,
        Ecosystem::Rust => "rust"@,
    }
}

impl Ecosystem {
    /// Human readable ecosystem name.
    pub fn as_str(self) -> (r: &'static str)
        ensures
            r@ == ecosystem_name(self),
    {
        match self {
            Ecosystem::Javascript => "javascript",
            Ecosystem::Python => "python",
            Ecosystem::Rust => "rust",
        }
    }
}

/// Frameworks detected from manifests and configuration files.
#[derive(Debug, Clone, Copy, PartialEq, Eq, Structural, Hash, PartialOrd, Ord)]
pub enum Framework {
    /// Next.js — React meta-framework
    NextJs,
    /// React — UI library
    React,
    /// Express — Node.js web framework
    Express,
    /// NestJS — TypeScript framework
    NestJs,
    /// Vite — build tool / dev server
    Vite,
    /// FastAPI — Python ASGI framework
    FastApi,
    /// Flask — Python WSGI microframework
    Flask,
    /// Django — Python web framework
    Django,
    /// Axum — Rust async web framework
    Axum,
    /// Actix Web — Rust web framework
    Actix,
    /// Rocket — Rust web framework
    Rocket,
}

/// The display name of a framework.
pub open spec fn framework_name(f: Framework) -> Seq<char> {
    match f {
        Framework::NextJs => "Next.js"@,
        Framework::React => "React"@,
        Framework::Express => "Express"@,
        Framework::NestJs => "NestJS"@,
        Framework::Vite => "Vite"@,
        Framework::FastApi => "FastAPI"@,
        Framework::Flask => "Flask"@,
        Framework::Django => "Django"@,
        Framework::Axum => "Axum"@,
        Framework::Actix => "Actix"@,
        Framework::Rocket => "Rocket"@,
    }
}

/// The ecosystem of a framework.
pub open spec fn framework_ecosystem(f: Framework) -> Ecosystem {
    match f {
        Framework::NextJs | Framework::React | Framework::Express | Framework::NestJs
        | Framework::Vite => Ecosystem::Javascript,
        Framework::FastApi | Framework::Flask | Framework::Django => Ecosystem::Python,
        Framework::Axum | Framework::Actix | Framework::Rocket => Ecosystem::Rust,
    }
}

/// The framework an already trimmed and lower-cased name denotes.
pub open spec fn framework_for_alias(n: Seq<char>) -> Option<Framework> {
    if n == "next.js"@ || n == "nextjs"@ || n == "next"@ {
        Some(Framework::NextJs)
    } else if n == "react"@ {
        Some(Framework::React)
    } else if n == "express"@ {
        Some(Framework::Express)
    } else if n == "nestjs"@ {
        Some(Framework::NestJs)
    } else if n == "vite"@ {
        Some(Framework::Vite)
    } else if n == "fastapi"@ {
        Some(Framework::FastApi)
    } else if n == "flask"@ {
        Some(Framework::Flask)
    } else if n == "django"@ {
        Some(Framework::Django)
    } else if n == "axum"@ {
        Some(Framework::Axum)
    } else if n == "actix"@ || n == "actix-web"@ {
        Some(Framework::Actix)
    } else if n == "rocket"@ {
        Some(Framework::Rocket)
    } else {
        None
    }
}

/// The sequence of all frameworks, in declaration order.
pub open spec fn all_frameworks() -> Seq<Framework> {
    seq![
        Framework::NextJs,
        Framework::React,
        Framework::Express,
        Framework::NestJs,
        Framework::Vite,
        Framework::FastApi,
        Framework::Flask,
        Framework::Django,
        Framework::Axum,
        Framework::Actix,
        Framework::Rocket,
    ]
}

impl Framework {
    /// Display name used in JSON output (`"Next.js"`, `"FastAPI"`).
    pub fn display_name(self) -> (r: &'static str)
        ensures
            r@ == framework_name(self),
    {
        match self {
            Framework::NextJs => "Next.js",
            Framework::React => "React",
            Framework::Express => "Express",
            Framework::NestJs => "NestJS",
            Framework::Vite => "Vite",
            Framework::FastApi => "FastAPI",
            Framework::Flask => "Flask",
            Framework::Django => "Django",
            Framework::Axum => "Axum",
            Framework::Actix => "Actix",
            Framework::Rocket => "Rocket",
        }
    }

    /// The ecosystem this framework belongs to.
    pub fn ecosystem(self) -> (r: Ecosystem)
        ensures
            r == framework_ecosystem(self),
    {
        match self {
            Framework::NextJs | Framework::React | Framework::Express | Framework::NestJs
            | Framework::Vite => Ecosystem::Javascript,
            Framework::FastApi | Framework::Flask | Framework::Django => Ecosystem::Python,
            Framework::Axum | Framework::Actix | Framework::Rocket => Ecosystem::Rust,
        }
    }

    /// All supported frameworks in a stable order.
    pub fn all() -> (r: Vec<Framework>)
        ensures
            r@ == all_frameworks(),
    {
        let r = vec![
            Framework::NextJs,
            Framework::React,
            Framework::Express,
            Framework::NestJs,
            Framework::Vite,
            Framework::FastApi,
            Framework::Flask,
            Framework::Django,
            Framework::Axum,
            Framework::Actix,
            Framework::Rocket,
        ];
        assert(r@ =~= all_frameworks());
        r
    }

    /// Parses a framework name, ignoring surrounding whitespace and ASCII
    /// case.
    pub fn parse(s: &str) -> (r: Result<Framework, ()>)
        ensures
            r == (match framework_for_alias(lower(trim(s@))) {
                Some(f) => Ok::<Framework, ()>(f),
                None => Err(()),
            }),
    {
        let v = chars_of(s);
        let t = trim_chars(v.as_slice());
        let l = lower_chars(t.as_slice());
        let n = string_from_chars(l.as_slice());
        let n = n.as_str();
        if str_eq(n, "next.js") || str_eq(n, "nextjs") || str_eq(n, "next") {
            Ok(Framework::NextJs)
        } else if str_eq(n, "react") {
            Ok(Framework::React)
        } else if str_eq(n, "express") {
            Ok(Framework::Express)
        } else if str_eq(n, "nestjs") {
            Ok(Framework::NestJs)
        } else if str_eq(n, "vite") {
            Ok(Framework::Vite)
        } else if str_eq(n, "fastapi") {
            Ok(Framework::FastApi)
        } else if str_eq(n, "flask") {
            Ok(Framework::Flask)
        } else if str_eq(n, "django") {
            Ok(Framework::Django)
        } else if str_eq(n, "axum") {
            Ok(Framework::Axum)
        } else if str_eq(n, "actix") || str_eq(n, "actix-web") {
            Ok(Framework::Actix)
        } else if str_eq(n, "rocket") {
            Ok(Framework::Rocket)
        } else {
            Err(())
        }
    }
}

/// Every framework's display name parses back to that framework.
pub proof fn law_framework_name_round_trip(f: Framework)
    ensures
        framework_for_alias(lower(trim(framework_name(f)))) == Some(f),
{
    if f is NextJs {
        assert(framework_for_alias(lower(trim("Next.js"@))) == Some(Framework::NextJs)) by {
            reveal_strlit("Next.js");
            reveal_strlit("next.js");
            let t = "Next.js"@;
            assert(trim_start_index(t) == 0);
            assert(trim_end_index(t) == t.len());
            assert(trim(t) =~= t);
            assert(lower(t) =~= "next.js"@);
        }
    }
    if f is React {
        assert(framework_for_alias(lower(trim("React"@))) == Some(Framework::React)) by {
            reveal_strlit("React");
            reveal_strlit("react");
            reveal_strlit("next.js");
            reveal_strlit("nextjs");
            reveal_strlit("next");
            let t = "React"@;
            assert(trim_start_index(t) == 0);
            assert(trim_end_index(t) == t.len());
            assert(trim(t) =~= t);
            assert(lower(t) =~= "react"@);
            assert("react"@.len() != "next.js"@.len());
            assert("react"@.len() != "nextjs"@.len());
            assert("react"@.len() != "next"@.len());
        }
    }
    if f is Express {
        assert(framework_for_alias(lower(trim("Express"@))) == Some(Framework::Express)) by {
            reveal_strlit("Express");
            reveal_strlit("express");
            reveal_strlit("next.js");
            reveal_strlit("nextjs");
            reveal_strlit("next");
            reveal_strlit("react");
            let t = "Express"@;
            assert(trim_start_index(t) == 0);
            assert(trim_end_index(t) == t.len());
            assert(trim(t) =~= t);
            assert(lower(t) =~= "express"@);
            assert("express"@[0] != "next.js"@[0]);
            assert("express"@.len() != "nextjs"@.len());
            assert("express"@.len() != "next"@.len());
            assert("express"@.len() != "react"@.len());
        }
    }
    if f is NestJs {
        assert(framework_for_alias(lower(trim("NestJS"@))) == Some(Framework::NestJs)) by {
            reveal_strlit("NestJS");
            reveal_strlit("nestjs");
            reveal_strlit("next.js");
            reveal_strlit("nextjs");
            reveal_strlit("next");
            reveal_strlit("react");
            reveal_strlit("express");
            let t = "NestJS"@;
            assert(trim_start_index(t) == 0);
            assert(trim_end_index(t) == t.len());
            assert(trim(t) =~= t);
            assert(lower(t) =~= "nestjs"@);
            assert("nestjs"@.len() != "next.js"@.len());
            assert("nestjs"@[2] != "nextjs"@[2]);
            assert("nestjs"@.len() != "next"@.len());
            assert("nestjs"@.len() != "react"@.len());
            assert("nestjs"@.len() != "express"@.len());
        }
    }
    if f is Vite {
        assert(framework_for_alias(lower(trim("Vite"@))) == Some(Framework::Vite)) by {
            reveal_strlit("Vite");
            reveal_strlit("vite");
            reveal_strlit("next.js");
            reveal_strlit("nextjs");
            reveal_strlit("next");
            reveal_strlit("react");
            reveal_strlit("express");
            reveal_strlit("nestjs");
            let t = "Vite"@;
            assert(trim_start_index(t) == 0);
            assert(trim_end_index(t) == t.len());
            assert(trim(t) =~= t);
            assert(lower(t) =~= "vite"@);
            assert("vite"@.len() != "next.js"@.len());
            assert("vite"@.len() != "nextjs"@.len());
            assert("vite"@[0] != "next"@[0]);
            assert("vite"@.len() != "react"@.len());
            assert("vite"@.len() != "express"@.len());
            assert("vite"@.len() != "nestjs"@.len());
        }
    }
    if f is FastApi {
        assert(framework_for_alias(lower(trim("FastAPI"@))) == Some(Framework::FastApi)) by {
            reveal_strlit("FastAPI");
            reveal_strlit("fastapi");
            reveal_strlit("next.js");
            reveal_strlit("nextjs");
            reveal_strlit("next");
            reveal_strlit("react");
            reveal_strlit("express");
            reveal_strlit("nestjs");
            reveal_strlit("vite");
            let t = "FastAPI"@;
            assert(trim_start_index(t) == 0);
            assert(trim_end_index(t) == t.len());
            assert(trim(t) =~= t);
            assert(lower(t) =~= "fastapi"@);
            assert("fastapi"@[0] != "next.js"@[0]);
            assert("fastapi"@.len() != "nextjs"@.len());
            assert("fastapi"@.len() != "next"@.len());
            assert("fastapi"@.len() != "react"@.len());
            assert("fastapi"@[0] != "express"@[0]);
            assert("fastapi"@.len() != "nestjs"@.len());
            assert("fastapi"@.len() != "vite"@.len());
        }
    }
    if f is Flask {
        assert(framework_for_alias(lower(trim("Flask"@))) == Some(Framework::Flask)) by {
            reveal_strlit("Flask");
            reveal_strlit("flask");
            reveal_strlit("next.js");
            reveal_strlit("nextjs");
            reveal_strlit("next");
            reveal_strlit("react");
            reveal_strlit("express");
            reveal_strlit("nestjs");
            reveal_strlit("vite");
            reveal_strlit("fastapi");
            let t = "Flask"@;
            assert(trim_start_index(t) == 0);
            assert(trim_end_index(t) == t.len());
            assert(trim(t) =~= t);
            assert(lower(t) =~= "flask"@);
            assert("flask"@.len() != "next.js"@.len());
            assert("flask"@.len() != "nextjs"@.len());
            assert("flask"@.len() != "next"@.len());
            assert("flask"@[0] != "react"@[0]);
            assert("flask"@.len() != "express"@.len());
            assert("flask"@.len() != "nestjs"@.len());
            assert("flask"@.len() != "vite"@.len());
            assert("flask"@.len() != "fastapi"@.len());
        }
    }
    if f is Django {
        assert(framework_for_alias(lower(trim("Django"@))) == Some(Framework::Django)) by {
            reveal_strlit("Django");
            reveal_strlit("django");
            reveal_strlit("next.js");
            reveal_strlit("nextjs");
            reveal_strlit("next");
            reveal_strlit("react");
            reveal_strlit("express");
            reveal_strlit("nestjs");
            reveal_strlit("vite");
            reveal_strlit("fastapi");
            reveal_strlit("flask");
            let t = "Django"@;
            assert(trim_start_index(t) == 0);
            assert(trim_end_index(t) == t.len());
            assert(trim(t) =~= t);
            assert(lower(t) =~= "django"@);
            assert("django"@.len() != "next.js"@.len());
            assert("django"@[0] != "nextjs"@[0]);
            assert("django"@.len() != "next"@.len());
            assert("django"@.len() != "react"@.len());
            assert("django"@.len() != "express"@.len());
            assert("django"@[0] != "nestjs"@[0]);
            assert("django"@.len() != "vite"@.len());
            assert("django"@.len() != "fastapi"@.len());
            assert("django"@.len() != "flask"@.len());
        }
    }
    if f is Axum {
        assert(framework_for_alias(lower(trim("Axum"@))) == Some(Framework::Axum)) by {
            reveal_strlit("Axum");
            reveal_strlit("axum");
            reveal_strlit("next.js");
            reveal_strlit("nextjs");
            reveal_strlit("next");
            reveal_strlit("react");
            reveal_strlit("express");
            reveal_strlit("nestjs");
            reveal_strlit("vite");
            reveal_strlit("fastapi");
            reveal_strlit("flask");
            reveal_strlit("django");
            let t = "Axum"@;
            assert(trim_start_index(t) == 0);
            assert(trim_end_index(t) == t.len());
            assert(trim(t) =~= t);
            assert(lower(t) =~= "axum"@);
            assert("axum"@.len() != "next.js"@.len());
            assert("axum"@.len() != "nextjs"@.len());
            assert("axum"@[0] != "next"@[0]);
            assert("axum"@.len() != "react"@.len());
            assert("axum"@.len() != "express"@.len());
            assert("axum"@.len() != "nestjs"@.len());
            assert("axum"@[0] != "vite"@[0]);
            assert("axum"@.len() != "fastapi"@.len());
            assert("axum"@.len() != "flask"@.len());
            assert("axum"@.len() != "django"@.len());
        }
    }
    if f is Actix {
        assert(framework_for_alias(lower(trim("Actix"@))) == Some(Framework::Actix)) by {
            reveal_strlit("Actix");
            reveal_strlit("actix");
            reveal_strlit("next.js");
            reveal_strlit("nextjs");
            reveal_strlit("next");
            reveal_strlit("react");
            reveal_strlit("express");
            reveal_strlit("nestjs");
            reveal_strlit("vite");
            reveal_strlit("fastapi");
            reveal_strlit("flask");
            reveal_strlit("django");
            reveal_strlit("axum");
            let t = "Actix"@;
            assert(trim_start_index(t) == 0);
            assert(trim_end_index(t) == t.len());
            assert(trim(t) =~= t);
            assert(lower(t) =~= "actix"@);
            assert("actix"@.len() != "next.js"@.len());
            assert("actix"@.len() != "nextjs"@.len());
            assert("actix"@.len() != "next"@.len());
            assert("actix"@[0] != "react"@[0]);
            assert("actix"@.len() != "express"@.len());
            assert("actix"@.len() != "nestjs"@.len());
            assert("actix"@.len() != "vite"@.len());
            assert("actix"@.len() != "fastapi"@.len());
            assert("actix"@[0] != "flask"@[0]);
            assert("actix"@.len() != "django"@.len());
            assert("actix"@.len() != "axum"@.len());
        }
    }
    if f is Rocket {
        assert(framework_for_alias(lower(trim("Rocket"@))) == Some(Framework::Rocket)) by {
            reveal_strlit("Rocket");
            reveal_strlit("rocket");
            reveal_strlit("next.js");
            reveal_strlit("nextjs");
            reveal_strlit("next");
            reveal_strlit("react");
            reveal_strlit("express");
            reveal_strlit("nestjs");
            reveal_strlit("vite");
            reveal_strlit("fastapi");
            reveal_strlit("flask");
            reveal_strlit("django");
            reveal_strlit("axum");
            reveal_strlit("actix");
            reveal_strlit("actix-web");
            let t = "Rocket"@;
            assert(trim_start_index(t) == 0);
            assert(trim_end_index(t) == t.len());
            assert(trim(t) =~= t);
            assert(lower(t) =~= "rocket"@);
            assert("rocket"@.len() != "next.js"@.len());
            assert("rocket"@[0] != "nextjs"@[0]);
            assert("rocket"@.len() != "next"@.len());
            assert("rocket"@.len() != "react"@.len());
            assert("rocket"@.len() != "express"@.len());
            assert("rocket"@[0] != "nestjs"@[0]);
            assert("rocket"@.len() != "vite"@.len());
            assert("rocket"@.len() != "fastapi"@.len());
            assert("rocket"@.len() != "flask"@.len());
            assert("rocket"@[0] != "django"@[0]);
            assert("rocket"@.len() != "axum"@.len());
            assert("rocket"@.len() != "actix"@.len());
            assert("rocket"@.len() != "actix-web"@.len());
        }
    }
}

impl std::str::FromStr for Framework {
    type Err = ();

    fn from_str(s: &str) -> (r: Result<Self, Self::Err>)
        ensures
            r == (match framework_for_alias(lower(trim(s@))) {
                Some(f) => Ok::<Framework, ()>(f),
                None => Err(()),
            }),
    {
        Framework::parse(s)
    }
}

} // verus!
