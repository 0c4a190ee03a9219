//! Import, export and module-reference extraction from source text, and
//! the resolution of import specifiers to repository files.
//!
//! Paths are `/`-separated relative text as the scan produces them; the
//! files of the repository are given as the list of their paths.

use vstd::prelude::*;
use crate::order::views_of;
use crate::paths::{
    concat_chars, file_name_of, normalize, normalize_lexical, parent_chars, parent_of, slice_chars,
    split_char, split_chars, views, with_extension,
};
use crate::repo::entrypoint_detector::with_ext;
use crate::repo::language::Language;
use crate::repo::metadata_detector::list_contains;
use crate::text::{chars_has, chars_of, chars_starts_with, has_char, starts_with, string_from_chars, ends_with, trim, occurs_at};
use crate::repo::models::{Relationship, RelationshipKind, ScanResult, ScannedFile, kind_rank, rels};
use crate::order::{lex_lt, compare_str};
use crate::repo::language_detector::{LanguageDetector, language_of_path};
use crate::pattern::{group_of, groups_view, matches_view, regex_captures, captures, group_at};

verus! {

/// `Path::join` on `/`-separated text: an absolute `b` replaces `a`, and a
/// separator is put between them unless `a` is empty or already ends with
/// one.
pub open spec fn join_path(a: Seq<char>, b: Seq<char>) -> Seq<char> {
    if b.len() > 0 && b[0] == '/' {
        b
    } else if a.len() == 0 {
        b
    } else if a.last() == '/' {
        a + b
    } else {
        a.push('/') + b
    }
}

/// `Path::join` on characters.
pub fn join_path_chars(a: &[char], b: &[char]) -> (r: Vec<char>)
    ensures
        r@ == join_path(a@, b@),
{
    if (b.len() > 0 && b[0] == '/') || a.len() == 0 {
        let r = slice_chars(b, 0, b.len());
        assert(r@ =~= b@);
        r
    } else if a[a.len() - 1] == '/' {
        concat_chars(a, b)
    } else {
        let mut h = slice_chars(a, 0, a.len());
        h.push('/');
        assert(h@ =~= a@.push('/'));
        concat_chars(h.as_slice(), b)
    }
}

/// `str::split("::")`: the parts between non-overlapping `::`, taken from
/// the left.
pub open spec fn split_colons(s: Seq<char>) -> Seq<Seq<char>>
    decreases s.len(),
{
    if s.len() == 0 {
        seq![Seq::<char>::empty()]
    } else if s.len() >= 2 && s[0] == ':' && s[1] == ':' {
        seq![Seq::<char>::empty()] + split_colons(s.subrange(2, s.len() as int))
    } else {
        let rest = split_colons(s.drop_first());
        rest.update(0, seq![s[0]] + rest[0])
    }
}

proof fn lemma_split_colons_nonempty(s: Seq<char>)
    ensures
        split_colons(s).len() >= 1,
    decreases s.len(),
{
    if s.len() >= 2 && s[0] == ':' && s[1] == ':' {
        lemma_split_colons_nonempty(s.subrange(2, s.len() as int));
    } else if s.len() > 0 {
        lemma_split_colons_nonempty(s.drop_first());
    }
}

/// The parts already split off, the part being built, and the split of
/// what is left, put together.
spec fn attach(done: Seq<Seq<char>>, cur: Seq<char>, rest: Seq<Seq<char>>) -> Seq<Seq<char>> {
    done + seq![cur + rest[0]] + rest.drop_first()
}

/// `str::split("::")` on characters.
pub fn split_colons_chars(s: &[char]) -> (r: Vec<Vec<char>>)
    ensures
        views(r@) == split_colons(s@),
{
    let mut done: Vec<Vec<char>> = Vec::new();
    let mut cur: Vec<char> = Vec::new();
    let mut i: usize = 0;
    proof {
        lemma_split_colons_nonempty(s@);
        assert(s@.subrange(0, s@.len() as int) =~= s@);
        assert(attach(views(done@), cur@, split_colons(s@)) =~= split_colons(s@));
    }
    while i < s.len()
        invariant
            i <= s.len(),
            attach(views(done@), cur@, split_colons(s@.subrange(i as int, s@.len() as int))) == split_colons(s@),
        decreases s.len() - i,
    {
        let ghost tail = s@.subrange(i as int, s@.len() as int);
        if i + 1 < s.len() && s[i] == ':' && s[i + 1] == ':' {
            let ghost rest = split_colons(s@.subrange(i + 2, s@.len() as int));
            proof {
                assert(s@.subrange(i as int, s@.len() as int).subrange(2, tail.len() as int) =~= s@.subrange(
                    i + 2,
                    s@.len() as int,
                ));
                lemma_split_colons_nonempty(s@.subrange(i + 2, s@.len() as int));
                assert(split_colons(tail) == seq![Seq::<char>::empty()] + rest);
            }
            let ghost before = views(done@);
            let finished = cur;
            done.push(finished);
            cur = Vec::new();
            proof {
                assert(views(done@) =~= before.push(finished@));
                assert(attach(views(done@), cur@, rest) =~= attach(before, finished@, split_colons(tail)));
            }
            i = i + 2;
        } else {
            let ghost rest = split_colons(s@.subrange(i + 1, s@.len() as int));
            proof {
                assert(tail.drop_first() =~= s@.subrange(i + 1, s@.len() as int));
                lemma_split_colons_nonempty(s@.subrange(i + 1, s@.len() as int));
                assert(split_colons(tail) == rest.update(0, seq![s@[i as int]] + rest[0]));
            }
            let ghost old_cur = cur@;
            cur.push(s[i]);
            proof {
                let x = seq![s@[i as int]] + rest[0];
                assert(cur@ =~= old_cur.push(s@[i as int]));
                assert(cur@ + rest[0] =~= old_cur + x);
                assert(rest.update(0, x).drop_first() =~= rest.drop_first());
                assert(rest.update(0, x)[0] == x);
                assert(attach(views(done@), cur@, rest) =~= attach(views(done@), old_cur, split_colons(tail)));
            }
            i = i + 1;
        }
    }
    proof {
        assert(s@.subrange(i as int, s@.len() as int) =~= Seq::<char>::empty());
    }
    let ghost before = views(done@);
    let last = cur;
    done.push(last);
    proof {
        assert(views(done@) =~= before.push(last@));
        assert(views(done@) =~= attach(before, last@, seq![Seq::<char>::empty()]));
    }
    done
}

/// Whether a text is non-empty.
pub open spec fn nonempty() -> spec_fn(Seq<char>) -> bool {
    |p: Seq<char>| p.len() > 0
}

/// The non-empty parts of a list.
pub fn nonempty_parts(parts: &Vec<Vec<char>>) -> (r: Vec<Vec<char>>)
    ensures
        views(r@) == views(parts@).filter(nonempty()),
{
    let ghost pv = views(parts@);
    let mut out: Vec<Vec<char>> = Vec::new();
    let mut i: usize = 0;
    assert(pv.take(0).filter(nonempty()) =~= Seq::<Seq<char>>::empty());
    while i < parts.len()
        invariant
            i <= parts.len(),
            pv == views(parts@),
            views(out@) == pv.take(i as int).filter(nonempty()),
        decreases parts.len() - i,
    {
        proof {
            pv.take(i as int).lemma_filter_push(pv[i as int], nonempty());
            assert(pv.take(i + 1) =~= pv.take(i as int).push(pv[i as int]));
        }
        if parts[i].len() > 0 {
            let c = slice_chars(parts[i].as_slice(), 0, parts[i].len());
            assert(c@ =~= pv[i as int]);
            let ghost before = views(out@);
            out.push(c);
            assert(views(out@) =~= before.push(pv[i as int]));
        }
        i = i + 1;
    }
    assert(pv.take(pv.len() as int) =~= pv);
    out
}

/// Whether a specifier is an npm scoped package (`@scope/name`, with a
/// non-empty scope).
pub open spec fn is_scoped_spec(s: Seq<char>) -> bool {
    s.len() > 0 && s[0] == '@' && has_char(s.drop_first(), '/') && s.len() > 1 && s[1] != '/'
}

/// Whether a specifier is an npm scoped package (`@scope/name`). Scoped
/// packages are external dependencies, never internal aliases.
pub fn is_scoped_package(specifier: &str) -> (r: bool)
    ensures
        r == is_scoped_spec(specifier@),
{
    let s = chars_of(specifier);
    if s.len() == 0 || s[0] != '@' {
        return false;
    }
    let rest = slice_chars(s.as_slice(), 1, s.len());
    assert(rest@ =~= s@.drop_first());
    chars_has(rest.as_slice(), '/') && s.len() > 1 && s[1] != '/'
}

/// An alias list as text pairs.
pub open spec fn alias_views(a: Seq<(String, String)>) -> Seq<(Seq<char>, Seq<char>)> {
    Seq::new(a.len(), |i: int| (a[i].0@, a[i].1@))
}

/// Whether some alias prefix starts the specifier.
pub open spec fn any_alias_prefix(aliases: Seq<(Seq<char>, Seq<char>)>, s: Seq<char>) -> bool {
    exists|i: int| 0 <= i < aliases.len() && starts_with(s, #[trigger] aliases[i].0)
}

/// Whether an unresolved specifier is worth reporting: only internal
/// attempts (relative paths, aliases, `crate`/`super` paths, relative
/// Python imports), never bare external dependencies.
pub open spec fn reportable_spec(language: Language, s: Seq<char>, aliases: Seq<(Seq<char>, Seq<char>)>) -> bool {
    match language {
        Language::Rust => starts_with(s, "crate::"@) || starts_with(s, "super::"@),
        Language::TypeScript | Language::JavaScript => !is_scoped_spec(s) && (starts_with(s, "./"@)
            || starts_with(s, "../"@) || any_alias_prefix(aliases, s)),
        Language::Python => s.len() > 1 && s[0] == '.',
        _ => false,
    }
}

/// Whether an unresolved specifier is still worth reporting.
pub fn reportable_unresolved(language: Language, specifier: &str, aliases: &Vec<(String, String)>) -> (r: bool)
    ensures
        r == reportable_spec(language, specifier@, alias_views(aliases@)),
{
    let s = chars_of(specifier);
    let s = s.as_slice();
    match language {
        Language::Rust => chars_starts_with(s, chars_of("crate::").as_slice()) || chars_starts_with(
            s,
            chars_of("super::").as_slice(),
        ),
        Language::TypeScript | Language::JavaScript => {
            if is_scoped_package(specifier) {
                return false;
            }
            if chars_starts_with(s, chars_of("./").as_slice()) || chars_starts_with(s, chars_of("../").as_slice()) {
                return true;
            }
            let ghost av = alias_views(aliases@);
            let mut i: usize = 0;
            while i < aliases.len()
                invariant
                    i <= aliases.len(),
                    av == alias_views(aliases@),
                    s@ == specifier@,
                    !is_scoped_spec(specifier@),
                    language == Language::TypeScript || language == Language::JavaScript,
                    !starts_with(s@, "./"@) && !starts_with(s@, "../"@),
                    forall|j: int| 0 <= j < i ==> !starts_with(s@, #[trigger] av[j].0),
                decreases aliases.len() - i,
            {
                let p = chars_of(aliases[i].0.as_str());
                if chars_starts_with(s, p.as_slice()) {
                    assert(p@ == av[i as int].0);
                    assert(starts_with(s@, av[i as int].0));
                    assert(any_alias_prefix(av, specifier@));
                    return true;
                }
                i = i + 1;
            }
            false
        },
        Language::Python => s.len() > 1 && s[0] == '.',
        _ => false,
    }
}

/// `base` with each segment pushed in turn.
pub open spec fn push_all(base: Seq<char>, segs: Seq<Seq<char>>) -> Seq<char>
    decreases segs.len(),
{
    if segs.len() == 0 {
        base
    } else {
        join_path(push_all(base, segs.drop_last()), segs.last())
    }
}

/// The first of the candidates that is a repository file.
pub open spec fn first_file(cands: Seq<Seq<char>>, files: Seq<Seq<char>>) -> Option<Seq<char>>
    decreases cands.len(),
{
    if cands.len() == 0 {
        None
    } else if files.contains(cands[0]) {
        Some(cands[0])
    } else {
        first_file(cands.drop_first(), files)
    }
}

/// The Rust module file for the first `end` segments under `base`:
/// `<path>.rs`, else `<path>/mod.rs`.
pub open spec fn rust_try(base: Seq<char>, segs: Seq<Seq<char>>, end: int, files: Seq<Seq<char>>) -> Option<Seq<char>> {
    let cur = push_all(base, segs.take(end));
    first_file(seq![with_ext(cur, "rs"@), join_path(cur, "mod.rs"@)], files)
}

/// The longest module prefix of at most `end` segments that resolves.
pub open spec fn rust_search(base: Seq<char>, segs: Seq<Seq<char>>, end: int, files: Seq<Seq<char>>) -> Option<Seq<char>>
    decreases end,
{
    if end <= 0 {
        None
    } else {
        match rust_try(base, segs, end, files) {
            Some(f) => Some(f),
            None => rust_search(base, segs, end - 1, files),
        }
    }
}

/// The file a `::`-separated module path names under `base`: the trailing
/// segments may be item names, so the longest prefix that resolves wins.
pub open spec fn rust_module_file(base: Seq<char>, dotted: Seq<char>, files: Seq<Seq<char>>) -> Option<Seq<char>> {
    let segs = split_colons(dotted).filter(nonempty());
    rust_search(base, segs, segs.len() as int, files)
}

/// The number of leading `super::` and what follows them.
pub open spec fn strip_supers(s: Seq<char>) -> (nat, Seq<char>)
    decreases s.len(),
{
    if starts_with(s, "super::"@) && s.len() >= 7 {
        let p = strip_supers(s.subrange(7, s.len() as int));
        ((p.0 + 1) as nat, p.1)
    } else {
        (0, s)
    }
}

/// `base` with `n` trailing segments removed; `None` when it runs out.
pub open spec fn pop_dirs(base: Seq<char>, n: nat) -> Option<Seq<char>>
    decreases n,
{
    if n == 0 {
        Some(base)
    } else {
        match pop_dirs(base, (n - 1) as nat) {
            Some(b) => if b.len() == 0 {
                None
            } else {
                Some(parent_of(b))
            },
            None => None,
        }
    }
}

/// The directory `crate::` names for a file in `source_dir`: `<root>/src`
/// when the file lies there, else the project root.
pub open spec fn rust_crate_root(source_dir: Seq<char>, root: Seq<char>) -> Seq<char> {
    let src = join_path(root, "src"@);
    if crate::paths::path_starts_with(source_dir, src) {
        src
    } else {
        root
    }
}

/// The file a Rust `use`/`mod` specifier names. `super` in a leaf module
/// file refers to its own directory, so there the first `super::` pops
/// nothing; in a `mod.rs` each `super::` pops one directory.
pub open spec fn resolve_rust_spec(
    s: Seq<char>,
    source_dir: Seq<char>,
    is_mod_file: bool,
    root: Seq<char>,
    files: Seq<Seq<char>>,
) -> Option<Seq<char>> {
    if starts_with(s, "crate::"@) {
        rust_module_file(rust_crate_root(source_dir, root), s.subrange(7, s.len() as int), files)
    } else {
        let (sup, rest) = strip_supers(s);
        let pops: nat = if is_mod_file {
            sup
        } else if sup > 0 {
            (sup - 1) as nat
        } else {
            0
        };
        match pop_dirs(source_dir, pops) {
            Some(b) => rust_module_file(b, rest, files),
            None => None,
        }
    }
}

/// The first of the candidates that is a repository file.
pub fn first_file_exec(cands: &Vec<Vec<char>>, files: &Vec<String>) -> (r: Option<Vec<char>>)
    ensures
        match r {
            Some(f) => first_file(views(cands@), views_of(files@)) == Some(f@),
            None => first_file(views(cands@), views_of(files@)) is None,
        },
{
    let ghost cv = views(cands@);
    let ghost fs = views_of(files@);
    let mut i: usize = 0;
    assert(cv.skip(0) =~= cv);
    while i < cands.len()
        invariant
            i <= cands.len(),
            cv == views(cands@),
            fs == views_of(files@),
            first_file(cv, fs) == first_file(cv.skip(i as int), fs),
        decreases cands.len() - i,
    {
        assert(cv.skip(i as int).drop_first() =~= cv.skip(i + 1));
        assert(cv.skip(i as int)[0] == cands@[i as int]@);
        if list_contains(files, cands[i].as_slice()) {
            let c = slice_chars(cands[i].as_slice(), 0, cands[i].len());
            assert(c@ =~= cands@[i as int]@);
            return Some(c);
        }
        i = i + 1;
    }
    assert(cv.skip(i as int) =~= Seq::<Seq<char>>::empty());
    None
}

/// The file a `::`-separated module path names under `base`.
pub fn rust_module_file_exec(base: &[char], dotted: &[char], files: &Vec<String>) -> (r: Option<Vec<char>>)
    ensures
        match r {
            Some(f) => rust_module_file(base@, dotted@, views_of(files@)) == Some(f@),
            None => rust_module_file(base@, dotted@, views_of(files@)) is None,
        },
{
    let parts = split_colons_chars(dotted);
    let segs = nonempty_parts(&parts);
    let ghost sv = views(segs@);
    let ghost fs = views_of(files@);
    assert(sv == split_colons(dotted@).filter(nonempty()));
    let mut end: usize = segs.len();
    while end > 0
        invariant
            end <= segs.len(),
            sv == views(segs@),
            fs == views_of(files@),
            rust_module_file(base@, dotted@, fs) == rust_search(base@, sv, end as int, fs),
        decreases end,
    {
        let mut cur = slice_chars(base, 0, base.len());
        let mut k: usize = 0;
        assert(cur@ =~= base@);
        assert(sv.take(0) =~= Seq::<Seq<char>>::empty());
        while k < end
            invariant
                k <= end <= segs.len(),
                sv == views(segs@),
                cur@ == push_all(base@, sv.take(k as int)),
            decreases end - k,
        {
            let next = join_path_chars(cur.as_slice(), segs[k].as_slice());
            assert(sv.take(k + 1).drop_last() =~= sv.take(k as int));
            assert(sv.take(k + 1).last() == sv[k as int]);
            cur = next;
            k = k + 1;
        }
        let mut cands: Vec<Vec<char>> = Vec::new();
        cands.push(crate::repo::entrypoint_detector::with_ext_exec(cur.as_slice(), "rs"));
        cands.push(join_path_chars(cur.as_slice(), chars_of("mod.rs").as_slice()));
        assert(views(cands@) =~= seq![with_ext(cur@, "rs"@), join_path(cur@, "mod.rs"@)]);
        match first_file_exec(&cands, files) {
            Some(f) => {
                return Some(f);
            },
            None => {},
        }
        end = end - 1;
    }
    None
}

proof fn lemma_strip_supers_len(s: Seq<char>)
    ensures
        strip_supers(s).1.len() + 7 * strip_supers(s).0 == s.len(),
    decreases s.len(),
{
    if starts_with(s, "super::"@) && s.len() >= 7 {
        lemma_strip_supers_len(s.subrange(7, s.len() as int));
    }
}

/// The file a Rust specifier names, from a file in `source_dir` (a
/// `mod.rs` when `is_mod_file`) of the project rooted at `root`.
pub fn resolve_rust(specifier: &str, source_dir: &str, is_mod_file: bool, root: &str, files: &Vec<String>) -> (r: Option<String>)
    ensures
        match r {
            Some(f) => resolve_rust_spec(specifier@, source_dir@, is_mod_file, root@, views_of(files@)) == Some(f@),
            None => resolve_rust_spec(specifier@, source_dir@, is_mod_file, root@, views_of(files@)) is None,
        },
{
    let s = chars_of(specifier);
    let sd = chars_of(source_dir);
    let found = if chars_starts_with(s.as_slice(), chars_of("crate::").as_slice()) {
        let rc = chars_of(root);
        let src = join_path_chars(rc.as_slice(), chars_of("src").as_slice());
        let base = if crate::paths::starts_with_path(sd.as_slice(), src.as_slice()) {
            src
        } else {
            rc
        };
        proof {
            reveal_strlit("crate::");
        }
        let rest = slice_chars(s.as_slice(), 7, s.len());
        rust_module_file_exec(base.as_slice(), rest.as_slice(), files)
    } else {
        let mut rest = slice_chars(s.as_slice(), 0, s.len());
        let mut sup: usize = 0;
        let sp = chars_of("super::");
        assert(rest@ =~= s@);
        while chars_starts_with(rest.as_slice(), sp.as_slice()) && rest.len() >= 7
            invariant
                sp@ == "super::"@,
                rest@.len() + 7 * sup == s@.len(),
                strip_supers(s@) == ((strip_supers(rest@).0 + sup) as nat, strip_supers(rest@).1),
            decreases rest.len(),
        {
            let next = slice_chars(rest.as_slice(), 7, rest.len());
            let total = s.len();
            assert(sup + 1 <= total);
            rest = next;
            sup = sup + 1;
        }
        let pops: usize = if is_mod_file {
            sup
        } else if sup > 0 {
            sup - 1
        } else {
            0
        };
        let mut base = slice_chars(sd.as_slice(), 0, sd.len());
        assert(base@ =~= sd@);
        let mut n: usize = 0;
        let mut ok = true;
        while n < pops
            invariant
                n <= pops,
                ok ==> pop_dirs(sd@, n as nat) == Some(base@),
                !ok ==> pop_dirs(sd@, n as nat) is None,
            decreases pops - n,
        {
            if ok {
                if base.len() == 0 {
                    ok = false;
                } else {
                    base = parent_chars(base.as_slice());
                }
            }
            n = n + 1;
        }
        if ok {
            rust_module_file_exec(base.as_slice(), rest.as_slice(), files)
        } else {
            None
        }
    };
    match found {
        Some(f) => Some(string_from_chars(f.as_slice())),
        None => None,
    }
}

/// The first alias whose prefix starts the specifier; with `skip_at`, the
/// bare `@` alias is passed over.
pub open spec fn first_alias(aliases: Seq<(Seq<char>, Seq<char>)>, s: Seq<char>, skip_at: bool) -> Option<(Seq<char>, Seq<char>)>
    decreases aliases.len(),
{
    if aliases.len() == 0 {
        None
    } else if starts_with(s, aliases[0].0) && !(skip_at && aliases[0].0 == "@"@) {
        Some(aliases[0])
    } else {
        first_alias(aliases.drop_first(), s, skip_at)
    }
}

/// The path an alias maps a specifier to: the rest after the prefix (one
/// leading `/` dropped), under the alias directory of the project root.
pub open spec fn aliased(a: (Seq<char>, Seq<char>), s: Seq<char>, root: Seq<char>) -> Seq<char> {
    let rest = s.subrange(a.0.len() as int, s.len() as int);
    let rest2 = if rest.len() > 0 && rest[0] == '/' {
        rest.drop_first()
    } else {
        rest
    };
    normalize(join_path(join_path(root, a.1), rest2))
}

/// The base path a JavaScript/TypeScript specifier names before the
/// extension and `index` probes; `None` for external modules.
pub open spec fn js_base(s: Seq<char>, source_dir: Seq<char>, root: Seq<char>, aliases: Seq<(Seq<char>, Seq<char>)>) -> Option<Seq<char>> {
    if starts_with(s, "./"@) || starts_with(s, "../"@) {
        Some(normalize(join_path(source_dir, s)))
    } else if (s.len() > 0 && s[0] == '/') || has_char(s, ':') || (!has_char(s, '.') && !has_char(s, '/') && !(s.len()
        > 0 && s[0] == '@')) {
        match first_alias(aliases, s, false) {
            Some(a) => Some(aliased(a, s, root)),
            None => None,
        }
    } else {
        match first_alias(aliases, s, is_scoped_spec(s)) {
            Some(a) => Some(aliased(a, s, root)),
            None => None,
        }
    }
}

/// The probes for a JavaScript/TypeScript module: the path itself, then
/// each script extension, then an `index` file of each extension.
pub open spec fn js_probes(base: Seq<char>) -> Seq<Seq<char>> {
    seq![
        base,
        with_ext(base, "ts"@),
        with_ext(base, "tsx"@),
        with_ext(base, "js"@),
        with_ext(base, "jsx"@),
        with_ext(base, "mjs"@),
        with_ext(base, "cjs"@),
        join_path(base, "index.ts"@),
        join_path(base, "index.tsx"@),
        join_path(base, "index.js"@),
        join_path(base, "index.jsx"@),
        join_path(base, "index.mjs"@),
        join_path(base, "index.cjs"@),
    ]
}

/// The file a JavaScript/TypeScript specifier names.
pub open spec fn resolve_js_spec(
    s: Seq<char>,
    source_dir: Seq<char>,
    root: Seq<char>,
    files: Seq<Seq<char>>,
    aliases: Seq<(Seq<char>, Seq<char>)>,
) -> Option<Seq<char>> {
    match js_base(s, source_dir, root, aliases) {
        Some(b) => first_file(js_probes(b), files),
        None => None,
    }
}

/// How a relative JavaScript/TypeScript specifier resolves: its path `b`,
/// joined to the importing file's directory and normalised, names the first
/// of these that is a file: `b` itself, then `b` with the extension `ts`,
/// `tsx`, `js`, `jsx`, `mjs`, `cjs`, then `index` with those extensions in
/// the directory `b`; when none is a file the import stays unresolved.
pub proof fn law_js_relative_resolution(
    s: Seq<char>,
    dir: Seq<char>,
    root: Seq<char>,
    files: Seq<Seq<char>>,
    aliases: Seq<(Seq<char>, Seq<char>)>,
    b: Seq<char>,
)
    requires
        starts_with(s, "./"@) || starts_with(s, "../"@),
        b == normalize(join_path(dir, s)),
    ensures
        files.contains(b)
            ==> resolve_js_spec(s, dir, root, files, aliases) == Some(b),
        !files.contains(b) && files.contains(with_ext(b, "ts"@))
            ==> resolve_js_spec(s, dir, root, files, aliases) == Some(with_ext(b, "ts"@)),
        !files.contains(b) && !files.contains(with_ext(b, "ts"@)) && files.contains(with_ext(b, "tsx"@))
            ==> resolve_js_spec(s, dir, root, files, aliases) == Some(with_ext(b, "tsx"@)),
        !files.contains(b) && !files.contains(with_ext(b, "ts"@)) && !files.contains(with_ext(b, "tsx"@)) && files.contains(with_ext(b, "js"@))
            ==> resolve_js_spec(s, dir, root, files, aliases) == Some(with_ext(b, "js"@)),
        !files.contains(b) && !files.contains(with_ext(b, "ts"@)) && !files.contains(with_ext(b, "tsx"@)) && !files.contains(with_ext(b, "js"@)) && files.contains(with_ext(b, "jsx"@))
            ==> resolve_js_spec(s, dir, root, files, aliases) == Some(with_ext(b, "jsx"@)),
        !files.contains(b) && !files.contains(with_ext(b, "ts"@)) && !files.contains(with_ext(b, "tsx"@)) && !files.contains(with_ext(b, "js"@)) && !files.contains(with_ext(b, "jsx"@)) && files.contains(with_ext(b, "mjs"@))
            ==> resolve_js_spec(s, dir, root, files, aliases) == Some(with_ext(b, "mjs"@)),
        !files.contains(b) && !files.contains(with_ext(b, "ts"@)) && !files.contains(with_ext(b, "tsx"@)) && !files.contains(with_ext(b, "js"@)) && !files.contains(with_ext(b, "jsx"@)) && !files.contains(with_ext(b, "mjs"@)) && files.contains(with_ext(b, "cjs"@))
            ==> resolve_js_spec(s, dir, root, files, aliases) == Some(with_ext(b, "cjs"@)),
        !files.contains(b) && !files.contains(with_ext(b, "ts"@)) && !files.contains(with_ext(b, "tsx"@)) && !files.contains(with_ext(b, "js"@)) && !files.contains(with_ext(b, "jsx"@)) && !files.contains(with_ext(b, "mjs"@)) && !files.contains(with_ext(b, "cjs"@)) && files.contains(join_path(b, "index.ts"@))
            ==> resolve_js_spec(s, dir, root, files, aliases) == Some(join_path(b, "index.ts"@)),
        !files.contains(b) && !files.contains(with_ext(b, "ts"@)) && !files.contains(with_ext(b, "tsx"@)) && !files.contains(with_ext(b, "js"@)) && !files.contains(with_ext(b, "jsx"@)) && !files.contains(with_ext(b, "mjs"@)) && !files.contains(with_ext(b, "cjs"@)) && !files.contains(join_path(b, "index.ts"@)) && files.contains(join_path(b, "index.tsx"@))
            ==> resolve_js_spec(s, dir, root, files, aliases) == Some(join_path(b, "index.tsx"@)),
        !files.contains(b) && !files.contains(with_ext(b, "ts"@)) && !files.contains(with_ext(b, "tsx"@)) && !files.contains(with_ext(b, "js"@)) && !files.contains(with_ext(b, "jsx"@)) && !files.contains(with_ext(b, "mjs"@)) && !files.contains(with_ext(b, "cjs"@)) && !files.contains(join_path(b, "index.ts"@)) && !files.contains(join_path(b, "index.tsx"@)) && files.contains(join_path(b, "index.js"@))
            ==> resolve_js_spec(s, dir, root, files, aliases) == Some(join_path(b, "index.js"@)),
        !files.contains(b) && !files.contains(with_ext(b, "ts"@)) && !files.contains(with_ext(b, "tsx"@)) && !files.contains(with_ext(b, "js"@)) && !files.contains(with_ext(b, "jsx"@)) && !files.contains(with_ext(b, "mjs"@)) && !files.contains(with_ext(b, "cjs"@)) && !files.contains(join_path(b, "index.ts"@)) && !files.contains(join_path(b, "index.tsx"@)) && !files.contains(join_path(b, "index.js"@)) && files.contains(join_path(b, "index.jsx"@))
            ==> resolve_js_spec(s, dir, root, files, aliases) == Some(join_path(b, "index.jsx"@)),
        !files.contains(b) && !files.contains(with_ext(b, "ts"@)) && !files.contains(with_ext(b, "tsx"@)) && !files.contains(with_ext(b, "js"@)) && !files.contains(with_ext(b, "jsx"@)) && !files.contains(with_ext(b, "mjs"@)) && !files.contains(with_ext(b, "cjs"@)) && !files.contains(join_path(b, "index.ts"@)) && !files.contains(join_path(b, "index.tsx"@)) && !files.contains(join_path(b, "index.js"@)) && !files.contains(join_path(b, "index.jsx"@)) && files.contains(join_path(b, "index.mjs"@))
            ==> resolve_js_spec(s, dir, root, files, aliases) == Some(join_path(b, "index.mjs"@)),
        !files.contains(b) && !files.contains(with_ext(b, "ts"@)) && !files.contains(with_ext(b, "tsx"@)) && !files.contains(with_ext(b, "js"@)) && !files.contains(with_ext(b, "jsx"@)) && !files.contains(with_ext(b, "mjs"@)) && !files.contains(with_ext(b, "cjs"@)) && !files.contains(join_path(b, "index.ts"@)) && !files.contains(join_path(b, "index.tsx"@)) && !files.contains(join_path(b, "index.js"@)) && !files.contains(join_path(b, "index.jsx"@)) && !files.contains(join_path(b, "index.mjs"@)) && files.contains(join_path(b, "index.cjs"@))
            ==> resolve_js_spec(s, dir, root, files, aliases) == Some(join_path(b, "index.cjs"@)),
        !files.contains(b) && !files.contains(with_ext(b, "ts"@)) && !files.contains(with_ext(b, "tsx"@)) && !files.contains(with_ext(b, "js"@)) && !files.contains(with_ext(b, "jsx"@)) && !files.contains(with_ext(b, "mjs"@)) && !files.contains(with_ext(b, "cjs"@)) && !files.contains(join_path(b, "index.ts"@)) && !files.contains(join_path(b, "index.tsx"@)) && !files.contains(join_path(b, "index.js"@)) && !files.contains(join_path(b, "index.jsx"@)) && !files.contains(join_path(b, "index.mjs"@)) && !files.contains(join_path(b, "index.cjs"@))
            ==> resolve_js_spec(s, dir, root, files, aliases) is None,
{
    reveal_with_fuel(first_file, 14);
    let p = js_probes(b);
    assert(js_base(s, dir, root, aliases) == Some(b));
    assert(p.skip(0)[0] == p[0]);
    assert(p.skip(1)[0] == p[1]);
    assert(p.skip(2)[0] == p[2]);
    assert(p.skip(3)[0] == p[3]);
    assert(p.skip(4)[0] == p[4]);
    assert(p.skip(5)[0] == p[5]);
    assert(p.skip(6)[0] == p[6]);
    assert(p.skip(7)[0] == p[7]);
    assert(p.skip(8)[0] == p[8]);
    assert(p.skip(9)[0] == p[9]);
    assert(p.skip(10)[0] == p[10]);
    assert(p.skip(11)[0] == p[11]);
    assert(p.skip(12)[0] == p[12]);
    assert(p.drop_first() =~= p.skip(1));
}

/// The first alias whose prefix starts the specifier.
fn first_alias_exec(aliases: &Vec<(String, String)>, s: &[char], skip_at: bool) -> (r: Option<usize>)
    ensures
        match r {
            Some(i) => i < aliases.len() && first_alias(alias_views(aliases@), s@, skip_at) == Some(
                alias_views(aliases@)[i as int],
            ),
            None => first_alias(alias_views(aliases@), s@, skip_at) is None,
        },
{
    let ghost av = alias_views(aliases@);
    let mut i: usize = 0;
    assert(av.skip(0) =~= av);
    while i < aliases.len()
        invariant
            i <= aliases.len(),
            av == alias_views(aliases@),
            first_alias(av, s@, skip_at) == first_alias(av.skip(i as int), s@, skip_at),
        decreases aliases.len() - i,
    {
        assert(av.skip(i as int).drop_first() =~= av.skip(i + 1));
        assert(av.skip(i as int)[0] == av[i as int]);
        let p = chars_of(aliases[i].0.as_str());
        let at = chars_of("@");
        if chars_starts_with(s, p.as_slice()) && !(skip_at && crate::text::chars_eq(p.as_slice(), at.as_slice())) {
            return Some(i);
        }
        i = i + 1;
    }
    assert(av.skip(i as int) =~= Seq::<(Seq<char>, Seq<char>)>::empty());
    None
}

fn aliased_exec(a: &(String, String), s: &[char], root: &[char]) -> (r: Vec<char>)
    requires
        starts_with(s@, a.0@),
    ensures
        r@ == aliased((a.0@, a.1@), s@, root@),
{
    let p = chars_of(a.0.as_str());
    let rest = slice_chars(s, p.len(), s.len());
    let rest2 = if rest.len() > 0 && rest[0] == '/' {
        let r2 = slice_chars(rest.as_slice(), 1, rest.len());
        assert(r2@ =~= rest@.drop_first());
        r2
    } else {
        rest
    };
    let d = chars_of(a.1.as_str());
    let dir = join_path_chars(root, d.as_slice());
    let joined = join_path_chars(dir.as_slice(), rest2.as_slice());
    let n = normalize_lexical(string_from_chars(joined.as_slice()).as_str());
    chars_of(n.as_str())
}

/// The file a JavaScript/TypeScript specifier names, from a file in
/// `source_dir` of the project rooted at `root`.
pub fn resolve_javascript(
    specifier: &str,
    source_dir: &str,
    root: &str,
    files: &Vec<String>,
    aliases: &Vec<(String, String)>,
) -> (r: Option<String>)
    ensures
        match r {
            Some(f) => resolve_js_spec(specifier@, source_dir@, root@, views_of(files@), alias_views(aliases@)) == Some(f@),
            None => resolve_js_spec(specifier@, source_dir@, root@, views_of(files@), alias_views(aliases@)) is None,
        },
{
    let s = chars_of(specifier);
    let s = s.as_slice();
    let rc = chars_of(root);
    let base: Option<Vec<char>> = if chars_starts_with(s, chars_of("./").as_slice()) || chars_starts_with(
        s,
        chars_of("../").as_slice(),
    ) {
        let sd = chars_of(source_dir);
        let j = join_path_chars(sd.as_slice(), s);
        let n = normalize_lexical(string_from_chars(j.as_slice()).as_str());
        Some(chars_of(n.as_str()))
    } else {
        let bare = (s.len() > 0 && s[0] == '/') || chars_has(s, ':') || (!chars_has(s, '.') && !chars_has(s, '/')
            && !(s.len() > 0 && s[0] == '@'));
        let skip_at = if bare {
            false
        } else {
            is_scoped_package(specifier)
        };
        match first_alias_exec(aliases, s, skip_at) {
            Some(i) => {
                proof {
                    let av = alias_views(aliases@);
                    assert(av[i as int] == (aliases@[i as int].0@, aliases@[i as int].1@));
                    lemma_first_alias_starts(av, s@, skip_at);
                }
                Some(aliased_exec(&aliases[i], s, rc.as_slice()))
            },
            None => None,
        }
    };
    match base {
        Some(b) => {
            let bs = b.as_slice();
            let mut probes: Vec<Vec<char>> = Vec::new();
            probes.push(slice_chars(bs, 0, bs.len()));
            probes.push(crate::repo::entrypoint_detector::with_ext_exec(bs, "ts"));
            probes.push(crate::repo::entrypoint_detector::with_ext_exec(bs, "tsx"));
            probes.push(crate::repo::entrypoint_detector::with_ext_exec(bs, "js"));
            probes.push(crate::repo::entrypoint_detector::with_ext_exec(bs, "jsx"));
            probes.push(crate::repo::entrypoint_detector::with_ext_exec(bs, "mjs"));
            probes.push(crate::repo::entrypoint_detector::with_ext_exec(bs, "cjs"));
            probes.push(join_path_chars(bs, chars_of("index.ts").as_slice()));
            probes.push(join_path_chars(bs, chars_of("index.tsx").as_slice()));
            probes.push(join_path_chars(bs, chars_of("index.js").as_slice()));
            probes.push(join_path_chars(bs, chars_of("index.jsx").as_slice()));
            probes.push(join_path_chars(bs, chars_of("index.mjs").as_slice()));
            probes.push(join_path_chars(bs, chars_of("index.cjs").as_slice()));
            assert(b@.subrange(0, b@.len() as int) =~= b@);
            assert(views(probes@) =~= js_probes(b@));
            match first_file_exec(&probes, files) {
                Some(f) => Some(string_from_chars(f.as_slice())),
                None => None,
            }
        },
        None => None,
    }
}

proof fn lemma_first_alias_starts(aliases: Seq<(Seq<char>, Seq<char>)>, s: Seq<char>, skip_at: bool)
    ensures
        first_alias(aliases, s, skip_at) matches Some(a) ==> starts_with(s, a.0),
    decreases aliases.len(),
{
    if aliases.len() > 0 {
        lemma_first_alias_starts(aliases.drop_first(), s, skip_at);
    }
}

/// The number of leading `.` of a text.
pub open spec fn leading_dots(s: Seq<char>) -> nat
    decreases s.len(),
{
    if s.len() > 0 && s[0] == '.' {
        1 + leading_dots(s.drop_first())
    } else {
        0
    }
}

/// A Python import specifier: its number of leading dots and the dotted
/// module after them (`None` when nothing follows, as in `from . import x`).
pub open spec fn py_parse(s: Seq<char>) -> (nat, Option<Seq<char>>) {
    let t = crate::text::trim(s);
    let d = leading_dots(t);
    let m = crate::text::trim(t.subrange(d as int, t.len() as int));
    (d, if m.len() == 0 {
        None
    } else {
        Some(m)
    })
}

proof fn lemma_leading_dots(s: Seq<char>)
    ensures
        leading_dots(s) <= s.len(),
        forall|i: int| 0 <= i < leading_dots(s) ==> s[i] == '.',
        leading_dots(s) < s.len() ==> s[leading_dots(s) as int] != '.',
    decreases s.len(),
{
    if s.len() > 0 && s[0] == '.' {
        lemma_leading_dots(s.drop_first());
        assert forall|i: int| 0 <= i < leading_dots(s) implies s[i] == '.' by {
            if i > 0 {
                assert(s[i] == s.drop_first()[i - 1]);
            }
        }
        if leading_dots(s) < s.len() {
            assert(s[leading_dots(s) as int] == s.drop_first()[leading_dots(s) - 1]);
        }
    }
}

proof fn lemma_leading_dots_at(s: Seq<char>, k: int)
    requires
        0 <= k <= s.len(),
        forall|i: int| 0 <= i < k ==> s[i] == '.',
        k < s.len() ==> s[k] != '.',
    ensures
        leading_dots(s) == k,
    decreases s.len(),
{
    if k > 0 {
        assert forall|i: int| 0 <= i < k - 1 implies s.drop_first()[i] == '.' by {
            assert(s.drop_first()[i] == s[i + 1]);
        }
        if k < s.len() {
            assert(s.drop_first()[k - 1] == s[k]);
        }
        lemma_leading_dots_at(s.drop_first(), k - 1);
    }
}

/// A parsed Python import specifier.
pub struct PyImport {
    /// The number of leading dots.
    pub level: usize,
    /// The dotted module after the dots, if any.
    pub module: Option<String>,
}

/// Parses a Python import specifier into its level and module.
pub fn parse_py_specifier(spec: &str) -> (r: PyImport)
    ensures
        r.level == py_parse(spec@).0,
        match r.module {
            Some(m) => py_parse(spec@).1 == Some(m@),
            None => py_parse(spec@).1 is None,
        },
{
    let c = chars_of(spec);
    let t = crate::text::trim_chars(c.as_slice());
    let mut d: usize = 0;
    while d < t.len() && t[d] == '.'
        invariant
            d <= t.len(),
            forall|i: int| 0 <= i < d ==> t@[i] == '.',
        decreases t.len() - d,
    {
        d = d + 1;
    }
    proof {
        lemma_leading_dots_at(t@, d as int);
    }
    let rest = slice_chars(t.as_slice(), d, t.len());
    let m = crate::text::trim_chars(rest.as_slice());
    PyImport {
        level: d,
        module: if m.len() == 0 {
            None
        } else {
            Some(string_from_chars(m.as_slice()))
        },
    }
}

/// The Python package directory of a file in `dir`: the nearest directory,
/// from `dir` upwards, that holds an `__init__.py`; the top when none does.
pub open spec fn py_package_dir(dir: Seq<char>, files: Seq<Seq<char>>) -> Seq<char>
    decreases dir.len(),
{
    if files.contains(join_path(dir, "__init__.py"@)) || dir.len() == 0 {
        dir
    } else {
        proof {
            crate::paths::lemma_last_index_of(dir, '/');
        }
        py_package_dir(parent_of(dir), files)
    }
}

/// Walks the dotted segments from `i` under `cur`: every intermediate
/// segment must be a package (`__init__.py`); the last is a module file or
/// a package.
pub open spec fn py_walk(cur: Seq<char>, segs: Seq<Seq<char>>, i: int, files: Seq<Seq<char>>) -> Option<Seq<char>>
    decreases segs.len() - i,
{
    if i < 0 || i >= segs.len() {
        None
    } else {
        let c = join_path(cur, segs[i]);
        if i == segs.len() - 1 {
            first_file(seq![with_ext(c, "py"@), join_path(c, "__init__.py"@)], files)
        } else if !files.contains(join_path(c, "__init__.py"@)) {
            None
        } else {
            py_walk(c, segs, i + 1, files)
        }
    }
}

/// The file a dotted Python module path names under `dir`.
pub open spec fn py_module_file(dir: Seq<char>, dotted: Seq<char>, files: Seq<Seq<char>>) -> Option<Seq<char>> {
    py_walk(dir, split_char(dotted, '.').filter(nonempty()), 0, files)
}

/// The file a Python import specifier names from a file in `source_dir` of
/// the project rooted at `root`: relative imports climb from the package
/// directory, absolute ones start at the project root.
pub open spec fn resolve_py_spec(s: Seq<char>, source_dir: Seq<char>, root: Seq<char>, files: Seq<Seq<char>>) -> Option<Seq<char>> {
    let (level, module) = py_parse(s);
    let m = match module {
        Some(m) => m,
        None => Seq::empty(),
    };
    if level > 0 {
        match pop_dirs(py_package_dir(source_dir, files), (level - 1) as nat) {
            Some(d) => py_module_file(d, m, files),
            None => None,
        }
    } else {
        py_module_file(root, m, files)
    }
}

fn py_package_dir_exec(dir: &[char], files: &Vec<String>) -> (r: Vec<char>)
    ensures
        r@ == py_package_dir(dir@, views_of(files@)),
{
    let mut base = slice_chars(dir, 0, dir.len());
    assert(base@ =~= dir@);
    loop
        invariant
            py_package_dir(dir@, views_of(files@)) == py_package_dir(base@, views_of(files@)),
        decreases base.len(),
    {
        let init = join_path_chars(base.as_slice(), chars_of("__init__.py").as_slice());
        if list_contains(files, init.as_slice()) || base.len() == 0 {
            return base;
        }
        proof {
            crate::paths::lemma_last_index_of(base@, '/');
        }
        base = parent_chars(base.as_slice());
    }
}

fn py_module_file_exec(dir: &[char], dotted: &[char], files: &Vec<String>) -> (r: Option<Vec<char>>)
    ensures
        match r {
            Some(f) => py_module_file(dir@, dotted@, views_of(files@)) == Some(f@),
            None => py_module_file(dir@, dotted@, views_of(files@)) is None,
        },
{
    let parts = split_chars(dotted, '.');
    let segs = nonempty_parts(&parts);
    let ghost sv = views(segs@);
    let ghost fs = views_of(files@);
    let mut cur = slice_chars(dir, 0, dir.len());
    assert(cur@ =~= dir@);
    let mut i: usize = 0;
    while i < segs.len()
        invariant
            i <= segs.len(),
            sv == views(segs@),
            fs == views_of(files@),
            py_module_file(dir@, dotted@, fs) == py_walk(cur@, sv, i as int, fs),
        decreases segs.len() - i,
    {
        let c = join_path_chars(cur.as_slice(), segs[i].as_slice());
        let init = join_path_chars(c.as_slice(), chars_of("__init__.py").as_slice());
        if i == segs.len() - 1 {
            let mut cands: Vec<Vec<char>> = Vec::new();
            cands.push(crate::repo::entrypoint_detector::with_ext_exec(c.as_slice(), "py"));
            cands.push(init);
            assert(views(cands@) =~= seq![with_ext(c@, "py"@), join_path(c@, "__init__.py"@)]);
            return first_file_exec(&cands, files);
        }
        if !list_contains(files, init.as_slice()) {
            return None;
        }
        cur = c;
        i = i + 1;
    }
    None
}

/// The file a Python specifier names, from a file in `source_dir` of the
/// project rooted at `root`.
pub fn resolve_python(specifier: &str, source_dir: &str, root: &str, files: &Vec<String>) -> (r: Option<String>)
    ensures
        match r {
            Some(f) => resolve_py_spec(specifier@, source_dir@, root@, views_of(files@)) == Some(f@),
            None => resolve_py_spec(specifier@, source_dir@, root@, views_of(files@)) is None,
        },
{
    let parsed = parse_py_specifier(specifier);
    let m: Vec<char> = match &parsed.module {
        Some(x) => chars_of(x.as_str()),
        None => Vec::new(),
    };
    let found = if parsed.level > 0 {
        let sd = chars_of(source_dir);
        let mut dir = py_package_dir_exec(sd.as_slice(), files);
        let mut n: usize = 1;
        let mut ok = true;
        assert(pop_dirs(py_package_dir(sd@, views_of(files@)), 0) == Some(dir@));
        while n < parsed.level
            invariant
                1 <= n <= parsed.level,
                ok ==> pop_dirs(py_package_dir(sd@, views_of(files@)), (n - 1) as nat) == Some(dir@),
                !ok ==> pop_dirs(py_package_dir(sd@, views_of(files@)), (n - 1) as nat) is None,
            decreases parsed.level - n,
        {
            if ok {
                if dir.len() == 0 {
                    ok = false;
                } else {
                    dir = parent_chars(dir.as_slice());
                }
            }
            n = n + 1;
        }
        if ok {
            py_module_file_exec(dir.as_slice(), m.as_slice(), files)
        } else {
            None
        }
    } else {
        let rc = chars_of(root);
        py_module_file_exec(rc.as_slice(), m.as_slice(), files)
    };
    match found {
        Some(f) => Some(string_from_chars(f.as_slice())),
        None => None,
    }
}

/// The index of the first `c` in `s`, or `-1`.
pub open spec fn first_index_of(s: Seq<char>, c: char) -> int
    decreases s.len(),
{
    if s.len() == 0 {
        -1
    } else if s[0] == c {
        0
    } else {
        let k = first_index_of(s.drop_first(), c);
        if k < 0 {
            -1
        } else {
            k + 1
        }
    }
}

proof fn lemma_first_index_of(s: Seq<char>, c: char)
    ensures
        -1 <= first_index_of(s, c) < s.len(),
        first_index_of(s, c) >= 0 ==> s[first_index_of(s, c)] == c,
        forall|i: int| 0 <= i < s.len() && (first_index_of(s, c) < 0 || i < first_index_of(s, c)) ==> s[i] != c,
    decreases s.len(),
{
    if s.len() > 0 && s[0] != c {
        lemma_first_index_of(s.drop_first(), c);
        assert forall|i: int| 0 <= i < s.len() && (first_index_of(s, c) < 0 || i < first_index_of(s, c)) implies s[i] != c by {
            if i > 0 {
                assert(s[i] == s.drop_first()[i - 1]);
            }
        }
        if first_index_of(s, c) >= 0 {
            assert(s[first_index_of(s, c)] == s.drop_first()[first_index_of(s.drop_first(), c)]);
        }
    }
}

fn first_index_exec(s: &[char], c: char) -> (r: Option<usize>)
    ensures
        match r {
            Some(k) => k == first_index_of(s@, c) && k < s.len(),
            None => first_index_of(s@, c) < 0,
        },
{
    proof {
        lemma_first_index_of(s@, c);
    }
    let mut i: usize = 0;
    while i < s.len()
        invariant
            i <= s.len(),
            forall|j: int| 0 <= j < i ==> s@[j] != c,
            -1 <= first_index_of(s@, c) < s@.len(),
            first_index_of(s@, c) >= 0 ==> s@[first_index_of(s@, c)] == c,
            forall|j: int| 0 <= j < s@.len() && (first_index_of(s@, c) < 0 || j < first_index_of(s@, c)) ==> s@[j] != c,
        decreases s.len() - i,
    {
        if s[i] == c {
            return Some(i);
        }
        i = i + 1;
    }
    None
}

/// The index of the `}` that closes the brace group being scanned at `j`
/// with `depth` groups open; `None` when it is never closed.
pub open spec fn scan_close(s: Seq<char>, j: int, depth: nat) -> Option<int>
    decreases s.len() - j,
{
    if j < 0 || j >= s.len() {
        None
    } else if s[j] == '{' {
        scan_close(s, j + 1, depth + 1)
    } else if s[j] == '}' {
        if depth == 0 {
            None
        } else if depth == 1 {
            Some(j)
        } else {
            scan_close(s, j + 1, (depth - 1) as nat)
        }
    } else {
        scan_close(s, j + 1, depth)
    }
}

proof fn lemma_scan_close(s: Seq<char>, j: int, depth: nat)
    ensures
        scan_close(s, j, depth) matches Some(k) ==> j <= k < s.len() && s[k] == '}',
    decreases s.len() - j,
{
    if 0 <= j < s.len() {
        if s[j] == '{' {
            lemma_scan_close(s, j + 1, depth + 1);
        } else if s[j] == '}' {
            if depth > 1 {
                lemma_scan_close(s, j + 1, (depth - 1) as nat);
            }
        } else {
            lemma_scan_close(s, j + 1, depth);
        }
    }
}

/// The first brace group of a text, as (text before it, text inside it,
/// text after it); `None` when there is no `{` or the first one is never
/// closed.
pub open spec fn brace_group(s: Seq<char>) -> Option<(Seq<char>, Seq<char>, Seq<char>)> {
    let open = first_index_of(s, '{');
    if open < 0 {
        None
    } else {
        match scan_close(s, open, 0) {
            Some(close) => Some((s.take(open), s.subrange(open + 1, close), s.subrange(close + 1, s.len() as int))),
            None => None,
        }
    }
}

/// The first brace group of a text, split into before, inside and after.
pub fn first_brace_group(s: &str) -> (r: Option<(String, String, String)>)
    ensures
        match r {
            Some(g) => brace_group(s@) == Some((g.0@, g.1@, g.2@)),
            None => brace_group(s@) is None,
        },
{
    match brace_group_chars(chars_of(s).as_slice()) {
        Some(g) => Some((string_from_chars(g.0.as_slice()), string_from_chars(g.1.as_slice()), string_from_chars(g.2.as_slice()))),
        None => None,
    }
}

fn brace_group_chars(s: &[char]) -> (r: Option<(Vec<char>, Vec<char>, Vec<char>)>)
    ensures
        match r {
            Some(g) => brace_group(s@) == Some((g.0@, g.1@, g.2@)),
            None => brace_group(s@) is None,
        },
{
    let open = match first_index_exec(s, '{') {
        Some(k) => k,
        None => {
            return None;
        },
    };
    let mut j: usize = open;
    let mut depth: usize = 0;
    let mut close: Option<usize> = None;
    while j < s.len()
        invariant_except_break
            open <= j <= s.len(),
            depth <= j - open,
            close is None,
            scan_close(s@, open as int, 0) == scan_close(s@, j as int, depth as nat),
        ensures
            match close {
                Some(k) => scan_close(s@, open as int, 0) == Some(k as int),
                None => scan_close(s@, open as int, 0) is None,
            },
        decreases s.len() - j,
    {
        if s[j] == '{' {
            depth = depth + 1;
        } else if s[j] == '}' {
            if depth == 0 {
                break;
            }
            if depth == 1 {
                close = Some(j);
                break;
            }
            depth = depth - 1;
        }
        j = j + 1;
    }
    match close {
        Some(c) => {
            proof {
                lemma_scan_close(s@, open as int, 0);
            }
            let before = slice_chars(s, 0, open);
            let inside = slice_chars(s, open + 1, c);
            let after = slice_chars(s, c + 1, s.len());
            assert(before@ =~= s@.take(open as int));
            Some((before, inside, after))
        },
        None => None,
    }
}

/// The depth of brace nesting after one more character (never below zero).
pub open spec fn depth_step(d: nat, c: char) -> nat {
    if c == '{' {
        d + 1
    } else if c == '}' {
        if d > 0 {
            (d - 1) as nat
        } else {
            0
        }
    } else {
        d
    }
}

/// The depth of brace nesting at the end of a text.
pub open spec fn depth_of(s: Seq<char>) -> nat
    decreases s.len(),
{
    if s.len() == 0 {
        0
    } else {
        depth_step(depth_of(s.drop_last()), s.last())
    }
}

/// A text split at the commas that stand outside any brace group.
pub open spec fn top_parts(s: Seq<char>) -> Seq<Seq<char>>
    decreases s.len(),
{
    if s.len() == 0 {
        seq![Seq::<char>::empty()]
    } else {
        let prev = top_parts(s.drop_last());
        if s.last() == ',' && depth_of(s.drop_last()) == 0 {
            prev.push(Seq::<char>::empty())
        } else {
            prev.update(prev.len() - 1, prev.last().push(s.last()))
        }
    }
}

proof fn lemma_top_parts_nonempty(s: Seq<char>)
    ensures
        top_parts(s).len() >= 1,
    decreases s.len(),
{
    if s.len() > 0 {
        lemma_top_parts_nonempty(s.drop_last());
    }
}

/// `str::trim` as a function.
pub open spec fn trimmed() -> spec_fn(Seq<char>) -> Seq<char> {
    |p: Seq<char>| crate::text::trim(p)
}

/// The trimmed non-empty parts of a text split at its top-level commas.
pub open spec fn split_top_spec(s: Seq<char>) -> Seq<Seq<char>> {
    top_parts(s).map_values(trimmed()).filter(nonempty())
}

/// Splits a text at its top-level commas; each part trimmed, empty parts
/// dropped.
pub fn split_top_level(s: &str) -> (r: Vec<String>)
    ensures
        views_of(r@) == split_top_spec(s@),
{
    let c = chars_of(s);
    let parts = split_top_chars(c.as_slice());
    let mut out: Vec<String> = Vec::new();
    let mut i: usize = 0;
    while i < parts.len()
        invariant
            i <= parts.len(),
            views_of(out@) == views(parts@).take(i as int),
        decreases parts.len() - i,
    {
        let ghost before = views_of(out@);
        out.push(string_from_chars(parts[i].as_slice()));
        assert(views_of(out@) =~= before.push(parts@[i as int]@));
        assert(views(parts@).take(i + 1) =~= views(parts@).take(i as int).push(parts@[i as int]@));
        i = i + 1;
    }
    assert(views(parts@).take(parts@.len() as int) =~= views(parts@));
    out
}

fn split_top_chars(s: &[char]) -> (r: Vec<Vec<char>>)
    ensures
        views(r@) == split_top_spec(s@),
{
    let mut done: Vec<Vec<char>> = Vec::new();
    let mut cur: Vec<char> = Vec::new();
    let mut depth: usize = 0;
    let mut i: usize = 0;
    assert(s@.take(0) =~= Seq::<char>::empty());
    assert(views(done@).push(cur@) =~= seq![Seq::<char>::empty()]);
    while i < s.len()
        invariant
            i <= s.len(),
            depth <= i,
            depth == depth_of(s@.take(i as int)),
            views(done@).push(cur@) == top_parts(s@.take(i as int)),
        decreases s.len() - i,
    {
        assert(s@.take(i + 1).drop_last() =~= s@.take(i as int));
        assert(s@.take(i + 1).last() == s@[i as int]);
        let ghost prev = top_parts(s@.take(i as int));
        let ghost before = views(done@);
        if s[i] == ',' && depth == 0 {
            let finished = cur;
            done.push(finished);
            cur = Vec::new();
            assert(views(done@) =~= before.push(finished@));
            assert(views(done@).push(cur@) =~= prev.push(Seq::<char>::empty()));
        } else {
            cur.push(s[i]);
            assert(views(done@) =~= before);
            assert(views(done@).push(cur@) =~= prev.update(prev.len() - 1, prev.last().push(s@[i as int])));
        }
        if s[i] == '{' {
            depth = depth + 1;
        } else if s[i] == '}' {
            if depth > 0 {
                depth = depth - 1;
            }
        }
        i = i + 1;
    }
    assert(s@.take(s.len() as int) =~= s@);
    let ghost before = views(done@);
    let last = cur;
    done.push(last);
    assert(views(done@) =~= before.push(last@));
    let ghost tp = views(done@);
    let mut trimmed_parts: Vec<Vec<char>> = Vec::new();
    let mut k: usize = 0;
    while k < done.len()
        invariant
            k <= done.len(),
            tp == views(done@),
            views(trimmed_parts@) == tp.take(k as int).map_values(trimmed()),
        decreases done.len() - k,
    {
        let t = crate::text::trim_chars(done[k].as_slice());
        let ghost b = views(trimmed_parts@);
        trimmed_parts.push(t);
        assert(views(trimmed_parts@) =~= b.push(crate::text::trim(tp[k as int])));
        assert(tp.take(k + 1).map_values(trimmed()) =~= tp.take(k as int).map_values(trimmed()).push(
            crate::text::trim(tp[k as int]),
        ));
        k = k + 1;
    }
    assert(tp.take(tp.len() as int) =~= tp);
    nonempty_parts(&trimmed_parts)
}

/// The number of `{` in a text.
pub open spec fn count_open(s: Seq<char>) -> nat
    decreases s.len(),
{
    if s.len() == 0 {
        0
    } else {
        count_open(s.drop_last()) + if s.last() == '{' {
            1nat
        } else {
            0nat
        }
    }
}

proof fn lemma_count_concat(a: Seq<char>, b: Seq<char>)
    ensures
        count_open(a + b) == count_open(a) + count_open(b),
    decreases b.len(),
{
    if b.len() > 0 {
        lemma_count_concat(a, b.drop_last());
        assert((a + b).drop_last() =~= a + b.drop_last());
        assert((a + b).last() == b.last());
    } else {
        assert(a + b =~= a);
    }
}

proof fn lemma_count_sub(s: Seq<char>, i: int, j: int)
    requires
        0 <= i <= j <= s.len(),
    ensures
        count_open(s.subrange(i, j)) <= count_open(s),
{
    assert(s =~= s.take(i) + s.subrange(i, j) + s.subrange(j, s.len() as int));
    lemma_count_concat(s.take(i) + s.subrange(i, j), s.subrange(j, s.len() as int));
    lemma_count_concat(s.take(i), s.subrange(i, j));
}

proof fn lemma_count_none(s: Seq<char>)
    requires
        forall|i: int| 0 <= i < s.len() ==> s[i] != '{',
    ensures
        count_open(s) == 0,
    decreases s.len(),
{
    if s.len() > 0 {
        lemma_count_none(s.drop_last());
    }
}

proof fn lemma_top_parts_count(s: Seq<char>)
    ensures
        forall|k: int| 0 <= k < top_parts(s).len() ==> count_open(#[trigger] top_parts(s)[k]) <= count_open(s),
    decreases s.len(),
{
    if s.len() > 0 {
        lemma_top_parts_count(s.drop_last());
        lemma_top_parts_nonempty(s.drop_last());
        let prev = top_parts(s.drop_last());
        let l = prev.last();
        assert(l.push(s.last()).drop_last() =~= l);
        assert(count_open(l) <= count_open(s.drop_last()));
        assert(count_open(Seq::<char>::empty()) == 0);
        assert forall|k: int| 0 <= k < top_parts(s).len() implies count_open(#[trigger] top_parts(s)[k]) <= count_open(s) by {
            if k < prev.len() - 1 {
                assert(top_parts(s)[k] == prev[k]);
            } else if k == prev.len() - 1 {
                if !(s.last() == ',' && depth_of(s.drop_last()) == 0) {
                    assert(top_parts(s)[k] == l.push(s.last()));
                }
            }
        }
    }
}

proof fn lemma_split_top_count(s: Seq<char>)
    ensures
        forall|k: int| 0 <= k < split_top_spec(s).len() ==> count_open(#[trigger] split_top_spec(s)[k]) <= count_open(s),
{
    lemma_top_parts_count(s);
    let m = top_parts(s).map_values(trimmed());
    assert forall|k: int| 0 <= k < m.len() implies count_open(#[trigger] m[k]) <= count_open(s) by {
        let p = top_parts(s)[k];
        assert(count_open(p) <= count_open(s));
        let a = crate::text::trim_start_index(p);
        let b = crate::text::trim_end_index(p);
        crate::text::lemma_trim_start_bounds(p);
        crate::text::lemma_trim_end_bounds(p);
        if a < b {
            lemma_count_sub(p, a, b);
        }
    }
    assert forall|k: int| 0 <= k < split_top_spec(s).len() implies count_open(#[trigger] split_top_spec(s)[k]) <= count_open(s) by {
        let x = split_top_spec(s)[k];
        assert(m.filter(nonempty()).contains(x));
        m.lemma_filter_contains_rev(nonempty(), x);
        let j = choose|j: int| 0 <= j < m.len() && m[j] == x;
    }
}

/// One item expanded at its first brace group: the group's top-level parts
/// each put between the text before and after it; the item itself when it
/// has no closed group.
pub open spec fn expand_item(x: Seq<char>) -> Seq<Seq<char>> {
    match brace_group(x) {
        Some(g) => split_top_spec(g.1).map_values(|p: Seq<char>| g.0 + p + g.2),
        None => seq![x],
    }
}

/// One round of expansion over a list of items.
pub open spec fn expand_round(items: Seq<Seq<char>>) -> Seq<Seq<char>>
    decreases items.len(),
{
    if items.len() == 0 {
        Seq::empty()
    } else {
        expand_round(items.drop_last()) + expand_item(items.last())
    }
}

/// Whether some item still has a closed brace group.
pub open spec fn any_group(items: Seq<Seq<char>>) -> bool {
    exists|k: int| 0 <= k < items.len() && #[trigger] brace_group(items[k]) is Some
}

/// Rounds of expansion until no item has a brace group, at most `fuel`.
pub open spec fn expand_iter(items: Seq<Seq<char>>, fuel: nat) -> Seq<Seq<char>>
    decreases fuel,
{
    if fuel == 0 || !any_group(items) {
        items
    } else {
        expand_iter(expand_round(items), (fuel - 1) as nat)
    }
}

/// Rust brace groups expanded: `a::{b, c}` gives `a::b` and `a::c`, nested
/// groups in turn. Every round removes at least one `{` from each item it
/// expands, so one round per `{` of the text, and one more, always reach
/// the point where no group is left.
pub open spec fn expand_braces_spec(path: Seq<char>) -> Seq<Seq<char>> {
    let t = crate::text::trim(path);
    expand_iter(seq![t], count_open(t) + 1)
}

proof fn lemma_group_count(x: Seq<char>)
    requires
        brace_group(x) is Some,
    ensures
        count_open(x) >= 1,
        forall|k: int| 0 <= k < expand_item(x).len() ==> count_open(#[trigger] expand_item(x)[k]) < count_open(x),
{
    let open = first_index_of(x, '{');
    lemma_first_index_of(x, '{');
    let close = scan_close(x, open, 0)->0;
    lemma_scan_close(x, open, 0);
    let g = brace_group(x)->0;
    assert(x =~= g.0 + seq!['{'] + g.1 + seq!['}'] + g.2);
    lemma_count_none(g.0);
    lemma_count_concat(g.0 + seq!['{'] + g.1 + seq!['}'], g.2);
    lemma_count_concat(g.0 + seq!['{'] + g.1, seq!['}']);
    lemma_count_concat(g.0 + seq!['{'], g.1);
    lemma_count_concat(g.0, seq!['{']);
    assert(seq!['{'].drop_last() =~= Seq::<char>::empty());
    assert(seq!['}'].drop_last() =~= Seq::<char>::empty());
    lemma_split_top_count(g.1);
    assert forall|k: int| 0 <= k < expand_item(x).len() implies count_open(#[trigger] expand_item(x)[k]) < count_open(x) by {
        let p = split_top_spec(g.1)[k];
        assert(expand_item(x)[k] == g.0 + p + g.2);
        lemma_count_concat(g.0 + p, g.2);
        lemma_count_concat(g.0, p);
    }
}

proof fn lemma_round_member(items: Seq<Seq<char>>, k: int)
    requires
        0 <= k < expand_round(items).len(),
    ensures
        exists|i: int|
            0 <= i < items.len() && ((brace_group(items[i]) is None && expand_round(items)[k] == items[i]) || (
            brace_group(items[i]) is Some && exists|m: int|
                0 <= m < expand_item(items[i]).len() && expand_round(items)[k] == #[trigger] expand_item(items[i])[m])),
    decreases items.len(),
{
    let prev = expand_round(items.drop_last());
    let last = items.last();
    if k < prev.len() {
        lemma_round_member(items.drop_last(), k);
        let i = choose|i: int|
            0 <= i < items.drop_last().len() && ((brace_group(items.drop_last()[i]) is None && prev[k]
                == items.drop_last()[i]) || (brace_group(items.drop_last()[i]) is Some && exists|m: int|
                0 <= m < expand_item(items.drop_last()[i]).len() && prev[k] == #[trigger] expand_item(
                    items.drop_last()[i],
                )[m]));
        assert(items.drop_last()[i] == items[i]);
        assert(expand_round(items)[k] == prev[k]);
    } else {
        let i = items.len() - 1;
        let m = k - prev.len();
        assert(expand_round(items)[k] == expand_item(last)[m]);
        if brace_group(last) is None {
            assert(expand_item(last)[m] == last);
        }
    }
}

proof fn lemma_round_identity(items: Seq<Seq<char>>)
    requires
        !any_group(items),
    ensures
        expand_round(items) == items,
    decreases items.len(),
{
    if items.len() > 0 {
        assert(brace_group(items[items.len() - 1]) is None);
        assert forall|k: int| 0 <= k < items.drop_last().len() implies #[trigger] brace_group(items.drop_last()[k]) is None by {
            assert(items.drop_last()[k] == items[k]);
        }
        lemma_round_identity(items.drop_last());
        assert(items =~= items.drop_last() + seq![items.last()]);
    }
}

fn expand_item_exec(x: &Vec<char>) -> (r: (Vec<Vec<char>>, bool))
    ensures
        views(r.0@) == expand_item(x@),
        r.1 == (brace_group(x@) is Some),
{
    match brace_group_chars(x.as_slice()) {
        Some(g) => {
            let parts = split_top_chars(g.1.as_slice());
            let ghost pv = views(parts@);
            let ghost f = |p: Seq<char>| g.0@ + p + g.2@;
            let mut out: Vec<Vec<char>> = Vec::new();
            let mut i: usize = 0;
            while i < parts.len()
                invariant
                    i <= parts.len(),
                    pv == views(parts@),
                    f == (|p: Seq<char>| g.0@ + p + g.2@),
                    views(out@) == pv.take(i as int).map_values(f),
                decreases parts.len() - i,
            {
                let a = concat_chars(g.0.as_slice(), parts[i].as_slice());
                let b = concat_chars(a.as_slice(), g.2.as_slice());
                let ghost before = views(out@);
                out.push(b);
                assert(views(out@) =~= before.push(f(pv[i as int])));
                assert(pv.take(i + 1).map_values(f) =~= pv.take(i as int).map_values(f).push(f(pv[i as int])));
                i = i + 1;
            }
            assert(pv.take(pv.len() as int) =~= pv);
            assert(views(out@) =~= expand_item(x@));
            (out, true)
        },
        None => {
            let c = slice_chars(x.as_slice(), 0, x.len());
            assert(c@ =~= x@);
            let mut out: Vec<Vec<char>> = Vec::new();
            out.push(c);
            assert(views(out@) =~= seq![x@]);
            (out, false)
        },
    }
}

fn expand_round_exec(items: &Vec<Vec<char>>) -> (r: (Vec<Vec<char>>, bool))
    ensures
        views(r.0@) == expand_round(views(items@)),
        r.1 == any_group(views(items@)),
{
    let ghost iv = views(items@);
    let mut out: Vec<Vec<char>> = Vec::new();
    let mut any = false;
    let mut i: usize = 0;
    assert(iv.take(0) =~= Seq::<Seq<char>>::empty());
    while i < items.len()
        invariant
            i <= items.len(),
            iv == views(items@),
            views(out@) == expand_round(iv.take(i as int)),
            any == exists|k: int| 0 <= k < i && #[trigger] brace_group(iv[k]) is Some,
        decreases items.len() - i,
    {
        let (more, g) = expand_item_exec(&items[i]);
        let ghost before = views(out@);
        let mut j: usize = 0;
        while j < more.len()
            invariant
                j <= more.len(),
                views(out@) == before + views(more@).take(j as int),
            decreases more.len() - j,
        {
            let c = slice_chars(more[j].as_slice(), 0, more[j].len());
            assert(c@ =~= more@[j as int]@);
            let ghost prev = views(out@);
            out.push(c);
            assert(views(out@) =~= prev.push(more@[j as int]@));
            assert(views(more@).take(j + 1) =~= views(more@).take(j as int).push(more@[j as int]@));
            j = j + 1;
        }
        assert(views(more@).take(more@.len() as int) =~= views(more@));
        assert(iv.take(i + 1).drop_last() =~= iv.take(i as int));
        assert(iv.take(i + 1).last() == iv[i as int]);
        if g {
            any = true;
        }
        i = i + 1;
    }
    assert(iv.take(iv.len() as int) =~= iv);
    (out, any)
}

/// Expands Rust brace groups: `crate::{a, b}::x` gives `crate::a::x` and
/// `crate::b::x`; nested groups are expanded in turn, until no item has a
/// closed group left.
pub fn expand_braces(path: &str) -> (r: Vec<String>)
    ensures
        views_of(r@) == expand_braces_spec(path@),
        !any_group(views_of(r@)),
{
    let pc = chars_of(path);
    let t = crate::text::trim_chars(pc.as_slice());
    let ghost b0 = count_open(t@);
    let ghost fuel: nat = b0 + 1;
    let ghost mut rounds: nat = 0;
    let mut current: Vec<Vec<char>> = Vec::new();
    current.push(t);
    assert(views(current@) =~= seq![t@]);
    loop
        invariant_except_break
            rounds < fuel,
            fuel == b0 + 1,
            expand_iter(views(current@), (fuel - rounds) as nat) == expand_braces_spec(path@),
            forall|k: int|
                0 <= k < views(current@).len() && brace_group(#[trigger] views(current@)[k]) is Some ==> count_open(
                    views(current@)[k],
                ) + rounds <= b0,
        ensures
            views(current@) == expand_braces_spec(path@),
            !any_group(views(current@)),
        decreases fuel - rounds,
    {
        let ghost cv = views(current@);
        let (next, any) = expand_round_exec(&current);
        if !any {
            break;
        }
        proof {
            let k = choose|k: int| 0 <= k < cv.len() && #[trigger] brace_group(cv[k]) is Some;
            lemma_group_count(cv[k]);
            assert(rounds + 1 < fuel);
            let nv = views(next@);
            assert forall|m: int| 0 <= m < nv.len() && brace_group(#[trigger] nv[m]) is Some implies count_open(nv[m])
                + rounds + 1 <= b0 by {
                lemma_round_member(cv, m);
                let i = choose|i: int|
                    0 <= i < cv.len() && ((brace_group(cv[i]) is None && expand_round(cv)[m] == cv[i]) || (brace_group(
                        cv[i],
                    ) is Some && exists|q: int|
                        0 <= q < expand_item(cv[i]).len() && expand_round(cv)[m] == #[trigger] expand_item(cv[i])[q]));
                if brace_group(cv[i]) is Some {
                    let q = choose|q: int|
                        0 <= q < expand_item(cv[i]).len() && expand_round(cv)[m] == #[trigger] expand_item(cv[i])[q];
                    lemma_group_count(cv[i]);
                }
            }
        }
        current = next;
        proof {
            rounds = rounds + 1;
        }
    }
    let mut out: Vec<String> = Vec::new();
    let mut i: usize = 0;
    while i < current.len()
        invariant
            i <= current.len(),
            views_of(out@) == views(current@).take(i as int),
        decreases current.len() - i,
    {
        let ghost before = views_of(out@);
        out.push(string_from_chars(current[i].as_slice()));
        assert(views_of(out@) =~= before.push(current@[i as int]@));
        assert(views(current@).take(i + 1) =~= views(current@).take(i as int).push(current@[i as int]@));
        i = i + 1;
    }
    assert(views(current@).take(current@.len() as int) =~= views(current@));
    out
}

/// The text before the first occurrence of `p` (all of it when there is
/// none), as `split(p).next()` gives it.
pub open spec fn before_first(s: Seq<char>, p: Seq<char>) -> Seq<char>
    decreases s.len(),
{
    if s.len() == 0 || occurs_at(s, p, 0) {
        Seq::empty()
    } else {
        seq![s[0]] + before_first(s.drop_first(), p)
    }
}

/// The text before the first occurrence of `p`.
pub fn before_first_chars(s: &[char], p: &[char]) -> (r: Vec<char>)
    requires
        p.len() > 0,
    ensures
        r@ == before_first(s@, p@),
{
    let mut i: usize = 0;
    assert(s@.skip(0) =~= s@);
    assert(s@.take(0) =~= Seq::<char>::empty());
    while i < s.len()
        invariant
            i <= s.len(),
            p@.len() > 0,
            before_first(s@, p@) == s@.take(i as int) + before_first(s@.skip(i as int), p@),
        decreases s.len() - i,
    {
        let ghost t = s@.skip(i as int);
        let hit = p.len() <= s.len() - i && crate::text::matches_at(s, p, i);
        proof {
            assert(occurs_at(t, p@, 0) == (i + p@.len() <= s@.len() && occurs_at(s@, p@, i as int))) by {
                if i + p@.len() <= s@.len() {
                    assert(t.subrange(0, p@.len() as int) =~= s@.subrange(i as int, i + p@.len()));
                }
            }
        }
        if hit {
            assert(s@.take(i as int) + Seq::<char>::empty() =~= s@.take(i as int));
            return slice_chars(s, 0, i);
        }
        assert(t.drop_first() =~= s@.skip(i + 1));
        assert(s@.take(i + 1) =~= s@.take(i as int) + seq![t[0]]);
        i = i + 1;
    }
    assert(s@.skip(i as int) =~= Seq::<char>::empty());
    assert(s@.take(i as int) =~= s@);
    slice_chars(s, 0, s.len())
}

/// The text with every trailing `*` removed.
pub open spec fn strip_stars(s: Seq<char>) -> Seq<char>
    decreases s.len(),
{
    if s.len() > 0 && s.last() == '*' {
        strip_stars(s.drop_last())
    } else {
        s
    }
}

/// A `use` path cleaned for resolution: an ` as ` rename and a trailing
/// glob dropped, surrounding whitespace trimmed.
pub open spec fn clean_use_path(p: Seq<char>) -> Seq<char> {
    trim(strip_stars(trim(before_first(p, " as "@))))
}

/// Whether a cleaned `use` path is kept: not empty, and not `self` or a
/// path ending in `::self`.
pub open spec fn keep_use_path(c: Seq<char>) -> bool {
    c.len() > 0 && c != "self"@ && !ends_with(c, "::self"@)
}

/// A relationship kind with a specifier.
pub type KindSpec = (RelationshipKind, Seq<char>);

/// The specifiers of a `use` body.
pub open spec fn use_items(body: Seq<char>) -> Seq<KindSpec> {
    expand_braces_spec(body).map_values(|p: Seq<char>| clean_use_path(p)).filter(|c: Seq<char>| keep_use_path(c)).map_values(
        |c: Seq<char>| (RelationshipKind::Import, c),
    )
}

/// The items of the matches, each match contributing `f` of its groups.
pub open spec fn flat_matches(ms: Seq<Seq<Option<Seq<char>>>>, f: spec_fn(Seq<Option<Seq<char>>>) -> Seq<KindSpec>) -> Seq<KindSpec>
    decreases ms.len(),
{
    if ms.len() == 0 {
        Seq::empty()
    } else {
        flat_matches(ms.drop_last(), f) + f(ms.last())
    }
}

/// The specifiers of one `use` match.
pub open spec fn rust_use_items() -> spec_fn(Seq<Option<Seq<char>>>) -> Seq<KindSpec> {
    |m: Seq<Option<Seq<char>>>|
        match group_of(m, 1) {
            Some(b) => use_items(b),
            None => Seq::empty(),
        }
}

/// The specifier of one match of a single-specifier pattern, with a kind.
pub open spec fn single_item(kind: RelationshipKind) -> spec_fn(Seq<Option<Seq<char>>>) -> Seq<KindSpec> {
    |m: Seq<Option<Seq<char>>>|
        match group_of(m, 1) {
            Some(n) => seq![(kind, n)],
            None => Seq::empty(),
        }
}

/// The items with later repeats of an item dropped.
pub open spec fn dedup_first(s: Seq<KindSpec>) -> Seq<KindSpec>
    decreases s.len(),
{
    if s.len() == 0 {
        Seq::empty()
    } else if s.drop_last().contains(s.last()) {
        dedup_first(s.drop_last())
    } else {
        dedup_first(s.drop_last()).push(s.last())
    }
}

proof fn lemma_dedup_contains(s: Seq<KindSpec>, x: KindSpec)
    ensures
        dedup_first(s).contains(x) == s.contains(x),
    decreases s.len(),
{
    if s.len() > 0 {
        lemma_dedup_contains(s.drop_last(), x);
        let d = dedup_first(s.drop_last());
        if s.contains(x) {
            let i = choose|i: int| 0 <= i < s.len() && s[i] == x;
            if i < s.len() - 1 {
                assert(s.drop_last()[i] == x);
            }
        }
        if !s.drop_last().contains(s.last()) {
            assert(d.push(s.last())[d.len() as int] == s.last());
            if d.push(s.last()).contains(x) {
                let j = choose|j: int| 0 <= j < d.len() + 1 && d.push(s.last())[j] == x;
                if j < d.len() {
                    assert(d[j] == x);
                }
            }
            if d.contains(x) {
                let j = choose|j: int| 0 <= j < d.len() && d[j] == x;
                assert(d.push(s.last())[j] == x);
            }
        } else {
            if x == s.last() {
                let j = choose|j: int| 0 <= j < s.drop_last().len() && s.drop_last()[j] == x;
            }
        }
        if s.drop_last().contains(x) {
            let j = choose|j: int| 0 <= j < s.drop_last().len() && s.drop_last()[j] == x;
            assert(s[j] == x);
        }
    }
}

/// A kind-tagged specifier list as text.
pub open spec fn spec_views(v: Seq<(RelationshipKind, Vec<char>)>) -> Seq<KindSpec> {
    Seq::new(v.len(), |i: int| (v[i].0, v[i].1@))
}

fn same_spec(a: &(RelationshipKind, Vec<char>), b: &(RelationshipKind, Vec<char>)) -> (r: bool)
    ensures
        r == ((a.0, a.1@) == (b.0, b.1@)),
{
    a.0 == b.0 && crate::text::chars_eq(a.1.as_slice(), b.1.as_slice())
}

/// Drops later repeats of an item.
fn dedup_specs(raw: &Vec<(RelationshipKind, Vec<char>)>) -> (r: Vec<(RelationshipKind, Vec<char>)>)
    ensures
        spec_views(r@) == dedup_first(spec_views(raw@)),
{
    let ghost rv = spec_views(raw@);
    let mut out: Vec<(RelationshipKind, Vec<char>)> = Vec::new();
    let mut i: usize = 0;
    assert(rv.take(0) =~= Seq::<KindSpec>::empty());
    while i < raw.len()
        invariant
            i <= raw.len(),
            rv == spec_views(raw@),
            spec_views(out@) == dedup_first(rv.take(i as int)),
        decreases raw.len() - i,
    {
        let ghost x = rv[i as int];
        assert(rv.take(i + 1).drop_last() =~= rv.take(i as int));
        assert(rv.take(i + 1).last() == x);
        proof {
            lemma_dedup_contains(rv.take(i as int), x);
        }
        let mut j: usize = 0;
        let mut seen = false;
        while j < out.len()
            invariant
                j <= out.len(),
                x == spec_views(raw@)[i as int],
                i < raw.len(),
                seen == exists|k: int| 0 <= k < j && spec_views(out@)[k] == x,
            decreases out.len() - j,
        {
            assert(spec_views(out@)[j as int] == (out@[j as int].0, out@[j as int].1@));
            assert(x == (raw@[i as int].0, raw@[i as int].1@));
            if same_spec(&out[j], &raw[i]) {
                seen = true;
            }
            j = j + 1;
        }
        if !seen {
            let c = slice_chars(raw[i].1.as_slice(), 0, raw[i].1.len());
            assert(c@ =~= raw@[i as int].1@);
            let ghost before = spec_views(out@);
            out.push((raw[i].0, c));
            assert(spec_views(out@) =~= before.push(x));
        } else {
            proof {
                let k = choose|k: int| 0 <= k < out@.len() && spec_views(out@)[k] == x;
                assert(spec_views(out@).contains(x));
            }
        }
        i = i + 1;
    }
    assert(rv.take(rv.len() as int) =~= rv);
    out
}

/// The text with every trailing `*` removed.
fn strip_stars_chars(s: &[char]) -> (r: Vec<char>)
    ensures
        r@ == strip_stars(s@),
{
    let mut e: usize = s.len();
    assert(s@.take(e as int) =~= s@);
    while e > 0 && s[e - 1] == '*'
        invariant
            e <= s.len(),
            strip_stars(s@) == strip_stars(s@.take(e as int)),
        decreases e,
    {
        assert(s@.take(e as int).drop_last() =~= s@.take(e - 1));
        e = e - 1;
    }
    slice_chars(s, 0, e)
}

/// A `use` path cleaned for resolution.
pub fn clean_use_chars(p: &[char]) -> (r: Vec<char>)
    ensures
        r@ == clean_use_path(p@),
{
    let sep = chars_of(" as ");
    proof {
        reveal_strlit(" as ");
    }
    let a = before_first_chars(p, sep.as_slice());
    let b = crate::text::trim_chars(a.as_slice());
    let c = strip_stars_chars(b.as_slice());
    crate::text::trim_chars(c.as_slice())
}

fn keep_use_chars(c: &[char]) -> (r: bool)
    ensures
        r == keep_use_path(c@),
{
    c.len() > 0 && !crate::text::chars_eq(c, chars_of("self").as_slice()) && !crate::text::chars_ends_with(
        c,
        chars_of("::self").as_slice(),
    )
}

/// Appends the specifiers of a `use` body.
fn push_use_items(raw: &mut Vec<(RelationshipKind, Vec<char>)>, body: &str)
    ensures
        spec_views(final(raw)@) == spec_views(old(raw)@) + use_items(body@),
{
    let paths = expand_braces(body);
    let ghost pv = views_of(paths@);
    let ghost cl = |p: Seq<char>| clean_use_path(p);
    let ghost kp = |c: Seq<char>| keep_use_path(c);
    let ghost tg = |c: Seq<char>| (RelationshipKind::Import, c);
    let ghost start = spec_views(raw@);
    let mut i: usize = 0;
    assert(pv.take(0).map_values(cl).filter(kp).map_values(tg) =~= Seq::<KindSpec>::empty());
    while i < paths.len()
        invariant
            i <= paths.len(),
            pv == views_of(paths@),
            cl == (|p: Seq<char>| clean_use_path(p)),
            kp == (|c: Seq<char>| keep_use_path(c)),
            tg == (|c: Seq<char>| (RelationshipKind::Import, c)),
            spec_views(raw@) == start + pv.take(i as int).map_values(cl).filter(kp).map_values(tg),
        decreases paths.len() - i,
    {
        let pc = chars_of(paths[i].as_str());
        let c = clean_use_chars(pc.as_slice());
        let keep = keep_use_chars(c.as_slice());
        proof {
            assert(pv.take(i + 1).map_values(cl) =~= pv.take(i as int).map_values(cl).push(cl(pv[i as int])));
            pv.take(i as int).map_values(cl).lemma_filter_push(cl(pv[i as int]), kp);
        }
        let ghost before = spec_views(raw@);
        if keep {
            raw.push((RelationshipKind::Import, c));
            assert(spec_views(raw@) =~= before.push(tg(cl(pv[i as int]))));
            assert(pv.take(i as int).map_values(cl).filter(kp).push(cl(pv[i as int])).map_values(tg) =~= pv.take(
                i as int,
            ).map_values(cl).filter(kp).map_values(tg).push(tg(cl(pv[i as int]))));
        }
        i = i + 1;
    }
    assert(pv.take(pv.len() as int) =~= pv);
}

/// Appends the items of the `use` matches.
fn push_use_matches(raw: &mut Vec<(RelationshipKind, Vec<char>)>, ms: &Vec<Vec<Option<String>>>)
    ensures
        spec_views(final(raw)@) == spec_views(old(raw)@) + flat_matches(matches_view(ms@), rust_use_items()),
{
    let ghost mv = matches_view(ms@);
    let ghost start = spec_views(raw@);
    let mut i: usize = 0;
    assert(mv.take(0) =~= Seq::<Seq<Option<Seq<char>>>>::empty());
    assert(start + Seq::<KindSpec>::empty() =~= start);
    while i < ms.len()
        invariant
            i <= ms.len(),
            mv == matches_view(ms@),
            spec_views(raw@) == start + flat_matches(mv.take(i as int), rust_use_items()),
        decreases ms.len() - i,
    {
        assert(mv.take(i + 1).drop_last() =~= mv.take(i as int));
        assert(mv.take(i + 1).last() == mv[i as int]);
        assert(mv[i as int] == groups_view(ms@[i as int]));
        let ghost before = spec_views(raw@);
        match group_at(&ms[i], 1) {
            Some(b) => {
                push_use_items(raw, b);
            },
            None => {},
        }
        assert(spec_views(raw@) =~= before + rust_use_items()(mv[i as int]));
        i = i + 1;
    }
    assert(mv.take(mv.len() as int) =~= mv);
}

/// Appends the items of the matches of a single-specifier pattern.
fn push_single_matches(raw: &mut Vec<(RelationshipKind, Vec<char>)>, ms: &Vec<Vec<Option<String>>>, kind: RelationshipKind)
    ensures
        spec_views(final(raw)@) == spec_views(old(raw)@) + flat_matches(matches_view(ms@), single_item(kind)),
{
    let ghost mv = matches_view(ms@);
    let ghost start = spec_views(raw@);
    let mut i: usize = 0;
    assert(mv.take(0) =~= Seq::<Seq<Option<Seq<char>>>>::empty());
    assert(start + Seq::<KindSpec>::empty() =~= start);
    while i < ms.len()
        invariant
            i <= ms.len(),
            mv == matches_view(ms@),
            spec_views(raw@) == start + flat_matches(mv.take(i as int), single_item(kind)),
        decreases ms.len() - i,
    {
        assert(mv.take(i + 1).drop_last() =~= mv.take(i as int));
        assert(mv.take(i + 1).last() == mv[i as int]);
        assert(mv[i as int] == groups_view(ms@[i as int]));
        let ghost before = spec_views(raw@);
        match group_at(&ms[i], 1) {
            Some(n) => {
                raw.push((kind, chars_of(n)));
            },
            None => {},
        }
        assert(spec_views(raw@) =~= before + single_item(kind)(mv[i as int]));
        i = i + 1;
    }
    assert(mv.take(mv.len() as int) =~= mv);
}

/// A kind-tagged specifier list of strings as text.
pub open spec fn spec_string_views(v: Seq<(RelationshipKind, String)>) -> Seq<KindSpec> {
    Seq::new(v.len(), |i: int| (v[i].0, v[i].1@))
}

fn to_strings(v: &Vec<(RelationshipKind, Vec<char>)>) -> (r: Vec<(RelationshipKind, String)>)
    ensures
        spec_string_views(r@) == spec_views(v@),
{
    let mut out: Vec<(RelationshipKind, String)> = Vec::new();
    let mut i: usize = 0;
    while i < v.len()
        invariant
            i <= v.len(),
            spec_string_views(out@) == spec_views(v@).take(i as int),
        decreases v.len() - i,
    {
        let ghost before = spec_string_views(out@);
        out.push((v[i].0, string_from_chars(v[i].1.as_slice())));
        assert(spec_string_views(out@) =~= before.push((v@[i as int].0, v@[i as int].1@)));
        assert(spec_views(v@).take(i + 1) =~= spec_views(v@).take(i as int).push((v@[i as int].0, v@[i as int].1@)));
        i = i + 1;
    }
    assert(spec_views(v@).take(v@.len() as int) =~= spec_views(v@));
    out
}

/// The specifiers of a Rust file from the matches of its `use` and `mod`
/// declarations: each expanded `use` path as an import, then each `mod`
/// name as a module reference, each pair once, first occurrence kept.
pub fn rust_specifiers(use_matches: &Vec<Vec<Option<String>>>, mod_matches: &Vec<Vec<Option<String>>>) -> (r: Vec<(RelationshipKind, String)>)
    ensures
        spec_string_views(r@) == dedup_first(
            flat_matches(matches_view(use_matches@), rust_use_items()) + flat_matches(
                matches_view(mod_matches@),
                single_item(RelationshipKind::ModuleReference),
            ),
        ),
{
    let mut raw: Vec<(RelationshipKind, Vec<char>)> = Vec::new();
    assert(spec_views(raw@) =~= Seq::<KindSpec>::empty());
    push_use_matches(&mut raw, use_matches);
    push_single_matches(&mut raw, mod_matches, RelationshipKind::ModuleReference);
    assert(spec_views(raw@) =~= flat_matches(matches_view(use_matches@), rust_use_items()) + flat_matches(
        matches_view(mod_matches@),
        single_item(RelationshipKind::ModuleReference),
    ));
    let d = dedup_specs(&raw);
    to_strings(&d)
}

/// The specifiers of a JavaScript/TypeScript file from the matches of its
/// re-exports, static imports and dynamic imports (`import(..)`,
/// `require(..)`), in that order, each pair once, first occurrence kept.
pub fn javascript_specifiers(
    export_matches: &Vec<Vec<Option<String>>>,
    import_matches: &Vec<Vec<Option<String>>>,
    dynamic_matches: &Vec<Vec<Option<String>>>,
) -> (r: Vec<(RelationshipKind, String)>)
    ensures
        spec_string_views(r@) == dedup_first(
            flat_matches(matches_view(export_matches@), single_item(RelationshipKind::Export)) + flat_matches(
                matches_view(import_matches@),
                single_item(RelationshipKind::Import),
            ) + flat_matches(matches_view(dynamic_matches@), single_item(RelationshipKind::Import)),
        ),
{
    let mut raw: Vec<(RelationshipKind, Vec<char>)> = Vec::new();
    assert(spec_views(raw@) =~= Seq::<KindSpec>::empty());
    push_single_matches(&mut raw, export_matches, RelationshipKind::Export);
    push_single_matches(&mut raw, import_matches, RelationshipKind::Import);
    push_single_matches(&mut raw, dynamic_matches, RelationshipKind::Import);
    assert(spec_views(raw@) =~= flat_matches(matches_view(export_matches@), single_item(RelationshipKind::Export))
        + flat_matches(matches_view(import_matches@), single_item(RelationshipKind::Import)) + flat_matches(
        matches_view(dynamic_matches@),
        single_item(RelationshipKind::Import),
    ));
    let d = dedup_specs(&raw);
    to_strings(&d)
}

/// `n` dots.
pub open spec fn dots(n: nat) -> Seq<char> {
    Seq::new(n, |i: int| '.')
}

/// An imported name cleaned: an ` as ` rename dropped, whitespace trimmed.
pub open spec fn clean_name(s: Seq<char>) -> Seq<char> {
    trim(before_first(s, " as "@))
}

/// Whether an imported name is kept: not empty and not `*`.
pub open spec fn keep_name(s: Seq<char>) -> bool {
    s.len() > 0 && s != "*"@
}

/// The names of a `from .. import a, b as c` list.
pub open spec fn from_names(b: Seq<char>) -> Seq<Seq<char>> {
    split_char(b, ',').map_values(|x: Seq<char>| clean_name(x)).filter(|x: Seq<char>| keep_name(x))
}

/// The modules of an `import a, b as c` list.
pub open spec fn import_names(a: Seq<char>) -> Seq<Seq<char>> {
    split_char(a, ',').map_values(|x: Seq<char>| clean_name(x)).filter(nonempty())
}

/// The specifiers of one `from X import ..` match: with no module after the
/// dots (`from . import a, b`) each name is a sibling module; otherwise the
/// module itself.
pub open spec fn from_items() -> spec_fn(Seq<Option<Seq<char>>>) -> Seq<KindSpec> {
    |m: Seq<Option<Seq<char>>>|
        match (group_of(m, 1), group_of(m, 2)) {
            (Some(a), Some(b)) => {
                let p = py_parse(trim(a));
                match p.1 {
                    None => from_names(b).map_values(|n: Seq<char>| (RelationshipKind::Import, dots(p.0) + n)),
                    Some(md) => seq![(RelationshipKind::Import, dots(p.0) + md)],
                }
            },
            _ => Seq::empty(),
        }
}

/// The specifiers of one `import ..` match.
pub open spec fn plain_import_items() -> spec_fn(Seq<Option<Seq<char>>>) -> Seq<KindSpec> {
    |m: Seq<Option<Seq<char>>>|
        match group_of(m, 1) {
            Some(a) => import_names(a).map_values(|t: Seq<char>| (RelationshipKind::Import, t)),
            None => Seq::empty(),
        }
}

fn dots_chars(n: usize) -> (r: Vec<char>)
    ensures
        r@ == dots(n as nat),
{
    let mut v: Vec<char> = Vec::new();
    let mut i: usize = 0;
    while i < n
        invariant
            i <= n,
            v@ == dots(i as nat),
        decreases n - i,
    {
        v.push('.');
        i = i + 1;
        assert(v@ =~= dots(i as nat));
    }
    v
}

/// The cleaned, kept names of a comma-separated list; with `drop_star`
/// a lone `*` is dropped too.
fn clean_names(list: &[char], drop_star: bool) -> (r: Vec<Vec<char>>)
    ensures
        drop_star ==> views(r@) == split_char(list@, ',').map_values(|x: Seq<char>| clean_name(x)).filter(
            |x: Seq<char>| keep_name(x),
        ),
        !drop_star ==> views(r@) == split_char(list@, ',').map_values(|x: Seq<char>| clean_name(x)).filter(nonempty()),
{
    let parts = split_chars(list, ',');
    let ghost pv = views(parts@);
    let ghost cl = |x: Seq<char>| clean_name(x);
    let ghost kp = |x: Seq<char>| keep_name(x);
    let ghost pred = if drop_star {
        kp
    } else {
        nonempty()
    };
    let sep = chars_of(" as ");
    proof {
        reveal_strlit(" as ");
    }
    let star = chars_of("*");
    let mut out: Vec<Vec<char>> = Vec::new();
    let mut i: usize = 0;
    assert(pv.take(0).map_values(cl).filter(pred) =~= Seq::<Seq<char>>::empty());
    while i < parts.len()
        invariant
            i <= parts.len(),
            pv == views(parts@),
            sep@ == " as "@,
            sep@.len() > 0,
            star@ == "*"@,
            cl == (|x: Seq<char>| clean_name(x)),
            kp == (|x: Seq<char>| keep_name(x)),
            pred == (if drop_star {
                kp
            } else {
                nonempty()
            }),
            views(out@) == pv.take(i as int).map_values(cl).filter(pred),
        decreases parts.len() - i,
    {
        let a = before_first_chars(parts[i].as_slice(), sep.as_slice());
        let c = crate::text::trim_chars(a.as_slice());
        let keep = c.len() > 0 && !(drop_star && crate::text::chars_eq(c.as_slice(), star.as_slice()));
        proof {
            assert(pv.take(i + 1).map_values(cl) =~= pv.take(i as int).map_values(cl).push(cl(pv[i as int])));
            pv.take(i as int).map_values(cl).lemma_filter_push(cl(pv[i as int]), pred);
            assert(c@ == cl(pv[i as int]));
            assert(keep == pred(c@));
        }
        if keep {
            let ghost before = views(out@);
            out.push(c);
            assert(views(out@) =~= before.push(cl(pv[i as int])));
        }
        i = i + 1;
    }
    assert(pv.take(pv.len() as int) =~= pv);
    out
}

/// Appends the specifiers of the `from .. import ..` matches.
fn push_from_matches(raw: &mut Vec<(RelationshipKind, Vec<char>)>, ms: &Vec<Vec<Option<String>>>)
    ensures
        spec_views(final(raw)@) == spec_views(old(raw)@) + flat_matches(matches_view(ms@), from_items()),
{
    let ghost mv = matches_view(ms@);
    let ghost start = spec_views(raw@);
    let mut i: usize = 0;
    assert(mv.take(0) =~= Seq::<Seq<Option<Seq<char>>>>::empty());
    assert(start + Seq::<KindSpec>::empty() =~= start);
    while i < ms.len()
        invariant
            i <= ms.len(),
            mv == matches_view(ms@),
            spec_views(raw@) == start + flat_matches(mv.take(i as int), from_items()),
        decreases ms.len() - i,
    {
        assert(mv.take(i + 1).drop_last() =~= mv.take(i as int));
        assert(mv.take(i + 1).last() == mv[i as int]);
        assert(mv[i as int] == groups_view(ms@[i as int]));
        let ghost before = spec_views(raw@);
        match (group_at(&ms[i], 1), group_at(&ms[i], 2)) {
            (Some(a), Some(b)) => {
                let ac = chars_of(a);
                let at = crate::text::trim_chars(ac.as_slice());
                let parsed = parse_py_specifier(string_from_chars(at.as_slice()).as_str());
                let d = dots_chars(parsed.level);
                match parsed.module {
                    None => {
                        let names = clean_names(chars_of(b).as_slice(), true);
                        let ghost nv = views(names@);
                        let ghost tg = |n: Seq<char>| (RelationshipKind::Import, dots(parsed.level as nat) + n);
                        let mut j: usize = 0;
                        while j < names.len()
                            invariant
                                j <= names.len(),
                                nv == views(names@),
                                d@ == dots(parsed.level as nat),
                                tg == (|n: Seq<char>| (RelationshipKind::Import, dots(parsed.level as nat) + n)),
                                spec_views(raw@) == before + nv.take(j as int).map_values(tg),
                            decreases names.len() - j,
                        {
                            let key = concat_chars(d.as_slice(), names[j].as_slice());
                            let ghost b2 = spec_views(raw@);
                            raw.push((RelationshipKind::Import, key));
                            assert(spec_views(raw@) =~= b2.push(tg(nv[j as int])));
                            assert(nv.take(j + 1).map_values(tg) =~= nv.take(j as int).map_values(tg).push(tg(nv[j as int])));
                            j = j + 1;
                        }
                        assert(nv.take(nv.len() as int) =~= nv);
                    },
                    Some(md) => {
                        let key = concat_chars(d.as_slice(), chars_of(md.as_str()).as_slice());
                        raw.push((RelationshipKind::Import, key));
                        assert(spec_views(raw@) =~= before.push((RelationshipKind::Import, dots(parsed.level as nat) + md@)));
                    },
                }
            },
            _ => {},
        }
        assert(spec_views(raw@) =~= before + from_items()(mv[i as int]));
        i = i + 1;
    }
    assert(mv.take(mv.len() as int) =~= mv);
}

/// Appends the specifiers of the `import ..` matches.
fn push_import_matches(raw: &mut Vec<(RelationshipKind, Vec<char>)>, ms: &Vec<Vec<Option<String>>>)
    ensures
        spec_views(final(raw)@) == spec_views(old(raw)@) + flat_matches(matches_view(ms@), plain_import_items()),
{
    let ghost mv = matches_view(ms@);
    let ghost start = spec_views(raw@);
    let mut i: usize = 0;
    assert(mv.take(0) =~= Seq::<Seq<Option<Seq<char>>>>::empty());
    assert(start + Seq::<KindSpec>::empty() =~= start);
    while i < ms.len()
        invariant
            i <= ms.len(),
            mv == matches_view(ms@),
            spec_views(raw@) == start + flat_matches(mv.take(i as int), plain_import_items()),
        decreases ms.len() - i,
    {
        assert(mv.take(i + 1).drop_last() =~= mv.take(i as int));
        assert(mv.take(i + 1).last() == mv[i as int]);
        assert(mv[i as int] == groups_view(ms@[i as int]));
        let ghost before = spec_views(raw@);
        match group_at(&ms[i], 1) {
            Some(a) => {
                let names = clean_names(chars_of(a).as_slice(), false);
                let ghost nv = views(names@);
                let ghost tg = |t: Seq<char>| (RelationshipKind::Import, t);
                let mut j: usize = 0;
                while j < names.len()
                    invariant
                        j <= names.len(),
                        nv == views(names@),
                        tg == (|t: Seq<char>| (RelationshipKind::Import, t)),
                        spec_views(raw@) == before + nv.take(j as int).map_values(tg),
                    decreases names.len() - j,
                {
                    let c = slice_chars(names[j].as_slice(), 0, names[j].len());
                    assert(c@ =~= nv[j as int]);
                    let ghost b2 = spec_views(raw@);
                    raw.push((RelationshipKind::Import, c));
                    assert(spec_views(raw@) =~= b2.push(tg(nv[j as int])));
                    assert(nv.take(j + 1).map_values(tg) =~= nv.take(j as int).map_values(tg).push(tg(nv[j as int])));
                    j = j + 1;
                }
                assert(nv.take(nv.len() as int) =~= nv);
            },
            None => {},
        }
        assert(spec_views(raw@) =~= before + plain_import_items()(mv[i as int]));
        i = i + 1;
    }
    assert(mv.take(mv.len() as int) =~= mv);
}

/// The specifiers of a Python file from the matches of its `from X import`
/// and `import` statements, in that order, each pair once, first
/// occurrence kept.
pub fn python_specifiers(from_matches: &Vec<Vec<Option<String>>>, import_matches: &Vec<Vec<Option<String>>>) -> (r: Vec<(RelationshipKind, String)>)
    ensures
        spec_string_views(r@) == dedup_first(
            flat_matches(matches_view(from_matches@), from_items()) + flat_matches(
                matches_view(import_matches@),
                plain_import_items(),
            ),
        ),
{
    let mut raw: Vec<(RelationshipKind, Vec<char>)> = Vec::new();
    assert(spec_views(raw@) =~= Seq::<KindSpec>::empty());
    push_from_matches(&mut raw, from_matches);
    push_import_matches(&mut raw, import_matches);
    assert(spec_views(raw@) =~= flat_matches(matches_view(from_matches@), from_items()) + flat_matches(
        matches_view(import_matches@),
        plain_import_items(),
    ));
    let d = dedup_specs(&raw);
    to_strings(&d)
}

/// The pattern of a Rust `use` declaration; group `1` is its body.
pub open spec fn rust_use_pattern() -> Seq<char> {
    r"(?m)^\s*use\s+([^;]+);"@
}

/// The pattern of a Rust `mod name;` declaration; group `1` is the name.
pub open spec fn rust_mod_pattern() -> Seq<char> {
    r"(?m)^\s*(?:pub\s*(?:\([^)]*\))?\s+)?mod\s+([a-zA-Z_][a-zA-Z0-9_]*)\s*;"@
}

/// The pattern of a JavaScript static import; group `1` is the specifier.
pub open spec fn js_import_pattern() -> Seq<char> {
    r#"\bimport\s+(?:[^;"'\n]*?\sfrom\s+)?["']([^"']+)["']"#@
}

/// The pattern of a JavaScript re-export; group `1` is the specifier.
pub open spec fn js_export_pattern() -> Seq<char> {
    r#"\bexport\s+[^;"'\n]*?\sfrom\s+["']([^"']+)["']"#@
}

/// The pattern of a dynamic `import(..)` or `require(..)`; group `1` is the
/// specifier.
pub open spec fn js_dynamic_pattern() -> Seq<char> {
    r#"\b(?:import|require)\s*\(\s*["']([^"']+)["']"#@
}

/// The pattern of a Python `import` statement; group `1` is the module
/// list.
pub open spec fn py_import_pattern() -> Seq<char> {
    r"(?m)^\s*import\s+([^\n#]+)"@
}

/// The pattern of a Python `from X import ..` statement; group `1` is the
/// module, group `2` the imported names.
pub open spec fn py_from_pattern() -> Seq<char> {
    r"(?m)^\s*from\s+([.\w]+)\s+import\s+([^\n#]*)"@
}

/// The matches of a pattern, none when it does not compile.
pub open spec fn matches_or_none(m: Option<Seq<Seq<Option<Seq<char>>>>>) -> Seq<Seq<Option<Seq<char>>>> {
    match m {
        Some(v) => v,
        None => Seq::empty(),
    }
}

/// The specifiers of a Rust source text.
pub open spec fn rust_specs_of(content: Seq<char>) -> Seq<KindSpec> {
    dedup_first(
        flat_matches(matches_or_none(regex_captures(rust_use_pattern(), content)), rust_use_items()) + flat_matches(
            matches_or_none(regex_captures(rust_mod_pattern(), content)),
            single_item(RelationshipKind::ModuleReference),
        ),
    )
}

/// The specifiers of a JavaScript/TypeScript source text.
pub open spec fn js_specs_of(content: Seq<char>) -> Seq<KindSpec> {
    dedup_first(
        flat_matches(matches_or_none(regex_captures(js_export_pattern(), content)), single_item(RelationshipKind::Export))
            + flat_matches(matches_or_none(regex_captures(js_import_pattern(), content)), single_item(RelationshipKind::Import))
            + flat_matches(matches_or_none(regex_captures(js_dynamic_pattern(), content)), single_item(RelationshipKind::Import)),
    )
}

/// The specifiers of a Python source text.
pub open spec fn py_specs_of(content: Seq<char>) -> Seq<KindSpec> {
    dedup_first(
        flat_matches(matches_or_none(regex_captures(py_from_pattern(), content)), from_items()) + flat_matches(
            matches_or_none(regex_captures(py_import_pattern(), content)),
            plain_import_items(),
        ),
    )
}

/// The specifiers of a source text in a language.
pub open spec fn specs_for(language: Language, content: Seq<char>) -> Seq<KindSpec> {
    match language {
        Language::Rust => rust_specs_of(content),
        Language::TypeScript | Language::JavaScript => js_specs_of(content),
        Language::Python => py_specs_of(content),
        _ => Seq::empty(),
    }
}

/// The matches of a pattern over a text.
fn matches_of(pattern: &str, content: &str) -> (r: Vec<Vec<Option<String>>>)
    ensures
        matches_view(r@) == matches_or_none(regex_captures(pattern@, content@)),
{
    match captures(pattern, content) {
        Some(m) => m,
        None => {
            let e: Vec<Vec<Option<String>>> = Vec::new();
            assert(matches_view(e@) =~= Seq::<Seq<Option<Seq<char>>>>::empty());
            e
        },
    }
}

/// The import and module-reference specifiers of a Rust source text.
pub fn extract_rust(content: &str) -> (r: Vec<(RelationshipKind, String)>)
    ensures
        spec_string_views(r@) == rust_specs_of(content@),
{
    let uses = matches_of(r"(?m)^\s*use\s+([^;]+);", content);
    let mods = matches_of(r"(?m)^\s*(?:pub\s*(?:\([^)]*\))?\s+)?mod\s+([a-zA-Z_][a-zA-Z0-9_]*)\s*;", content);
    rust_specifiers(&uses, &mods)
}

/// The import and export specifiers of a JavaScript/TypeScript source
/// text.
pub fn extract_javascript(content: &str) -> (r: Vec<(RelationshipKind, String)>)
    ensures
        spec_string_views(r@) == js_specs_of(content@),
{
    let exports = matches_of(r#"\bexport\s+[^;"'\n]*?\sfrom\s+["']([^"']+)["']"#, content);
    let imports = matches_of(r#"\bimport\s+(?:[^;"'\n]*?\sfrom\s+)?["']([^"']+)["']"#, content);
    let dynamic = matches_of(r#"\b(?:import|require)\s*\(\s*["']([^"']+)["']"#, content);
    javascript_specifiers(&exports, &imports, &dynamic)
}

/// The import specifiers of a Python source text.
pub fn extract_python(content: &str) -> (r: Vec<(RelationshipKind, String)>)
    ensures
        spec_string_views(r@) == py_specs_of(content@),
{
    let froms = matches_of(r"(?m)^\s*from\s+([.\w]+)\s+import\s+([^\n#]*)", content);
    let imports = matches_of(r"(?m)^\s*import\s+([^\n#]+)", content);
    python_specifiers(&froms, &imports)
}

/// The specifiers of a source text in a language (none for languages
/// without import analysis).
pub fn extract_for_language(language: Language, content: &str) -> (r: Vec<(RelationshipKind, String)>)
    ensures
        spec_string_views(r@) == specs_for(language, content@),
{
    match language {
        Language::Rust => extract_rust(content),
        Language::TypeScript | Language::JavaScript => extract_javascript(content),
        Language::Python => extract_python(content),
        _ => {
            let e: Vec<(RelationshipKind, String)> = Vec::new();
            assert(spec_string_views(e@) =~= Seq::<KindSpec>::empty());
            e
        },
    }
}

/// The number of segments of a path (`0` for the empty path).
pub open spec fn seg_count(p: Seq<char>) -> nat {
    if p.len() == 0 {
        0
    } else {
        split_char(p, '/').len()
    }
}

/// The index of the project root a file belongs to: among the roots the
/// path lies under, the one with the most segments (the later one on a
/// tie); `None` when it lies under none.
pub open spec fn nearest_root(roots: Seq<Seq<char>>, rel: Seq<char>) -> Option<int>
    decreases roots.len(),
{
    if roots.len() == 0 {
        None
    } else {
        let prev = nearest_root(roots.drop_last(), rel);
        let i = roots.len() - 1;
        if crate::paths::path_starts_with(rel, roots[i]) && (prev is None || seg_count(roots[i]) >= seg_count(
            roots[prev->0],
        )) {
            Some(i)
        } else {
            prev
        }
    }
}

proof fn lemma_nearest_root_bound(roots: Seq<Seq<char>>, rel: Seq<char>)
    ensures
        nearest_root(roots, rel) matches Some(i) ==> 0 <= i < roots.len(),
    decreases roots.len(),
{
    if roots.len() > 0 {
        lemma_nearest_root_bound(roots.drop_last(), rel);
    }
}

fn seg_count_exec(p: &[char]) -> (r: usize)
    ensures
        r == seg_count(p@),
{
    if p.len() == 0 {
        0
    } else {
        split_chars(p, '/').len()
    }
}

/// The index of the project root a file at `rel` belongs to.
pub fn nearest_project_root(roots: &Vec<String>, rel: &str) -> (r: Option<usize>)
    ensures
        match r {
            Some(i) => nearest_root(views_of(roots@), rel@) == Some(i as int) && i < roots.len(),
            None => nearest_root(views_of(roots@), rel@) is None,
        },
{
    let ghost rv = views_of(roots@);
    let relc = chars_of(rel);
    let mut best: Option<usize> = None;
    let mut best_depth: usize = 0;
    let mut i: usize = 0;
    assert(rv.take(0) =~= Seq::<Seq<char>>::empty());
    while i < roots.len()
        invariant
            i <= roots.len(),
            rv == views_of(roots@),
            relc@ == rel@,
            match best {
                Some(b) => nearest_root(rv.take(i as int), rel@) == Some(b as int) && b < i && best_depth == seg_count(
                    rv[b as int],
                ),
                None => nearest_root(rv.take(i as int), rel@) is None,
            },
        decreases roots.len() - i,
    {
        assert(rv.take(i + 1).drop_last() =~= rv.take(i as int));
        assert(rv.take(i + 1)[i as int] == rv[i as int]);
        let rc = chars_of(roots[i].as_str());
        if crate::paths::starts_with_path(relc.as_slice(), rc.as_slice()) {
            let d = seg_count_exec(rc.as_slice());
            let better = match best {
                None => true,
                Some(b) => d >= best_depth,
            };
            if better {
                best = Some(i);
                best_depth = d;
            }
        }
        proof {
            match best {
                Some(b) => {
                    assert(rv.take(i + 1)[b as int] == rv[b as int]);
                },
                None => {},
            }
        }
        i = i + 1;
    }
    assert(rv.take(rv.len() as int) =~= rv);
    best
}

/// The file a specifier names, by language.
pub open spec fn resolve_spec(
    language: Language,
    s: Seq<char>,
    source_dir: Seq<char>,
    is_mod_file: bool,
    root: Seq<char>,
    files: Seq<Seq<char>>,
    aliases: Seq<(Seq<char>, Seq<char>)>,
) -> Option<Seq<char>> {
    match language {
        Language::Rust => resolve_rust_spec(s, source_dir, is_mod_file, root, files),
        Language::TypeScript | Language::JavaScript => resolve_js_spec(s, source_dir, root, files, aliases),
        Language::Python => resolve_py_spec(s, source_dir, root, files),
        _ => None,
    }
}

/// The file a specifier names, by language.
pub fn resolve_specifier(
    language: Language,
    specifier: &str,
    source_dir: &str,
    is_mod_file: bool,
    root: &str,
    files: &Vec<String>,
    aliases: &Vec<(String, String)>,
) -> (r: Option<String>)
    ensures
        match r {
            Some(f) => resolve_spec(language, specifier@, source_dir@, is_mod_file, root@, views_of(files@), alias_views(aliases@)) == Some(f@),
            None => resolve_spec(language, specifier@, source_dir@, is_mod_file, root@, views_of(files@), alias_views(aliases@)) is None,
        },
{
    match language {
        Language::Rust => resolve_rust(specifier, source_dir, is_mod_file, root, files),
        Language::TypeScript | Language::JavaScript => resolve_javascript(specifier, source_dir, root, files, aliases),
        Language::Python => resolve_python(specifier, source_dir, root, files),
        _ => None,
    }
}

/// A relationship as (source, target, kind, resolved).
pub type RelView = (Seq<char>, Seq<char>, RelationshipKind, bool);

/// A relationship as text.
pub open spec fn rel_view(r: Relationship) -> RelView {
    (r.source@, r.target@, r.kind, r.resolved)
}

/// Relationships as text.
pub open spec fn rel_views(v: Seq<Relationship>) -> Seq<RelView> {
    Seq::new(v.len(), |i: int| rel_view(v[i]))
}

/// The relationship one specifier of the file at `rel` gives: to the file
/// it resolves to, else to the raw specifier when that is worth
/// reporting.
pub open spec fn spec_rel(
    language: Language,
    sp: KindSpec,
    rel: Seq<char>,
    root: Seq<char>,
    files: Seq<Seq<char>>,
    aliases: Seq<(Seq<char>, Seq<char>)>,
) -> Option<RelView> {
    match resolve_spec(language, sp.1, parent_of(rel), file_name_of(rel) == "mod.rs"@, root, files, aliases) {
        Some(t) => Some((crate::paths::slashes(rel), crate::paths::slashes(t), sp.0, true)),
        None => if reportable_spec(language, sp.1, aliases) {
            Some((crate::paths::slashes(rel), sp.1, sp.0, false))
        } else {
            None
        },
    }
}

/// The relationships of the specifiers of the file at `rel`, in order.
pub open spec fn spec_rels(
    language: Language,
    sps: Seq<KindSpec>,
    rel: Seq<char>,
    root: Seq<char>,
    files: Seq<Seq<char>>,
    aliases: Seq<(Seq<char>, Seq<char>)>,
) -> Seq<RelView>
    decreases sps.len(),
{
    if sps.len() == 0 {
        Seq::empty()
    } else {
        spec_rels(language, sps.drop_last(), rel, root, files, aliases) + match spec_rel(
            language,
            sps.last(),
            rel,
            root,
            files,
            aliases,
        ) {
            Some(v) => seq![v],
            None => Seq::empty(),
        }
    }
}

/// Whether a language's imports are analysed.
pub open spec fn analysed(l: Language) -> bool {
    l == Language::Rust || l == Language::TypeScript || l == Language::JavaScript || l == Language::Python
}

/// The project root directory of the file at `rel` (the empty path when it
/// lies under none).
pub open spec fn root_of(roots: Seq<Seq<char>>, rel: Seq<char>) -> Seq<char> {
    match nearest_root(roots, rel) {
        Some(i) => roots[i],
        None => Seq::empty(),
    }
}

/// The relationships of one scanned file with its text, if it was read.
pub open spec fn file_rels(
    f: ScannedFile,
    content: Option<Seq<char>>,
    roots: Seq<Seq<char>>,
    files: Seq<Seq<char>>,
    aliases: Seq<(Seq<char>, Seq<char>)>,
    max_bytes: u64,
) -> Seq<RelView> {
    match language_of_path(f.rel@) {
        Some(l) => if analysed(l) && f.size <= max_bytes {
            match content {
                Some(c) => spec_rels(l, specs_for(l, c), f.rel@, root_of(roots, f.rel@), files, aliases),
                None => Seq::empty(),
            }
        } else {
            Seq::empty()
        },
        None => Seq::empty(),
    }
}

/// The text read for the file at index `i`, if any.
pub open spec fn content_at(contents: Seq<Option<String>>, i: int) -> Option<Seq<char>> {
    if 0 <= i < contents.len() {
        match contents[i] {
            Some(s) => Some(s@),
            None => None,
        }
    } else {
        None
    }
}

/// The relationships of the first `n` scanned files, in file order.
pub open spec fn all_rels(
    fs: Seq<ScannedFile>,
    contents: Seq<Option<String>>,
    roots: Seq<Seq<char>>,
    aliases: Seq<(Seq<char>, Seq<char>)>,
    max_bytes: u64,
    n: int,
) -> Seq<RelView>
    decreases n,
{
    if n <= 0 {
        Seq::empty()
    } else {
        all_rels(fs, contents, roots, aliases, max_bytes, n - 1) + file_rels(
            fs[n - 1],
            content_at(contents, n - 1),
            roots,
            rels(fs),
            aliases,
            max_bytes,
        )
    }
}

/// The order of relationships: source, then target, then kind.
pub open spec fn rel_lt(a: RelView, b: RelView) -> bool {
    lex_lt(a.0, b.0, false) || (a.0 == b.0 && (lex_lt(a.1, b.1, false) || (a.1 == b.1 && kind_rank(a.2) < kind_rank(
        b.2,
    ))))
}

/// `x` inserted into a sorted list after every element not above it.
pub open spec fn insert_rel(s: Seq<RelView>, x: RelView) -> Seq<RelView>
    decreases s.len(),
{
    if s.len() == 0 {
        seq![x]
    } else if rel_lt(x, s.last()) {
        insert_rel(s.drop_last(), x).push(s.last())
    } else {
        s.push(x)
    }
}

/// A stable sort by `rel_lt`: relationships with the same source, target
/// and kind keep their order.
pub open spec fn sort_rels(s: Seq<RelView>) -> Seq<RelView>
    decreases s.len(),
{
    if s.len() == 0 {
        Seq::empty()
    } else {
        insert_rel(sort_rels(s.drop_last()), s.last())
    }
}

/// Consecutive repeats removed (`Vec::dedup`).
pub open spec fn dedup_adjacent(s: Seq<RelView>) -> Seq<RelView>
    decreases s.len(),
{
    if s.len() <= 1 {
        s
    } else if s.last() == s[s.len() - 2] {
        dedup_adjacent(s.drop_last())
    } else {
        dedup_adjacent(s.drop_last()).push(s.last())
    }
}

/// Whether relationships are in (source, target, kind) order.
pub open spec fn rels_sorted(s: Seq<RelView>) -> bool {
    forall|i: int, j: int| 0 <= i < j < s.len() ==> !rel_lt(#[trigger] s[j], #[trigger] s[i])
}

/// Whether two relationships have the same source, target and kind.
pub open spec fn same_key(a: RelView, b: RelView) -> bool {
    a.0 == b.0 && a.1 == b.1 && a.2 == b.2
}

proof fn lemma_rel_order(a: RelView, b: RelView, c: RelView)
    ensures
        !rel_lt(a, a),
        rel_lt(a, b) ==> !rel_lt(b, a),
        same_key(a, b) || rel_lt(a, b) || rel_lt(b, a),
        rel_lt(a, b) && rel_lt(b, c) ==> rel_lt(a, c),
        same_key(a, b) ==> (rel_lt(a, c) == rel_lt(b, c) && rel_lt(c, a) == rel_lt(c, b)),
{
    crate::order::lemma_lex_lt_asym(a.0, b.0, false);
    crate::order::lemma_lex_lt_asym(a.1, b.1, false);
    crate::order::lemma_lex_lt_asym(a.0, a.0, false);
    crate::order::lemma_lex_lt_asym(a.1, a.1, false);
    crate::order::lemma_lex_lt_total(a.0, b.0, false);
    crate::order::lemma_lex_lt_total(a.1, b.1, false);
    if lex_lt(a.0, b.0, false) && lex_lt(b.0, c.0, false) {
        crate::order::lemma_lex_lt_trans(a.0, b.0, c.0, false);
    }
    if lex_lt(a.1, b.1, false) && lex_lt(b.1, c.1, false) {
        crate::order::lemma_lex_lt_trans(a.1, b.1, c.1, false);
    }
    assert(kind_rank(a.2) == kind_rank(b.2) ==> a.2 == b.2);
}

proof fn lemma_insert_rel(s: Seq<RelView>, x: RelView)
    requires
        rels_sorted(s),
    ensures
        rels_sorted(insert_rel(s, x)),
        insert_rel(s, x).len() == s.len() + 1,
        forall|y: RelView| #[trigger] insert_rel(s, x).contains(y) ==> s.contains(y) || y == x,
    decreases s.len(),
{
    let r = insert_rel(s, x);
    if s.len() == 0 {
    } else if rel_lt(x, s.last()) {
        let dl = s.drop_last();
        assert forall|i: int, j: int| 0 <= i < j < dl.len() implies !rel_lt(#[trigger] dl[j], #[trigger] dl[i]) by {
            assert(dl[i] == s[i] && dl[j] == s[j]);
        }
        lemma_insert_rel(dl, x);
        let q = insert_rel(dl, x);
        assert(r == q.push(s.last()));
        assert forall|i: int, j: int| 0 <= i < j < r.len() implies !rel_lt(#[trigger] r[j], #[trigger] r[i]) by {
            if j < r.len() - 1 {
                assert(r[i] == q[i] && r[j] == q[j]);
            } else {
                assert(r[i] == q[i]);
                assert(q.contains(q[i]));
                if q[i] == x {
                    lemma_rel_order(x, s.last(), x);
                } else {
                    assert(dl.contains(q[i]));
                    let k = choose|k: int| 0 <= k < dl.len() && dl[k] == q[i];
                    assert(s[k] == dl[k]);
                    assert(!rel_lt(s[s.len() - 1], s[k]));
                }
            }
        }
        assert forall|y: RelView| #[trigger] r.contains(y) implies s.contains(y) || y == x by {
            let k = choose|k: int| 0 <= k < r.len() && r[k] == y;
            if k < r.len() - 1 {
                assert(q.contains(q[k]));
                if dl.contains(y) {
                    let m = choose|m: int| 0 <= m < dl.len() && dl[m] == y;
                    assert(s[m] == y);
                }
            } else {
                assert(s[s.len() - 1] == y);
            }
        }
    } else {
        assert(r == s.push(x));
        assert forall|i: int, j: int| 0 <= i < j < r.len() implies !rel_lt(#[trigger] r[j], #[trigger] r[i]) by {
            if j < r.len() - 1 {
                assert(r[i] == s[i] && r[j] == s[j]);
            } else {
                assert(r[j] == x && r[i] == s[i]);
                let l = s.last();
                lemma_rel_order(x, s[i], l);
                lemma_rel_order(s[i], l, x);
                lemma_rel_order(l, x, s[i]);
                lemma_rel_order(x, l, s[i]);
                if i < s.len() - 1 {
                    assert(!rel_lt(s[s.len() - 1], s[i]));
                }
            }
        }
        assert forall|y: RelView| #[trigger] r.contains(y) implies s.contains(y) || y == x by {
            let k = choose|k: int| 0 <= k < r.len() && r[k] == y;
            if k < s.len() {
                assert(s[k] == y);
            }
        }
    }
}

proof fn lemma_sort_rels(s: Seq<RelView>)
    ensures
        rels_sorted(sort_rels(s)),
    decreases s.len(),
{
    if s.len() > 0 {
        lemma_sort_rels(s.drop_last());
        lemma_insert_rel(sort_rels(s.drop_last()), s.last());
    }
}

proof fn lemma_dedup_adjacent(s: Seq<RelView>)
    requires
        rels_sorted(s),
    ensures
        rels_sorted(dedup_adjacent(s)),
        forall|k: int| 0 < k < dedup_adjacent(s).len() ==> #[trigger] dedup_adjacent(s)[k] != dedup_adjacent(s)[k - 1],
        s.len() > 0 ==> dedup_adjacent(s).len() > 0 && dedup_adjacent(s).last() == s.last(),
        dedup_adjacent(s).len() <= s.len(),
        forall|y: RelView| #[trigger] dedup_adjacent(s).contains(y) ==> s.contains(y),
    decreases s.len(),
{
    if s.len() > 1 {
        let dl = s.drop_last();
        assert forall|i: int, j: int| 0 <= i < j < dl.len() implies !rel_lt(#[trigger] dl[j], #[trigger] dl[i]) by {
            assert(dl[i] == s[i] && dl[j] == s[j]);
        }
        lemma_dedup_adjacent(dl);
        let q = dedup_adjacent(dl);
        let d = dedup_adjacent(s);
        assert forall|y: RelView| #[trigger] q.contains(y) implies s.contains(y) by {
            assert(dl.contains(y));
            let m = choose|m: int| 0 <= m < dl.len() && dl[m] == y;
            assert(s[m] == y);
        }
        if s.last() == s[s.len() - 2] {
            assert(d == q);
            assert(dl.last() == s.last());
            assert forall|y: RelView| #[trigger] d.contains(y) implies s.contains(y) by {
                assert(q.contains(y));
            }
        } else {
            assert(d == q.push(s.last()));
            assert forall|i: int, j: int| 0 <= i < j < d.len() implies !rel_lt(#[trigger] d[j], #[trigger] d[i]) by {
                if j < d.len() - 1 {
                    assert(d[i] == q[i] && d[j] == q[j]);
                } else {
                    assert(d[i] == q[i]);
                    assert(q.contains(q[i]));
                    assert(dl.contains(q[i]));
                    let k = choose|k: int| 0 <= k < dl.len() && dl[k] == q[i];
                    assert(s[k] == dl[k]);
                    assert(!rel_lt(s[s.len() - 1], s[k]));
                }
            }
            assert forall|k: int| 0 < k < d.len() implies #[trigger] d[k] != d[k - 1] by {
                if k < d.len() - 1 {
                    assert(d[k] == q[k] && d[k - 1] == q[k - 1]);
                } else {
                    assert(d[k - 1] == q.last());
                    assert(q.last() == dl.last());
                }
            }
            assert forall|y: RelView| #[trigger] d.contains(y) implies s.contains(y) by {
                let k = choose|k: int| 0 <= k < d.len() && d[k] == y;
                if k < d.len() - 1 {
                    assert(q[k] == y);
                    assert(q.contains(y));
                } else {
                    assert(s[s.len() - 1] == y);
                }
            }
        }
    } else if s.len() == 1 {
        assert(dedup_adjacent(s) == s);
    }
}

/// What an extraction reports is in (source, target, kind) order, and no
/// two consecutive relationships are identical.
pub proof fn law_relationships_sorted(s: Seq<RelView>)
    ensures
        rels_sorted(dedup_adjacent(sort_rels(s))),
        forall|k: int| 0 < k < dedup_adjacent(sort_rels(s)).len() ==> #[trigger] dedup_adjacent(sort_rels(s))[k]
            != dedup_adjacent(sort_rels(s))[k - 1],
{
    lemma_sort_rels(s);
    lemma_dedup_adjacent(sort_rels(s));
}

/// The aliases every extractor starts with: `@/`, `@`, `~/` and `~` for
/// `src`.
pub open spec fn default_aliases() -> Seq<(Seq<char>, Seq<char>)> {
    seq![("@/"@, "src"@), ("@"@, "src"@), ("~/"@, "src"@), ("~"@, "src"@)]
}

/// The index of the first alias with prefix `p`.
pub open spec fn find_prefix(list: Seq<(Seq<char>, Seq<char>)>, p: Seq<char>) -> Option<int>
    decreases list.len(),
{
    if list.len() == 0 {
        None
    } else if list[0].0 == p {
        Some(0)
    } else {
        match find_prefix(list.drop_first(), p) {
            Some(i) => Some(i + 1),
            None => None,
        }
    }
}

proof fn lemma_find_prefix(list: Seq<(Seq<char>, Seq<char>)>, p: Seq<char>)
    ensures
        find_prefix(list, p) matches Some(i) ==> 0 <= i < list.len() && list[i].0 == p && forall|j: int|
            0 <= j < i ==> list[j].0 != p,
        find_prefix(list, p) is None ==> forall|j: int| 0 <= j < list.len() ==> list[j].0 != p,
    decreases list.len(),
{
    if list.len() > 0 {
        lemma_find_prefix(list.drop_first(), p);
        if list[0].0 != p {
            assert forall|j: int| 1 <= j < list.len() implies list[j] == list.drop_first()[j - 1] by {}
        }
    }
}

/// One custom alias merged in: it replaces the alias with the same prefix,
/// or is appended.
pub open spec fn merge_alias(list: Seq<(Seq<char>, Seq<char>)>, a: (Seq<char>, Seq<char>)) -> Seq<(Seq<char>, Seq<char>)> {
    match find_prefix(list, a.0) {
        Some(i) => list.update(i, a),
        None => list.push(a),
    }
}

/// Custom aliases merged in, in order.
pub open spec fn merge_aliases(list: Seq<(Seq<char>, Seq<char>)>, custom: Seq<(Seq<char>, Seq<char>)>) -> Seq<(Seq<char>, Seq<char>)>
    decreases custom.len(),
{
    if custom.len() == 0 {
        list
    } else {
        merge_alias(merge_aliases(list, custom.drop_last()), custom.last())
    }
}

/// The default bound on the size of a source file whose imports are read.
pub const DEFAULT_MAX_SOURCE_BYTES: u64 = 524288;

/// Extracts file-to-file relationships from a repository scan.
#[derive(Debug, Clone)]
pub struct ImportExtractor {
    max_source_bytes: u64,
    aliases: Vec<(String, String)>,
}

fn clone_rel(r: &Relationship) -> (c: Relationship)
    ensures
        rel_view(c) == rel_view(*r),
{
    Relationship {
        source: crate::text::to_owned_string(r.source.as_str()),
        target: crate::text::to_owned_string(r.target.as_str()),
        kind: r.kind,
        resolved: r.resolved,
    }
}

fn kind_rank_exec(k: RelationshipKind) -> (r: u8)
    ensures
        r as int == kind_rank(k),
{
    match k {
        RelationshipKind::Import => 0,
        RelationshipKind::Export => 1,
        RelationshipKind::ModuleReference => 2,
    }
}

fn rel_less(a: &Relationship, b: &Relationship) -> (r: bool)
    ensures
        r == rel_lt(rel_view(*a), rel_view(*b)),
{
    let c = compare_str(a.source.as_str(), b.source.as_str(), false);
    if c != 0 {
        return c == -1;
    }
    let t = compare_str(a.target.as_str(), b.target.as_str(), false);
    if t != 0 {
        proof {
            crate::order::lemma_lex_lt_asym(a.source@, a.source@, false);
        }
        return t == -1;
    }
    proof {
        crate::order::lemma_lex_lt_asym(a.source@, a.source@, false);
        crate::order::lemma_lex_lt_asym(a.target@, a.target@, false);
    }
    kind_rank_exec(a.kind) < kind_rank_exec(b.kind)
}

fn same_rel(a: &Relationship, b: &Relationship) -> (r: bool)
    ensures
        r == (rel_view(*a) == rel_view(*b)),
{
    crate::text::str_eq(a.source.as_str(), b.source.as_str()) && crate::text::str_eq(a.target.as_str(), b.target.as_str())
        && a.kind == b.kind && a.resolved == b.resolved
}

/// Sorts relationships by source, target and kind, keeping the order of
/// equal ones.
pub fn sort_relationships(v: &Vec<Relationship>) -> (r: Vec<Relationship>)
    ensures
        rel_views(r@) == sort_rels(rel_views(v@)),
{
    let ghost vv = rel_views(v@);
    let mut out: Vec<Relationship> = Vec::new();
    let mut i: usize = 0;
    assert(vv.take(0) =~= Seq::<RelView>::empty());
    while i < v.len()
        invariant
            i <= v.len(),
            vv == rel_views(v@),
            rel_views(out@) == sort_rels(vv.take(i as int)),
        decreases v.len() - i,
    {
        let x = clone_rel(&v[i]);
        let ghost xs = rel_view(x);
        let ghost sv = rel_views(out@);
        let mut p: usize = out.len();
        assert(sv.take(p as int) =~= sv);
        assert(sv.skip(p as int) =~= Seq::<RelView>::empty());
        while p > 0 && rel_less(&x, &out[p - 1])
            invariant
                p <= out.len(),
                sv == rel_views(out@),
                xs == rel_view(x),
                insert_rel(sv, xs) == insert_rel(sv.take(p as int), xs) + sv.skip(p as int),
            decreases p,
        {
            proof {
                assert(sv.take(p as int).last() == sv[p - 1]);
                assert(sv.take(p as int).drop_last() =~= sv.take(p - 1));
                assert(sv.skip(p - 1) =~= seq![sv[p - 1]] + sv.skip(p as int));
                assert(insert_rel(sv.take(p - 1), xs).push(sv[p - 1]) + sv.skip(p as int) =~= insert_rel(
                    sv.take(p - 1),
                    xs,
                ) + sv.skip(p - 1));
            }
            p = p - 1;
        }
        proof {
            if p > 0 {
                assert(sv.take(p as int).last() == sv[p - 1]);
            }
            assert(insert_rel(sv.take(p as int), xs) == sv.take(p as int).push(xs));
        }
        out.insert(p, x);
        proof {
            assert(rel_views(out@) =~= sv.take(p as int).push(xs) + sv.skip(p as int));
            assert(vv.take(i + 1).drop_last() =~= vv.take(i as int));
            assert(vv.take(i + 1).last() == xs);
        }
        i = i + 1;
    }
    assert(vv.take(vv.len() as int) =~= vv);
    out
}

/// Removes consecutive repeats.
pub fn dedup_relationships(v: &Vec<Relationship>) -> (r: Vec<Relationship>)
    ensures
        rel_views(r@) == dedup_adjacent(rel_views(v@)),
{
    let ghost vv = rel_views(v@);
    let mut out: Vec<Relationship> = Vec::new();
    let mut i: usize = 0;
    assert(vv.take(0) =~= Seq::<RelView>::empty());
    while i < v.len()
        invariant
            i <= v.len(),
            vv == rel_views(v@),
            rel_views(out@) == dedup_adjacent(vv.take(i as int)),
            i > 0 ==> out@.len() > 0 && rel_view(out@.last()) == vv[i - 1],
        decreases v.len() - i,
    {
        assert(vv.take(i + 1).drop_last() =~= vv.take(i as int));
        assert(vv.take(i + 1).last() == vv[i as int]);
        let dup = out.len() > 0 && same_rel(&out[out.len() - 1], &v[i]);
        if !dup {
            let x = clone_rel(&v[i]);
            let ghost before = rel_views(out@);
            out.push(x);
            assert(rel_views(out@) =~= before.push(vv[i as int]));
            if i > 0 {
                assert(vv.take(i + 1)[i - 1] == vv[i - 1]);
            } else {
                assert(vv.take(1) =~= seq![vv[0]]);
                assert(dedup_adjacent(vv.take(0)) =~= Seq::<RelView>::empty());
            }
        } else {
            assert(vv.take(i + 1)[i - 1] == vv[i - 1]);
        }
        i = i + 1;
    }
    assert(vv.take(vv.len() as int) =~= vv);
    out
}

impl Default for ImportExtractor {
    fn default() -> (r: Self)
        ensures
            r.max_bytes() == DEFAULT_MAX_SOURCE_BYTES,
            r.alias_list() == default_aliases(),
    {
        let e: Vec<(String, String)> = Vec::new();
        let r = ImportExtractor::new(DEFAULT_MAX_SOURCE_BYTES, e);
        assert(alias_views(e@) =~= Seq::<(Seq<char>, Seq<char>)>::empty());
        r
    }
}

impl ImportExtractor {
    /// The size bound on source files whose imports are read.
    pub closed spec fn max_bytes(&self) -> u64 {
        self.max_source_bytes
    }

    /// The specifier aliases, as (prefix, directory).
    pub closed spec fn alias_list(&self) -> Seq<(Seq<char>, Seq<char>)> {
        alias_views(self.aliases@)
    }

    /// Creates an extractor with a source-size cap and custom aliases. Each
    /// alias is a (prefix, directory) pair: a specifier starting with the
    /// prefix is resolved under the directory, inside the nearest project
    /// root. The defaults (`@/`, `@`, `~/`, `~` for `src`) always apply; a
    /// custom alias with the same prefix replaces one.
    pub fn new(max_source_bytes: u64, custom_aliases: Vec<(String, String)>) -> (r: Self)
        ensures
            r.max_bytes() == max_source_bytes,
            r.alias_list() == merge_aliases(default_aliases(), alias_views(custom_aliases@)),
    {
        let mut aliases: Vec<(String, String)> = Vec::new();
        aliases.push((crate::text::to_owned_string("@/"), crate::text::to_owned_string("src")));
        aliases.push((crate::text::to_owned_string("@"), crate::text::to_owned_string("src")));
        aliases.push((crate::text::to_owned_string("~/"), crate::text::to_owned_string("src")));
        aliases.push((crate::text::to_owned_string("~"), crate::text::to_owned_string("src")));
        let ghost cv = alias_views(custom_aliases@);
        assert(alias_views(aliases@) =~= default_aliases());
        assert(cv.take(0) =~= Seq::<(Seq<char>, Seq<char>)>::empty());
        let mut k: usize = 0;
        while k < custom_aliases.len()
            invariant
                k <= custom_aliases.len(),
                cv == alias_views(custom_aliases@),
                alias_views(aliases@) == merge_aliases(default_aliases(), cv.take(k as int)),
            decreases custom_aliases.len() - k,
        {
            let ghost av = alias_views(aliases@);
            let p = crate::text::to_owned_string(custom_aliases[k].0.as_str());
            let d = crate::text::to_owned_string(custom_aliases[k].1.as_str());
            proof {
                lemma_find_prefix(av, p@);
                assert(cv.take(k + 1).drop_last() =~= cv.take(k as int));
                assert(cv.take(k + 1).last() == (p@, d@));
            }
            let mut j: usize = 0;
            let mut slot: Option<usize> = None;
            while j < aliases.len()
                invariant
                    j <= aliases.len(),
                    av == alias_views(aliases@),
                    match slot {
                        Some(s) => s < aliases.len() && find_prefix(av, p@) == Some(s as int),
                        None => forall|q: int| 0 <= q < j ==> av[q].0 != p@,
                    },
                    find_prefix(av, p@) matches Some(i) ==> 0 <= i < av.len() && av[i].0 == p@ && forall|q: int|
                        0 <= q < i ==> av[q].0 != p@,
                    find_prefix(av, p@) is None ==> forall|q: int| 0 <= q < av.len() ==> av[q].0 != p@,
                decreases aliases.len() - j,
            {
                assert(av[j as int].0 == aliases@[j as int].0@);
                if slot.is_none() && crate::text::str_eq(aliases[j].0.as_str(), p.as_str()) {
                    slot = Some(j);
                    proof {
                        match find_prefix(av, p@) {
                            Some(i) => {
                                if i < j {
                                } else if i > j {
                                }
                            },
                            None => {},
                        }
                    }
                }
                j = j + 1;
            }
            match slot {
                Some(s) => {
                    aliases.set(s, (p, d));
                    assert(alias_views(aliases@) =~= av.update(s as int, (p@, d@)));
                },
                None => {
                    aliases.push((p, d));
                    assert(alias_views(aliases@) =~= av.push((p@, d@)));
                },
            }
            k = k + 1;
        }
        assert(cv.take(cv.len() as int) =~= cv);
        ImportExtractor { max_source_bytes, aliases }
    }

    /// The size bound on source files whose imports are read.
    pub fn max_source_bytes(&self) -> (r: u64)
        ensures
            r == self.max_bytes(),
    {
        self.max_source_bytes
    }

    /// The specifier aliases, as (prefix, directory).
    pub fn aliases(&self) -> (r: &Vec<(String, String)>)
        ensures
            alias_views(r@) == self.alias_list(),
    {
        &self.aliases
    }

    /// Whether a scanned file's text is wanted: its language has import
    /// analysis and it is within the size bound.
    pub fn wants(&self, file: &ScannedFile) -> (r: bool)
        ensures
            r == (match language_of_path(file.rel@) {
                Some(l) => analysed(l) && file.size <= self.max_bytes(),
                None => false,
            }),
    {
        match LanguageDetector.detect(file.rel.as_str()) {
            Some(l) => l.supports_import_analysis() && file.size <= self.max_source_bytes,
            None => false,
        }
    }

    fn file_relationships(
        &self,
        f: &ScannedFile,
        content: Option<&String>,
        roots: &Vec<String>,
        files: &Vec<String>,
        out: &mut Vec<Relationship>,
    )
        ensures
            rel_views(final(out)@) == rel_views(old(out)@) + file_rels(
                *f,
                match content {
                    Some(c) => Some(c@),
                    None => None,
                },
                views_of(roots@),
                views_of(files@),
                self.alias_list(),
                self.max_bytes(),
            ),
    {
        let ghost start = rel_views(out@);
        let lang = match LanguageDetector.detect(f.rel.as_str()) {
            Some(l) => l,
            None => {
                assert(start + Seq::<RelView>::empty() =~= start);
                return;
            },
        };
        if !lang.supports_import_analysis() || f.size > self.max_source_bytes {
            assert(start + Seq::<RelView>::empty() =~= start);
            return;
        }
        let text = match content {
            Some(c) => c,
            None => {
                assert(start + Seq::<RelView>::empty() =~= start);
                return;
            },
        };
        let specs = extract_for_language(lang, text.as_str());
        let relc = chars_of(f.rel.as_str());
        let sd = string_from_chars(parent_chars(relc.as_slice()).as_slice());
        let name = crate::paths::file_name_chars(relc.as_slice());
        let is_mod = crate::text::chars_eq(name.as_slice(), chars_of("mod.rs").as_slice());
        let root = match nearest_project_root(roots, f.rel.as_str()) {
            Some(i) => crate::text::to_owned_string(roots[i].as_str()),
            None => crate::text::to_owned_string(""),
        };
        proof {
            reveal_strlit("");
            lemma_nearest_root_bound(views_of(roots@), f.rel@);
        }
        assert(root@ == root_of(views_of(roots@), f.rel@));
        let source = crate::paths::forward_slashes(f.rel.as_str());
        let ghost sv = spec_string_views(specs@);
        let mut i: usize = 0;
        assert(sv.take(0) =~= Seq::<KindSpec>::empty());
        assert(start + Seq::<RelView>::empty() =~= start);
        while i < specs.len()
            invariant
                i <= specs.len(),
                sv == spec_string_views(specs@),
                sv == specs_for(lang, text@),
                sd@ == parent_of(f.rel@),
                is_mod == (file_name_of(f.rel@) == "mod.rs"@),
                root@ == root_of(views_of(roots@), f.rel@),
                source@ == crate::paths::slashes(f.rel@),
                rel_views(out@) == start + spec_rels(lang, sv.take(i as int), f.rel@, root@, views_of(files@), self.alias_list()),
            decreases specs.len() - i,
        {
            let kind = specs[i].0;
            let sp = specs[i].1.as_str();
            assert(sv.take(i + 1).drop_last() =~= sv.take(i as int));
            assert(sv.take(i + 1).last() == (kind, sp@));
            let ghost before = rel_views(out@);
            match resolve_specifier(lang, sp, sd.as_str(), is_mod, root.as_str(), files, &self.aliases) {
                Some(t) => {
                    let r = Relationship {
                        source: crate::text::to_owned_string(source.as_str()),
                        target: crate::paths::forward_slashes(t.as_str()),
                        kind,
                        resolved: true,
                    };
                    out.push(r);
                    assert(rel_views(out@) =~= before.push(rel_view(r)));
                },
                None => {
                    if reportable_unresolved(lang, sp, &self.aliases) {
                        let r = Relationship {
                            source: crate::text::to_owned_string(source.as_str()),
                            target: crate::text::to_owned_string(sp),
                            kind,
                            resolved: false,
                        };
                        out.push(r);
                        assert(rel_views(out@) =~= before.push(rel_view(r)));
                    } else {
                        assert(before + Seq::<RelView>::empty() =~= before);
                    }
                },
            }
            i = i + 1;
        }
        assert(sv.take(sv.len() as int) =~= sv);
    }

    /// Extracts the relationships of a scan, given the text read for each
    /// scanned file (by position; `None` for a file that was not read, too
    /// large or not UTF-8). The result is sorted by source, target and kind,
    /// with consecutive repeats removed.
    pub fn extract(&self, scan: &ScanResult, contents: &Vec<Option<String>>) -> (r: Vec<Relationship>)
        ensures
            rel_views(r@) == dedup_adjacent(
                sort_rels(
                    all_rels(
                        scan.files@,
                        contents@,
                        views_of(scan.project_roots@),
                        self.alias_list(),
                        self.max_bytes(),
                        scan.files@.len() as int,
                    ),
                ),
            ),
    {
        let files = crate::repo::module_detector::rel_paths(&scan.files);
        let mut collected: Vec<Relationship> = Vec::new();
        let mut i: usize = 0;
        assert(rel_views(collected@) =~= Seq::<RelView>::empty());
        while i < scan.files.len()
            invariant
                i <= scan.files.len(),
                views_of(files@) == rels(scan.files@),
                rel_views(collected@) == all_rels(
                    scan.files@,
                    contents@,
                    views_of(scan.project_roots@),
                    self.alias_list(),
                    self.max_bytes(),
                    i as int,
                ),
            decreases scan.files.len() - i,
        {
            let content: Option<&String> = if i < contents.len() {
                match &contents[i] {
                    Some(c) => Some(c),
                    None => None,
                }
            } else {
                None
            };
            assert(content_at(contents@, i as int) == match content {
                Some(c) => Some(c@),
                None => None::<Seq<char>>,
            });
            self.file_relationships(&scan.files[i], content, &scan.project_roots, &files, &mut collected);
            i = i + 1;
        }
        let sorted = sort_relationships(&collected);
        dedup_relationships(&sorted)
    }
}

} // verus!
