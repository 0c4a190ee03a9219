//! Relevance scoring of candidate files against a request query.
//!
//! Files are scored with path-token matches, filename-stem matches, module
//! membership, language names and structural signals (entry points, graph
//! centrality and reachability). Scores are counted in half points, so a
//! score of `7` stands for `3.5`.

use vstd::prelude::*;
use crate::order::views_of;
use crate::paths::{after_last, after_last_chars, views, last_index, last_index_of, lemma_last_index_of, slice_chars};
use crate::text::{
    alphanumeric_char, chars_eq, chars_of, chars_starts_with, in_list, is_alphanumeric, is_lowercase,
    is_uppercase, is_whitespace, lower, lower_chars, lowercase_char, push_chars, push_str_chars, unicode_lower,
    unicode_lower_chars,
    starts_with, str_views, string_from_chars, uppercase_char, whitespace_char,
};

verus! {

/// Which characters separate the runs of a text.
#[derive(Clone, Copy, PartialEq, Eq, Structural)]
pub enum Separators {
    /// Unicode whitespace.
    Whitespace,
    /// `/`, `-`, `_` and `.` (path segments and name parts).
    Path,
    /// `-`, `_` and `.` (parts of a file name).
    Name,
}

/// Whether `c` is a separator of the given kind.
pub open spec fn is_sep(kind: Separators, c: char) -> bool {
    match kind {
        Separators::Whitespace => whitespace_char(c),
        Separators::Path => c == '/' || c == '-' || c == '_' || c == '.',
        Separators::Name => c == '-' || c == '_' || c == '.',
    }
}

fn is_sep_exec(kind: Separators, c: char) -> (r: bool)
    ensures
        r == is_sep(kind, c),
{
    match kind {
        Separators::Whitespace => is_whitespace(c),
        Separators::Path => c == '/' || c == '-' || c == '_' || c == '.',
        Separators::Name => c == '-' || c == '_' || c == '.',
    }
}

/// The maximal runs of non-separator characters of `s`, in order.
pub open spec fn runs(s: Seq<char>, kind: Separators) -> Seq<Seq<char>>
    decreases s.len(),
{
    if s.len() == 0 {
        Seq::empty()
    } else {
        let prev = runs(s.drop_last(), kind);
        let c = s.last();
        if is_sep(kind, c) {
            prev
        } else if s.len() >= 2 && !is_sep(kind, s[s.len() - 2]) {
            prev.update(prev.len() - 1, prev.last().push(c))
        } else {
            prev.push(seq![c])
        }
    }
}

proof fn lemma_runs_nonempty(s: Seq<char>, kind: Separators)
    requires
        s.len() > 0,
        !is_sep(kind, s.last()),
    ensures
        runs(s, kind).len() > 0,
    decreases s.len(),
{
    if s.len() >= 2 && !is_sep(kind, s[s.len() - 2]) {
        assert(s.drop_last().last() == s[s.len() - 2]);
        lemma_runs_nonempty(s.drop_last(), kind);
    }
}

/// The runs of non-separator characters of `s`.
fn runs_exec(s: &[char], kind: Separators) -> (r: Vec<Vec<char>>)
    ensures
        views(r@) == runs(s@, kind),
{
    let mut out: Vec<Vec<char>> = Vec::new();
    let mut i: usize = 0;
    assert(s@.take(0) =~= Seq::<char>::empty());
    while i < s.len()
        invariant
            i <= s.len(),
            views(out@) == runs(s@.take(i as int), kind),
        decreases s.len() - i,
    {
        let c = s[i];
        let ghost pre = s@.take(i as int);
        let ghost next = s@.take(i + 1);
        assert(next.drop_last() =~= pre);
        assert(next.last() == c);
        if is_sep_exec(kind, c) {
        } else if i >= 1 && !is_sep_exec(kind, s[i - 1]) {
            proof {
                assert(next[next.len() - 2] == s@[i - 1]);
                assert(pre.last() == s@[i - 1]);
                lemma_runs_nonempty(pre, kind);
            }
            let mut w = out.pop().unwrap();
            let ghost old_w = w@;
            w.push(c);
            out.push(w);
            assert(views(out@) =~= runs(next, kind));
        } else {
            proof {
                if i >= 1 {
                    assert(next[next.len() - 2] == s@[i - 1]);
                }
            }
            let mut w: Vec<char> = Vec::new();
            w.push(c);
            out.push(w);
            assert(views(out@) =~= runs(next, kind));
        }
        i = i + 1;
    }
    assert(s@.take(s@.len() as int) =~= s@);
    out
}

/// Whether position `k` of `w` starts a new camel-case part: a lowercase
/// letter followed by an uppercase one, or an uppercase letter followed by
/// an uppercase one that begins a capitalised word (`HTTPServer`).
pub open spec fn camel_boundary(w: Seq<char>, k: int) -> bool {
    (lowercase_char(w[k - 1]) && uppercase_char(w[k])) || (uppercase_char(w[k - 1]) && uppercase_char(w[k])
        && k + 1 < w.len() && lowercase_char(w[k + 1]))
}

/// The camel-case parts of `w[start..]`, scanning boundaries from `k` on.
pub open spec fn camel_from(w: Seq<char>, start: int, k: int) -> Seq<Seq<char>>
    decreases w.len() - k,
{
    if k >= w.len() {
        seq![w.subrange(start, w.len() as int)]
    } else if camel_boundary(w, k) {
        seq![w.subrange(start, k)] + camel_from(w, k, k + 1)
    } else {
        camel_from(w, start, k + 1)
    }
}

/// A word split at camel-case boundaries (`DashboardProvider` gives
/// `Dashboard` and `Provider`; `HTTPServer` gives `HTTP` and `Server`).
pub open spec fn camel_split(w: Seq<char>) -> Seq<Seq<char>> {
    if w.len() < 2 {
        seq![w]
    } else {
        camel_from(w, 0, 1)
    }
}

/// Splits a word at camel-case boundaries.
fn split_camel(w: &[char]) -> (r: Vec<Vec<char>>)
    ensures
        views(r@) == camel_split(w@),
{
    let mut parts: Vec<Vec<char>> = Vec::new();
    if w.len() < 2 {
        let mut one: Vec<char> = Vec::new();
        push_chars(&mut one, w);
        parts.push(one);
        assert(views(parts@) =~= seq![w@]);
        return parts;
    }
    let mut start: usize = 0;
    let mut k: usize = 1;
    while k < w.len()
        invariant
            2 <= w.len(),
            1 <= k <= w.len(),
            start < k,
            views(parts@) + camel_from(w@, start as int, k as int) == camel_from(w@, 0, 1),
        decreases w.len() - k,
    {
        let prev = w[k - 1];
        let cur = w[k];
        let lower_to_upper = is_lowercase(prev) && is_uppercase(cur);
        let acronym = is_uppercase(prev) && is_uppercase(cur) && k + 1 < w.len() && is_lowercase(w[k + 1]);
        if lower_to_upper || acronym {
            let piece = crate::paths::slice_chars(w, start, k);
            let ghost old_parts = views(parts@);
            parts.push(piece);
            assert(views(parts@) =~= old_parts.push(w@.subrange(start as int, k as int)));
            assert(seq![w@.subrange(start as int, k as int)] + camel_from(w@, k as int, k + 1) == camel_from(
                w@,
                start as int,
                k as int,
            ));
            assert(views(parts@) + camel_from(w@, k as int, k + 1) =~= old_parts + camel_from(
                w@,
                start as int,
                k as int,
            ));
            start = k;
        }
        k = k + 1;
    }
    let last = crate::paths::slice_chars(w, start, w.len());
    let ghost old_parts = views(parts@);
    parts.push(last);
    assert(views(parts@) =~= old_parts + camel_from(w@, start as int, k as int));
    parts
}

/// The lowercase camel-case parts of a word.
pub open spec fn word_pieces(w: Seq<char>) -> Seq<Seq<char>> {
    camel_split(w).map_values(|p: Seq<char>| unicode_lower(p))
}

/// The lowercase camel-case parts of every word, in order.
pub open spec fn pieces_of(words: Seq<Seq<char>>) -> Seq<Seq<char>>
    decreases words.len(),
{
    if words.len() == 0 {
        Seq::empty()
    } else {
        pieces_of(words.drop_last()) + word_pieces(words.last())
    }
}

/// The lowercase camel-case parts of every word.
fn pieces_exec(words: &Vec<Vec<char>>) -> (r: Vec<Vec<char>>)
    ensures
        views(r@) == pieces_of(views(words@)),
{
    let mut out: Vec<Vec<char>> = Vec::new();
    let mut i: usize = 0;
    assert(views(words@).take(0) =~= Seq::<Seq<char>>::empty());
    while i < words.len()
        invariant
            i <= words.len(),
            views(out@) == pieces_of(views(words@).take(i as int)),
        decreases words.len() - i,
    {
        let parts = split_camel(words[i].as_slice());
        let ghost base = views(out@);
        let mut j: usize = 0;
        while j < parts.len()
            invariant
                j <= parts.len(),
                views(out@) == base + views(parts@).take(j as int).map_values(|p: Seq<char>| unicode_lower(p)),
            decreases parts.len() - j,
        {
            let low = unicode_lower_chars(parts[j].as_slice());
            let ghost old_out = views(out@);
            out.push(low);
            proof {
                let f = |p: Seq<char>| unicode_lower(p);
                assert(views(out@) =~= old_out.push(unicode_lower(views(parts@)[j as int])));
                assert(views(parts@).take(j + 1) =~= views(parts@).take(j as int).push(views(parts@)[j as int]));
                assert(views(parts@).take(j + 1).map_values(f) =~= views(parts@).take(j as int).map_values(f).push(
                    unicode_lower(views(parts@)[j as int]),
                ));
            }
            assert(views(out@) =~= base + views(parts@).take(j + 1).map_values(|p: Seq<char>| unicode_lower(p)));
            j = j + 1;
        }
        proof {
            let ws = views(words@);
            assert(views(parts@).take(parts@.len() as int) =~= views(parts@));
            assert(ws.take(i + 1).drop_last() =~= ws.take(i as int));
            assert(ws.take(i + 1).last() == words@[i as int]@);
            assert(views(out@) =~= pieces_of(ws.take(i + 1)));
        }
        i = i + 1;
    }
    assert(views(words@).take(words@.len() as int) =~= views(words@));
    out
}

/// Number of UTF-8 bytes of a character.
pub open spec fn utf8_width(c: char) -> nat {
    if (c as u32) < 0x80 {
        1
    } else if (c as u32) < 0x800 {
        2
    } else if (c as u32) < 0x10000 {
        3
    } else {
        4
    }
}

/// Number of UTF-8 bytes of a text.
pub open spec fn utf8_len(s: Seq<char>) -> nat
    decreases s.len(),
{
    if s.len() == 0 {
        0
    } else {
        utf8_len(s.drop_last()) + utf8_width(s.last())
    }
}

/// Whether a text has at least `cap` UTF-8 bytes (`1 <= cap <= 4`).
fn utf8_len_at_least(s: &[char], cap: usize) -> (r: bool)
    requires
        1 <= cap <= 4,
    ensures
        r == (utf8_len(s@) >= cap),
{
    let mut total: usize = 0;
    let mut i: usize = 0;
    assert(s@.take(0) =~= Seq::<char>::empty());
    while i < s.len()
        invariant
            1 <= cap <= 4,
            i <= s.len(),
            total == utf8_len(s@.take(i as int)),
            total < cap,
        decreases s.len() - i,
    {
        let c = s[i];
        let w: usize = if (c as u32) < 0x80 {
            1
        } else if (c as u32) < 0x800 {
            2
        } else if (c as u32) < 0x10000 {
            3
        } else {
            4
        };
        assert(s@.take(i + 1).drop_last() =~= s@.take(i as int));
        total = total + w;
        i = i + 1;
        if total >= cap {
            proof {
                lemma_utf8_len_mono(s@, i as int);
            }
            return true;
        }
    }
    assert(s@.take(s@.len() as int) =~= s@);
    false
}

proof fn lemma_utf8_len_mono(s: Seq<char>, i: int)
    requires
        0 <= i <= s.len(),
    ensures
        utf8_len(s.take(i)) <= utf8_len(s),
    decreases s.len() - i,
{
    if i < s.len() {
        lemma_utf8_len_mono(s, i + 1);
        assert(s.take(i + 1).drop_last() =~= s.take(i));
    } else {
        assert(s.take(i) =~= s);
    }
}

/// Words dropped from queries.
pub open spec fn stopwords() -> Seq<Seq<char>> {
    seq![
        "the"@, "and"@, "for"@, "with"@, "from"@, "this"@, "that"@, "into"@, "out"@, "all"@,
        "are"@, "was"@, "were"@, "which"@, "will"@, "should"@, "would"@, "not"@, "have"@, "has"@,
        "had"@, "can"@, "could"@, "its"@, "it"@, "an"@, "be"@, "to"@, "of"@, "in"@, "on"@, "is"@,
        "at"@, "as"@, "or"@, "by"@, "my"@, "we"@, "our"@, "do"@, "does"@, "did"@, "then"@, "them"@,
        "they"@, "there"@, "here"@, "get"@, "set"@, "what"@, "when"@, "where"@, "who"@, "how"@,
        "why"@, "use"@, "using"@,
    ]
}

fn stopword_list() -> (r: Vec<&'static str>)
    ensures
        str_views(r@) == stopwords(),
{
    let r = vec![
        "the", "and", "for", "with", "from", "this", "that", "into", "out", "all",
        "are", "was", "were", "which", "will", "should", "would", "not", "have", "has",
        "had", "can", "could", "its", "it", "an", "be", "to", "of", "in", "on", "is",
        "at", "as", "or", "by", "my", "we", "our", "do", "does", "did", "then", "them",
        "they", "there", "here", "get", "set", "what", "when", "where", "who", "how",
        "why", "use", "using",
    ];
    assert(str_views(r@) =~= stopwords());
    r
}

/// Whether a lowercase piece is kept as a query token: at least two
/// characters long and not a stopword.
pub open spec fn keep_token(t: Seq<char>) -> bool {
    t.len() >= 2 && !stopwords().contains(t)
}

/// Every character that is not alphanumeric replaced by a space.
pub open spec fn mask(s: Seq<char>) -> Seq<char> {
    Seq::new(s.len(), |i: int| if alphanumeric_char(s[i]) { s[i] } else { ' ' })
}

/// The query tokens of one word: its alphanumeric runs, split at
/// camel-case boundaries, lowercased, without stopwords and one-character
/// pieces.
pub open spec fn word_tokens(w: Seq<char>) -> Seq<Seq<char>> {
    pieces_of(runs(mask(w), Separators::Whitespace)).filter(|t: Seq<char>| keep_token(t))
}

/// Whether every character of `s` from `from` on is alphanumeric.
pub open spec fn alnum_from(s: Seq<char>, from: int) -> bool {
    forall|k: int| from <= k < s.len() ==> alphanumeric_char(#[trigger] s[k])
}

/// A word without its file extension: when the word ends in `.` and a run
/// of alphanumeric characters, after an alphanumeric character, that
/// extension is not part of the query (`DashboardProvider.ts` reads as
/// `DashboardProvider`).
pub open spec fn strip_ext(w: Seq<char>) -> Seq<char> {
    let d = last_index_of(w, '.');
    if d > 0 && alphanumeric_char(w[d - 1]) && d + 1 < w.len() && alnum_from(w, d + 1) {
        w.take(d)
    } else {
        w
    }
}

/// The query tokens of whitespace-separated words, in order.
pub open spec fn words_tokens(ws: Seq<Seq<char>>) -> Seq<Seq<char>>
    decreases ws.len(),
{
    if ws.len() == 0 {
        Seq::empty()
    } else {
        words_tokens(ws.drop_last()) + word_tokens(strip_ext(ws.last()))
    }
}

/// The query tokens of a text: each whitespace-separated word without its
/// file extension, split into alphanumeric runs and at camel-case
/// boundaries, lowercased, without stopwords and one-character pieces.
pub open spec fn tokenize_spec(s: Seq<char>) -> Seq<Seq<char>> {
    words_tokens(runs(s, Separators::Whitespace))
}

/// `w` without its file extension.
fn strip_ext_exec(w: &[char]) -> (r: Vec<char>)
    ensures
        r@ == strip_ext(w@),
{
    proof {
        lemma_last_index_of(w@, '.');
    }
    match last_index(w, '.') {
        Some(d) => {
            if d > 0 && is_alphanumeric(w[d - 1]) && d + 1 < w.len() {
                let mut k: usize = d + 1;
                let mut all = true;
                while k < w.len()
                    invariant
                        d + 1 <= k <= w.len(),
                        all == (forall|j: int| d + 1 <= j < k ==> alphanumeric_char(#[trigger] w@[j])),
                    decreases w.len() - k,
                {
                    if !is_alphanumeric(w[k]) {
                        all = false;
                    }
                    k = k + 1;
                }
                if all {
                    slice_chars(w, 0, d)
                } else {
                    slice_chars(w, 0, w.len())
                }
            } else {
                slice_chars(w, 0, w.len())
            }
        },
        None => slice_chars(w, 0, w.len()),
    }
}

/// The query tokens of one word.
fn word_tokens_exec(w: &[char], stop: &Vec<&'static str>) -> (r: Vec<String>)
    requires
        str_views(stop@) == stopwords(),
    ensures
        views_of(r@) == word_tokens(w@),
{
    let chars = w;
    let mut masked: Vec<char> = Vec::new();
    let mut i: usize = 0;
    while i < chars.len()
        invariant
            i <= chars.len(),
            chars@ == w@,
            masked@ == mask(w@).take(i as int),
        decreases chars.len() - i,
    {
        let c = chars[i];
        let m = if is_alphanumeric(c) { c } else { ' ' };
        masked.push(m);
        assert(masked@ =~= mask(w@).take(i + 1));
        i = i + 1;
    }
    assert(mask(w@).take(chars@.len() as int) =~= mask(w@));
    let words = runs_exec(masked.as_slice(), Separators::Whitespace);
    let pieces = pieces_exec(&words);
    let ghost keep = |t: Seq<char>| keep_token(t);
    let ghost pv = views(pieces@);
    let mut out: Vec<String> = Vec::new();
    let mut k: usize = 0;
    while k < pieces.len()
        invariant
            k <= pieces.len(),
            pv == views(pieces@),
            str_views(stop@) == stopwords(),
            keep == (|t: Seq<char>| keep_token(t)),
            views_of(out@) == pv.take(k as int).filter(keep),
        decreases pieces.len() - k,
    {
        let p = pieces[k].as_slice();
        proof {
            pv.take(k as int).lemma_filter_push(pv[k as int], keep);
            assert(pv.take(k as int).push(pv[k as int]) =~= pv.take(k + 1));
        }
        if p.len() >= 2 && !in_list(p, stop.as_slice()) {
            let s = string_from_chars(p);
            let ghost old_out = views_of(out@);
            out.push(s);
            assert(views_of(out@) =~= old_out.push(p@));
        }
        k = k + 1;
    }
    assert(pv.take(pv.len() as int) =~= pv);
    out
}

/// Splits `input` into lowercase alphanumeric tokens, dropping stopwords
/// and single-character tokens. Camel-case boundaries and punctuation both
/// split, and a word's file extension is no token, so `DashboardProvider.ts`
/// and `dashboard provider` yield the same tokens.
pub fn tokenize(input: &str) -> (r: Vec<String>)
    ensures
        views_of(r@) == tokenize_spec(input@),
{
    let chars = chars_of(input);
    let words = runs_exec(chars.as_slice(), Separators::Whitespace);
    let stop = stopword_list();
    let ghost wv = views(words@);
    let mut out: Vec<String> = Vec::new();
    let mut k: usize = 0;
    assert(wv.take(0) =~= Seq::<Seq<char>>::empty());
    while k < words.len()
        invariant
            k <= words.len(),
            wv == views(words@),
            wv == runs(input@, Separators::Whitespace),
            str_views(stop@) == stopwords(),
            views_of(out@) == words_tokens(wv.take(k as int)),
        decreases words.len() - k,
    {
        let stripped = strip_ext_exec(words[k].as_slice());
        let mut toks = word_tokens_exec(stripped.as_slice(), &stop);
        let ghost before = out@;
        let ghost tv = toks@;
        out.append(&mut toks);
        assert(views_of(out@) =~= views_of(before) + views_of(tv));
        proof {
            assert(wv.take(k + 1).drop_last() =~= wv.take(k as int));
            assert(wv.take(k + 1).last() == words@[k as int]@);
        }
        k = k + 1;
    }
    assert(wv.take(wv.len() as int) =~= wv);
    out
}

/// Query tokens derived from a request query.
#[derive(Debug, Clone, Default)]
pub struct QueryTokens {
    tokens: Vec<String>,
}

impl View for QueryTokens {
    type V = Seq<Seq<char>>;

    closed spec fn view(&self) -> Seq<Seq<char>> {
        views_of(self.tokens@)
    }
}

impl QueryTokens {
    /// Tokenizes a query string, discarding stopwords and very short tokens.
    pub fn new(query: &str) -> (r: Self)
        ensures
            r@ == tokenize_spec(query@),
    {
        QueryTokens { tokens: tokenize(query) }
    }

    /// Whether the query produced no usable tokens.
    pub fn is_empty(&self) -> (r: bool)
        ensures
            r == (self@.len() == 0),
    {
        self.tokens.len() == 0
    }

    /// The query tokens, in order.
    pub fn iter(&self) -> (r: Vec<String>)
        ensures
            views_of(r@) == self@,
    {
        let mut out: Vec<String> = Vec::new();
        let mut i: usize = 0;
        while i < self.tokens.len()
            invariant
                i <= self.tokens.len(),
                out@.len() == i,
                forall|k: int| 0 <= k < i ==> #[trigger] out@[k]@ == self.tokens@[k]@,
            decreases self.tokens.len() - i,
        {
            out.push(self.tokens[i].clone());
            i = i + 1;
        }
        assert(views_of(out@) =~= views_of(self.tokens@));
        out
    }
}

/// Inputs describing one candidate file.
#[derive(Debug, Clone, Copy)]
pub struct FileSignals<'a> {
    /// Repository-relative path.
    pub path: &'a str,
    /// Detected language name, when known.
    pub language: Option<&'a str>,
    /// Owning module name, when known.
    pub module: Option<&'a str>,
    /// Whether the file is an entry point.
    pub is_entrypoint: bool,
    /// Whether the file is among the graph's central files.
    pub is_central: bool,
    /// Whether the file is reachable from entry points.
    pub is_reachable: bool,
}

/// The lowercase tokens of every path segment and name part.
pub open spec fn path_tokens_spec(path: Seq<char>) -> Seq<Seq<char>> {
    pieces_of(runs(path, Separators::Path))
}

/// The lowercase tokens of the file name.
pub open spec fn stem_tokens_spec(path: Seq<char>) -> Seq<Seq<char>> {
    pieces_of(runs(after_last(path, '/'), Separators::Name))
}

/// The query tokens of an optional module name.
pub open spec fn module_tokens_spec(module: Option<Seq<char>>) -> Seq<Seq<char>> {
    match module {
        Some(m) => tokenize_spec(m),
        None => Seq::empty(),
    }
}

/// The signals of a candidate file, as text.
pub struct SignalsView {
    pub path: Seq<char>,
    pub language: Option<Seq<char>>,
    pub module: Option<Seq<char>>,
    pub is_entrypoint: bool,
    pub is_central: bool,
    pub is_reachable: bool,
}

/// The view of file signals.
pub open spec fn signals_view(sig: FileSignals) -> SignalsView {
    SignalsView {
        path: sig.path@,
        language: opt_view(sig.language),
        module: opt_view(sig.module),
        is_entrypoint: sig.is_entrypoint,
        is_central: sig.is_central,
        is_reachable: sig.is_reachable,
    }
}

/// The view of an optional text.
pub open spec fn opt_view(o: Option<&str>) -> Option<Seq<char>> {
    match o {
        Some(s) => Some(s@),
        None => None,
    }
}

/// `reasons` with `r` appended unless it is already there.
pub open spec fn record(reasons: Seq<Seq<char>>, r: Seq<char>) -> Seq<Seq<char>> {
    if reasons.contains(r) {
        reasons
    } else {
        reasons.push(r)
    }
}

/// A reason that quotes a token: `label` followed by the token in backticks.
pub open spec fn quoted(label: Seq<char>, token: Seq<char>) -> Seq<char> {
    label + token + "`"@
}

/// A running score (in half points) and its reasons.
pub struct Tally {
    pub score: int,
    pub reasons: Seq<Seq<char>>,
}

/// `t` raised by `points` half points, with `reason` recorded.
pub open spec fn bump(t: Tally, points: int, reason: Seq<char>) -> Tally {
    Tally { score: t.score + points, reasons: record(t.reasons, reason) }
}

/// Whether some token of `toks` starts with `token`.
pub open spec fn some_starts_with(toks: Seq<Seq<char>>, token: Seq<char>) -> bool {
    exists|i: int| 0 <= i < toks.len() && starts_with(#[trigger] toks[i], token)
}

/// The contribution of one query token: a path token equal to it (3
/// points), else a path token it prefixes when it has at least three bytes
/// (1.5); a file-name token equal to it (2); a module token equal to it (1);
/// the language named by it (1.5).
pub open spec fn token_step(
    t: Tally,
    pt: Seq<Seq<char>>,
    st: Seq<Seq<char>>,
    mt: Seq<Seq<char>>,
    lang: Option<Seq<char>>,
    token: Seq<char>,
) -> Tally {
    let t1 = if pt.contains(token) {
        bump(t, 6, quoted("path token match: `"@, token))
    } else if utf8_len(token) >= 3 && some_starts_with(pt, token) {
        bump(t, 3, quoted("path prefix match: `"@, token))
    } else {
        t
    };
    let t2 = if st.contains(token) {
        bump(t1, 4, quoted("filename match: `"@, token))
    } else {
        t1
    };
    let t3 = if mt.contains(token) {
        bump(t2, 2, quoted("module match: `"@, token))
    } else {
        t2
    };
    if lang == Some(token) {
        bump(t3, 3, quoted("language match: `"@, token))
    } else {
        t3
    }
}

/// The tally after every query token of `q`, in order.
pub open spec fn tally_tokens(
    t: Tally,
    pt: Seq<Seq<char>>,
    st: Seq<Seq<char>>,
    mt: Seq<Seq<char>>,
    lang: Option<Seq<char>>,
    q: Seq<Seq<char>>,
) -> Tally
    decreases q.len(),
{
    if q.len() == 0 {
        t
    } else {
        token_step(tally_tokens(t, pt, st, mt, lang, q.drop_last()), pt, st, mt, lang, q.last())
    }
}

/// The score (in half points) and reasons of a file for a query.
pub open spec fn score_spec(sig: FileSignals, q: Seq<Seq<char>>, boost: bool) -> Tally {
    score_of(signals_view(sig), q, boost)
}

/// The score (in half points) and reasons of a file for a query: every
/// query token's matches, then, with the structural boost, 2 points for an
/// entry point, 1 for a central file and 0.5 for a reachable one.
pub open spec fn score_of(sig: SignalsView, q: Seq<Seq<char>>, boost: bool) -> Tally {
    let t = tally_tokens(
        Tally { score: 0, reasons: Seq::empty() },
        path_tokens_spec(sig.path),
        stem_tokens_spec(sig.path),
        module_tokens_spec(sig.module),
        sig.language,
        q,
    );
    if boost {
        let t1 = if sig.is_entrypoint {
            bump(t, 4, "entry point"@)
        } else {
            t
        };
        let t2 = if sig.is_central {
            bump(t1, 2, "central file"@)
        } else {
            t1
        };
        if sig.is_reachable {
            bump(t2, 1, "reachable from entry points"@)
        } else {
            t2
        }
    } else {
        t
    }
}

/// Records `reason` unless it is already there.
fn record_exec(reasons: &mut Vec<String>, reason: Vec<char>)
    ensures
        views_of(final(reasons)@) == record(views_of(old(reasons)@), reason@),
{
    if !crate::repo::metadata_detector::list_contains(reasons, reason.as_slice()) {
        let ghost old_r = views_of(reasons@);
        let s = string_from_chars(reason.as_slice());
        reasons.push(s);
        assert(views_of(reasons@) =~= old_r.push(reason@));
    }
}

/// `label`, the token and a closing backtick.
fn quoted_exec(label: &str, token: &[char]) -> (r: Vec<char>)
    ensures
        r@ == quoted(label@, token@),
{
    let mut v: Vec<char> = Vec::new();
    push_str_chars(&mut v, label);
    push_chars(&mut v, token);
    push_str_chars(&mut v, "`");
    assert(v@ =~= quoted(label@, token@));
    v
}

/// Whether `toks` holds a text equal to `token`.
fn contains_chars(toks: &Vec<Vec<char>>, token: &[char]) -> (r: bool)
    ensures
        r == views(toks@).contains(token@),
{
    let mut i: usize = 0;
    while i < toks.len()
        invariant
            i <= toks.len(),
            forall|k: int| 0 <= k < i ==> views(toks@)[k] != token@,
        decreases toks.len() - i,
    {
        if chars_eq(toks[i].as_slice(), token) {
            assert(views(toks@)[i as int] == token@);
            return true;
        }
        i = i + 1;
    }
    false
}

/// Whether some text of `toks` starts with `token`.
fn any_starts_with(toks: &Vec<Vec<char>>, token: &[char]) -> (r: bool)
    ensures
        r == some_starts_with(views(toks@), token@),
{
    let mut i: usize = 0;
    while i < toks.len()
        invariant
            i <= toks.len(),
            forall|k: int| 0 <= k < i ==> !starts_with(#[trigger] views(toks@)[k], token@),
        decreases toks.len() - i,
    {
        if chars_starts_with(toks[i].as_slice(), token) {
            assert(starts_with(views(toks@)[i as int], token@));
            return true;
        }
        i = i + 1;
    }
    false
}

/// The lowercase tokens of every path segment and name part
/// (`src/feature/api-client.ts` gives `src`, `feature`, `api`, `client`,
/// `ts`; camel-case names are split too).
fn path_tokens(path: &[char]) -> (r: Vec<Vec<char>>)
    ensures
        views(r@) == path_tokens_spec(path@),
{
    let words = runs_exec(path, Separators::Path);
    pieces_exec(&words)
}

/// The lowercase tokens of the file name.
fn stem_tokens(path: &[char]) -> (r: Vec<Vec<char>>)
    ensures
        views(r@) == stem_tokens_spec(path@),
{
    let stem = after_last_chars(path, '/');
    let words = runs_exec(stem.as_slice(), Separators::Name);
    pieces_exec(&words)
}

/// The characters of every string.
fn char_lists(v: &Vec<String>) -> (r: Vec<Vec<char>>)
    ensures
        views(r@) == views_of(v@),
{
    let mut out: Vec<Vec<char>> = Vec::new();
    let mut i: usize = 0;
    while i < v.len()
        invariant
            i <= v.len(),
            out@.len() == i,
            forall|k: int| 0 <= k < i ==> #[trigger] out@[k]@ == v@[k]@,
        decreases v.len() - i,
    {
        out.push(chars_of(v[i].as_str()));
        i = i + 1;
    }
    assert(views(out@) =~= views_of(v@));
    out
}

/// Scores `signals` against `query`: a score in half points (`7` is `3.5`)
/// and the reasons that contributed to it, each recorded once.
/// Structural boosts apply only when `structural_boost` is set.
pub fn score(signals: &FileSignals, query: &QueryTokens, structural_boost: bool) -> (r: (u64, Vec<String>))
    requires
        15 * query@.len() + 7 <= u64::MAX,
    ensures
        r.0 == score_spec(*signals, query@, structural_boost).score,
        views_of(r.1@) == score_spec(*signals, query@, structural_boost).reasons,
{
    let path = chars_of(signals.path);
    let pt = path_tokens(path.as_slice());
    let st = stem_tokens(path.as_slice());
    let mt = match signals.module {
        Some(m) => char_lists(&tokenize(m)),
        None => Vec::new(),
    };
    let lang: Option<Vec<char>> = match signals.language {
        Some(l) => Some(chars_of(l)),
        None => None,
    };
    let ghost ptv = views(pt@);
    let ghost stv = views(st@);
    let ghost mtv = views(mt@);
    let ghost langv = opt_view(signals.language);
    assert(mtv == module_tokens_spec(opt_view(signals.module))) by {
        if signals.module is None {
            assert(mtv =~= Seq::<Seq<char>>::empty());
        }
    }
    let q = char_lists(&query.iter());
    let ghost qv = views(q@);
    let ghost init = Tally { score: 0, reasons: Seq::empty() };
    let mut total: u64 = 0;
    let mut reasons: Vec<String> = Vec::new();
    let mut i: usize = 0;
    assert(qv.take(0) =~= Seq::<Seq<char>>::empty());
    assert(views_of(reasons@) =~= Seq::<Seq<char>>::empty());
    while i < q.len()
        invariant
            i <= q.len(),
            qv == views(q@),
            qv.len() == query@.len(),
            15 * qv.len() + 7 <= u64::MAX,
            ptv == views(pt@),
            stv == views(st@),
            mtv == views(mt@),
            langv == (match lang {
                Some(l) => Some(l@),
                None => None::<Seq<char>>,
            }),
            total <= 15 * i,
            total == tally_tokens(init, ptv, stv, mtv, langv, qv.take(i as int)).score,
            views_of(reasons@) == tally_tokens(init, ptv, stv, mtv, langv, qv.take(i as int)).reasons,
        decreases q.len() - i,
    {
        let tok = q[i].as_slice();
        let ghost before = Tally { score: total as int, reasons: views_of(reasons@) };
        proof {
            assert(qv.take(i + 1).drop_last() =~= qv.take(i as int));
            assert(qv.take(i + 1).last() == tok@);
        }
        if contains_chars(&pt, tok) {
            total = total + 6;
            record_exec(&mut reasons, quoted_exec("path token match: `", tok));
        } else if utf8_len_at_least(tok, 3) && any_starts_with(&pt, tok) {
            total = total + 3;
            record_exec(&mut reasons, quoted_exec("path prefix match: `", tok));
        }
        if contains_chars(&st, tok) {
            total = total + 4;
            record_exec(&mut reasons, quoted_exec("filename match: `", tok));
        }
        if contains_chars(&mt, tok) {
            total = total + 2;
            record_exec(&mut reasons, quoted_exec("module match: `", tok));
        }
        let lang_match = match &lang {
            Some(l) => chars_eq(l.as_slice(), tok),
            None => false,
        };
        if lang_match {
            total = total + 3;
            record_exec(&mut reasons, quoted_exec("language match: `", tok));
        }
        assert(total == token_step(before, ptv, stv, mtv, langv, tok@).score);
        assert(views_of(reasons@) == token_step(before, ptv, stv, mtv, langv, tok@).reasons);
        i = i + 1;
    }
    assert(qv.take(qv.len() as int) =~= qv);
    assert(qv == query@) by {
        assert(qv =~= query@);
    }
    if structural_boost {
        if signals.is_entrypoint {
            total = total + 4;
            let mut v: Vec<char> = Vec::new();
            push_str_chars(&mut v, "entry point");
            record_exec(&mut reasons, v);
        }
        if signals.is_central {
            total = total + 2;
            let mut v: Vec<char> = Vec::new();
            push_str_chars(&mut v, "central file");
            record_exec(&mut reasons, v);
        }
        if signals.is_reachable {
            total = total + 1;
            let mut v: Vec<char> = Vec::new();
            push_str_chars(&mut v, "reachable from entry points");
            record_exec(&mut reasons, v);
        }
    }
    (total, reasons)
}

/// With the structural boost, marking a file as an entry point raises its
/// score by exactly two points (four half points).
pub proof fn law_entry_point_boost(sig: SignalsView, q: Seq<Seq<char>>)
    requires
        !sig.is_entrypoint,
    ensures
        score_of(SignalsView { is_entrypoint: true, ..sig }, q, true).score == score_of(sig, q, true).score + 4,
{
}

/// Without the structural boost, the entry point, centrality and
/// reachability flags do not change a file's score or reasons.
pub proof fn law_no_boost_ignores_structure(sig: SignalsView, q: Seq<Seq<char>>)
    ensures
        score_of(sig, q, false) == score_of(
            SignalsView { is_entrypoint: false, is_central: false, is_reachable: false, ..sig },
            q,
            false,
        ),
{
}

/// Whether a tally has a non-negative score and no repeated reason.
pub open spec fn tally_ok(t: Tally) -> bool {
    t.score >= 0 && t.reasons.no_duplicates()
}

proof fn lemma_bump(t: Tally, points: int, reason: Seq<char>)
    requires
        tally_ok(t),
        points >= 0,
    ensures
        tally_ok(bump(t, points, reason)),
        t.reasons.is_prefix_of(bump(t, points, reason).reasons),
{
    let r = bump(t, points, reason).reasons;
    if !t.reasons.contains(reason) {
        assert forall|i: int, j: int| 0 <= i < r.len() && 0 <= j < r.len() && i != j implies r[i] != r[j] by {
            if i < t.reasons.len() && j < t.reasons.len() {
            } else if i < t.reasons.len() {
                assert(r[j] == reason);
                assert(t.reasons.contains(r[i]));
            } else {
                assert(r[i] == reason);
                assert(t.reasons.contains(r[j]));
            }
        }
    }
}

proof fn lemma_prefix_trans(a: Seq<Seq<char>>, b: Seq<Seq<char>>, c: Seq<Seq<char>>)
    requires
        a.is_prefix_of(b),
        b.is_prefix_of(c),
    ensures
        a.is_prefix_of(c),
{
    assert forall|i: int| 0 <= i < a.len() implies a[i] == c[i] by {
        assert(a[i] == b[i]);
    }
}

proof fn lemma_tally_tokens(
    t: Tally,
    pt: Seq<Seq<char>>,
    st: Seq<Seq<char>>,
    mt: Seq<Seq<char>>,
    lang: Option<Seq<char>>,
    q: Seq<Seq<char>>,
)
    requires
        tally_ok(t),
    ensures
        tally_ok(tally_tokens(t, pt, st, mt, lang, q)),
        tally_tokens(t, pt, st, mt, lang, q).score >= t.score,
    decreases q.len(),
{
    if q.len() > 0 {
        lemma_tally_tokens(t, pt, st, mt, lang, q.drop_last());
        let t0 = tally_tokens(t, pt, st, mt, lang, q.drop_last());
        let token = q.last();
        lemma_bump(t0, 6, quoted("path token match: `"@, token));
        lemma_bump(t0, 3, quoted("path prefix match: `"@, token));
        let t1 = if pt.contains(token) {
            bump(t0, 6, quoted("path token match: `"@, token))
        } else if utf8_len(token) >= 3 && some_starts_with(pt, token) {
            bump(t0, 3, quoted("path prefix match: `"@, token))
        } else {
            t0
        };
        lemma_bump(t1, 4, quoted("filename match: `"@, token));
        let t2 = if st.contains(token) {
            bump(t1, 4, quoted("filename match: `"@, token))
        } else {
            t1
        };
        lemma_bump(t2, 2, quoted("module match: `"@, token));
        let t3 = if mt.contains(token) {
            bump(t2, 2, quoted("module match: `"@, token))
        } else {
            t2
        };
        lemma_bump(t3, 3, quoted("language match: `"@, token));
    }
}

/// The structural boost only adds to a file's score and reasons: with it,
/// the score rises by 2 points for an entry point, 1 for a central file and
/// 0.5 for a reachable one (in half points: 4, 2 and 1), and the reasons
/// without it come first, unchanged. Scores are never negative, no reason is
/// recorded twice, and an empty query scores nothing without the boost.
pub proof fn law_structural_boost(sig: SignalsView, q: Seq<Seq<char>>)
    ensures
        score_of(sig, q, true).score == score_of(sig, q, false).score + (if sig.is_entrypoint { 4int } else { 0int }) + (
        if sig.is_central { 2int } else { 0int }) + (if sig.is_reachable { 1int } else { 0int }),
        score_of(sig, q, false).reasons.is_prefix_of(score_of(sig, q, true).reasons),
        score_of(sig, q, false).score >= 0,
        score_of(sig, q, true).reasons.no_duplicates(),
        score_of(sig, q, false).reasons.no_duplicates(),
        q.len() == 0 ==> score_of(sig, q, false) == (Tally { score: 0, reasons: Seq::empty() }),
{
    let t0 = Tally { score: 0, reasons: Seq::<Seq<char>>::empty() };
    lemma_tally_tokens(t0, path_tokens_spec(sig.path), stem_tokens_spec(sig.path), module_tokens_spec(sig.module), sig.language, q);
    let t = score_of(sig, q, false);
    lemma_bump(t, 4, "entry point"@);
    let t1 = if sig.is_entrypoint {
        bump(t, 4, "entry point"@)
    } else {
        t
    };
    lemma_bump(t1, 2, "central file"@);
    let t2 = if sig.is_central {
        bump(t1, 2, "central file"@)
    } else {
        t1
    };
    lemma_bump(t2, 1, "reachable from entry points"@);
    let t3 = score_of(sig, q, true);
    lemma_prefix_trans(t.reasons, t1.reasons, t2.reasons);
    lemma_prefix_trans(t.reasons, t2.reasons, t3.reasons);
}


/// Whether a query token earns the path prefix credit: no path token
/// equals it, it has at least three bytes and some path token starts with it.
pub open spec fn prefix_credit(pt: Seq<Seq<char>>, token: Seq<char>) -> bool {
    !pt.contains(token) && utf8_len(token) >= 3 && some_starts_with(pt, token)
}

proof fn lemma_bump_holds(t: Tally, points: int, reason: Seq<char>)
    requires
        tally_ok(t),
        points >= 0,
    ensures
        bump(t, points, reason).reasons.contains(reason),
        t.reasons.is_prefix_of(bump(t, points, reason).reasons),
        tally_ok(bump(t, points, reason)),
{
    lemma_bump(t, points, reason);
    if !t.reasons.contains(reason) {
        let r = bump(t, points, reason).reasons;
        assert(r[r.len() - 1] == reason);
    }
}

proof fn lemma_keeps(a: Seq<Seq<char>>, b: Seq<Seq<char>>, r: Seq<char>)
    requires
        a.is_prefix_of(b),
        a.contains(r),
    ensures
        b.contains(r),
{
    let k = choose|k: int| 0 <= k < a.len() && a[k] == r;
    assert(b[k] == r);
}

proof fn lemma_step_credits(
    t: Tally,
    pt: Seq<Seq<char>>,
    st: Seq<Seq<char>>,
    mt: Seq<Seq<char>>,
    lang: Option<Seq<char>>,
    token: Seq<char>,
)
    requires
        tally_ok(t),
    ensures
        tally_ok(token_step(t, pt, st, mt, lang, token)),
        t.reasons.is_prefix_of(token_step(t, pt, st, mt, lang, token).reasons),
        token_step(t, pt, st, mt, lang, token).score >= t.score + (if pt.contains(token) { 6int } else { 0int }),
        token_step(t, pt, st, mt, lang, token).score >= t.score + (if prefix_credit(pt, token) { 3int } else { 0int }),
        token_step(t, pt, st, mt, lang, token).score >= t.score + (if st.contains(token) { 4int } else { 0int }),
        token_step(t, pt, st, mt, lang, token).score >= t.score + (if mt.contains(token) { 2int } else { 0int }),
        token_step(t, pt, st, mt, lang, token).score >= t.score + (if lang == Some(token) { 3int } else { 0int }),
        pt.contains(token) ==> token_step(t, pt, st, mt, lang, token).reasons.contains("path token match: `"@ + token + "`"@),
        prefix_credit(pt, token) ==> token_step(t, pt, st, mt, lang, token).reasons.contains(
            "path prefix match: `"@ + token + "`"@,
        ),
        st.contains(token) ==> token_step(t, pt, st, mt, lang, token).reasons.contains("filename match: `"@ + token + "`"@),
        mt.contains(token) ==> token_step(t, pt, st, mt, lang, token).reasons.contains("module match: `"@ + token + "`"@),
        lang == Some(token) ==> token_step(t, pt, st, mt, lang, token).reasons.contains(
            "language match: `"@ + token + "`"@,
        ),
{
    let r1 = "path token match: `"@ + token + "`"@;
    let r1b = "path prefix match: `"@ + token + "`"@;
    let r2 = "filename match: `"@ + token + "`"@;
    let r3 = "module match: `"@ + token + "`"@;
    let r4 = "language match: `"@ + token + "`"@;
    lemma_bump_holds(t, 6, r1);
    lemma_bump_holds(t, 3, r1b);
    let t1 = if pt.contains(token) {
        bump(t, 6, quoted("path token match: `"@, token))
    } else if utf8_len(token) >= 3 && some_starts_with(pt, token) {
        bump(t, 3, quoted("path prefix match: `"@, token))
    } else {
        t
    };
    lemma_bump_holds(t1, 4, r2);
    let t2 = if st.contains(token) {
        bump(t1, 4, quoted("filename match: `"@, token))
    } else {
        t1
    };
    lemma_bump_holds(t2, 2, r3);
    let t3 = if mt.contains(token) {
        bump(t2, 2, quoted("module match: `"@, token))
    } else {
        t2
    };
    lemma_bump_holds(t3, 3, r4);
    let t4 = token_step(t, pt, st, mt, lang, token);
    lemma_prefix_trans(t.reasons, t1.reasons, t2.reasons);
    lemma_prefix_trans(t.reasons, t2.reasons, t3.reasons);
    lemma_prefix_trans(t.reasons, t3.reasons, t4.reasons);
    lemma_prefix_trans(t1.reasons, t2.reasons, t3.reasons);
    lemma_prefix_trans(t1.reasons, t3.reasons, t4.reasons);
    lemma_prefix_trans(t2.reasons, t3.reasons, t4.reasons);
    if pt.contains(token) || prefix_credit(pt, token) {
        if pt.contains(token) {
            lemma_keeps(t1.reasons, t4.reasons, r1);
        } else {
            lemma_keeps(t1.reasons, t4.reasons, r1b);
        }
    }
    if st.contains(token) {
        lemma_keeps(t2.reasons, t4.reasons, r2);
    }
    if mt.contains(token) {
        lemma_keeps(t3.reasons, t4.reasons, r3);
    }
}

/// A per-token credit: `points` half points and the reason `label`, the
/// token and a backtick, for each token meeting `earns`.
pub open spec fn credited(
    t: Tally,
    pt: Seq<Seq<char>>,
    st: Seq<Seq<char>>,
    mt: Seq<Seq<char>>,
    lang: Option<Seq<char>>,
    earns: spec_fn(Seq<char>) -> bool,
    points: int,
    label: Seq<char>,
) -> bool {
    forall|u: Tally, token: Seq<char>|
        #![trigger token_step(u, pt, st, mt, lang, token), earns(token)]
        tally_ok(u) ==> token_step(u, pt, st, mt, lang, token).score >= u.score + (if earns(token) { points } else { 0int })
            && (earns(token) ==> token_step(u, pt, st, mt, lang, token).reasons.contains(label + token + "`"@))
}

proof fn lemma_tally_credit(
    t: Tally,
    pt: Seq<Seq<char>>,
    st: Seq<Seq<char>>,
    mt: Seq<Seq<char>>,
    lang: Option<Seq<char>>,
    q: Seq<Seq<char>>,
    earns: spec_fn(Seq<char>) -> bool,
    points: int,
    label: Seq<char>,
)
    requires
        tally_ok(t),
        points >= 0,
        credited(t, pt, st, mt, lang, earns, points, label),
    ensures
        tally_tokens(t, pt, st, mt, lang, q).score >= t.score + points * q.filter(earns).len(),
        forall|i: int| 0 <= i < q.len() && earns(#[trigger] q[i]) ==> tally_tokens(t, pt, st, mt, lang, q).reasons.contains(
            label + q[i] + "`"@,
        ),
    decreases q.len(),
{
    if q.len() == 0 {
        assert(q.filter(earns) =~= Seq::<Seq<char>>::empty()) by {
            reveal(Seq::filter);
        }
    } else {
        let d = q.drop_last();
        lemma_tally_credit(t, pt, st, mt, lang, d, earns, points, label);
        lemma_tally_tokens(t, pt, st, mt, lang, d);
        let t0 = tally_tokens(t, pt, st, mt, lang, d);
        lemma_step_credits(t0, pt, st, mt, lang, q.last());
        let t1 = tally_tokens(t, pt, st, mt, lang, q);
        assert(t1 == token_step(t0, pt, st, mt, lang, q.last()));
        assert(t1.score >= t0.score + (if earns(q.last()) { points } else { 0int }));
        d.lemma_filter_push(q.last(), earns);
        assert(d.push(q.last()) =~= q);
        assert(points * q.filter(earns).len() == points * d.filter(earns).len() + (if earns(q.last()) { points } else { 0int })) by (nonlinear_arith)
            requires
                q.filter(earns).len() == d.filter(earns).len() + (if earns(q.last()) { 1int } else { 0int }),
        ;
        assert forall|i: int| 0 <= i < q.len() && earns(#[trigger] q[i]) implies t1.reasons.contains(label + q[i] + "`"@) by {
            if i < d.len() {
                assert(d[i] == q[i]);
                lemma_keeps(t0.reasons, t1.reasons, label + q[i] + "`"@);
            }
        }
    }
}

proof fn lemma_credits_hold(
    pt: Seq<Seq<char>>,
    st: Seq<Seq<char>>,
    mt: Seq<Seq<char>>,
    lang: Option<Seq<char>>,
)
    ensures
        credited(Tally { score: 0, reasons: Seq::empty() }, pt, st, mt, lang, |x: Seq<char>| pt.contains(x), 6, "path token match: `"@),
        credited(Tally { score: 0, reasons: Seq::empty() }, pt, st, mt, lang, |x: Seq<char>| prefix_credit(pt, x), 3, "path prefix match: `"@),
        credited(Tally { score: 0, reasons: Seq::empty() }, pt, st, mt, lang, |x: Seq<char>| st.contains(x), 4, "filename match: `"@),
        credited(Tally { score: 0, reasons: Seq::empty() }, pt, st, mt, lang, |x: Seq<char>| mt.contains(x), 2, "module match: `"@),
        credited(Tally { score: 0, reasons: Seq::empty() }, pt, st, mt, lang, |x: Seq<char>| lang == Some(x), 3, "language match: `"@),
{
    let earns = |x: Seq<char>| pt.contains(x);
    assert forall|u: Tally, token: Seq<char>|
        #![trigger token_step(u, pt, st, mt, lang, token), earns(token)]
        tally_ok(u) implies token_step(u, pt, st, mt, lang, token).score >= u.score + (if earns(token) { 6int } else { 0int })
            && (earns(token) ==> token_step(u, pt, st, mt, lang, token).reasons.contains("path token match: `"@ + token + "`"@)) by {
        lemma_step_credits(u, pt, st, mt, lang, token);
    }
    assert(credited(Tally { score: 0, reasons: Seq::empty() }, pt, st, mt, lang, earns, 6, "path token match: `"@));
    let earns = |x: Seq<char>| prefix_credit(pt, x);
    assert forall|u: Tally, token: Seq<char>|
        #![trigger token_step(u, pt, st, mt, lang, token), earns(token)]
        tally_ok(u) implies token_step(u, pt, st, mt, lang, token).score >= u.score + (if earns(token) { 3int } else { 0int })
            && (earns(token) ==> token_step(u, pt, st, mt, lang, token).reasons.contains("path prefix match: `"@ + token + "`"@)) by {
        lemma_step_credits(u, pt, st, mt, lang, token);
    }
    assert(credited(Tally { score: 0, reasons: Seq::empty() }, pt, st, mt, lang, earns, 3, "path prefix match: `"@));
    let earns = |x: Seq<char>| st.contains(x);
    assert forall|u: Tally, token: Seq<char>|
        #![trigger token_step(u, pt, st, mt, lang, token), earns(token)]
        tally_ok(u) implies token_step(u, pt, st, mt, lang, token).score >= u.score + (if earns(token) { 4int } else { 0int })
            && (earns(token) ==> token_step(u, pt, st, mt, lang, token).reasons.contains("filename match: `"@ + token + "`"@)) by {
        lemma_step_credits(u, pt, st, mt, lang, token);
    }
    assert(credited(Tally { score: 0, reasons: Seq::empty() }, pt, st, mt, lang, earns, 4, "filename match: `"@));
    let earns = |x: Seq<char>| mt.contains(x);
    assert forall|u: Tally, token: Seq<char>|
        #![trigger token_step(u, pt, st, mt, lang, token), earns(token)]
        tally_ok(u) implies token_step(u, pt, st, mt, lang, token).score >= u.score + (if earns(token) { 2int } else { 0int })
            && (earns(token) ==> token_step(u, pt, st, mt, lang, token).reasons.contains("module match: `"@ + token + "`"@)) by {
        lemma_step_credits(u, pt, st, mt, lang, token);
    }
    assert(credited(Tally { score: 0, reasons: Seq::empty() }, pt, st, mt, lang, earns, 2, "module match: `"@));
    let earns = |x: Seq<char>| lang == Some(x);
    assert forall|u: Tally, token: Seq<char>|
        #![trigger token_step(u, pt, st, mt, lang, token), earns(token)]
        tally_ok(u) implies token_step(u, pt, st, mt, lang, token).score >= u.score + (if earns(token) { 3int } else { 0int })
            && (earns(token) ==> token_step(u, pt, st, mt, lang, token).reasons.contains("language match: `"@ + token + "`"@)) by {
        lemma_step_credits(u, pt, st, mt, lang, token);
    }
    assert(credited(Tally { score: 0, reasons: Seq::empty() }, pt, st, mt, lang, earns, 3, "language match: `"@));
}

/// Every query token is credited for each match it makes, with the reason
/// recorded: 3 points (6 half points) for each query token equal to a path
/// token, 1.5 for one that only starts a path token (three bytes or more),
/// 2 for one equal to a part of the file name (the text after the last
/// `/`), 1 for one naming the module, 1.5 for one naming the language.
pub proof fn law_query_credits(sig: SignalsView, q: Seq<Seq<char>>, boost: bool)
    ensures
        ({
            let pt = pieces_of(runs(sig.path, Separators::Path));
            let st = pieces_of(runs(after_last(sig.path, '/'), Separators::Name));
            let mt = match sig.module {
                Some(m) => tokenize_spec(m),
                None => Seq::empty(),
            };
            let t = score_of(sig, q, boost);
            &&& t.score >= 6 * q.filter(|x: Seq<char>| pt.contains(x)).len()
            &&& t.score >= 3 * q.filter(|x: Seq<char>| prefix_credit(pt, x)).len()
            &&& t.score >= 4 * q.filter(|x: Seq<char>| st.contains(x)).len()
            &&& t.score >= 2 * q.filter(|x: Seq<char>| mt.contains(x)).len()
            &&& t.score >= 3 * q.filter(|x: Seq<char>| sig.language == Some(x)).len()
            &&& forall|i: int| 0 <= i < q.len() && pt.contains(#[trigger] q[i]) ==> t.reasons.contains("path token match: `"@ + q[i] + "`"@)
            &&& forall|i: int| 0 <= i < q.len() && prefix_credit(pt, #[trigger] q[i]) ==> t.reasons.contains("path prefix match: `"@ + q[i] + "`"@)
            &&& forall|i: int| 0 <= i < q.len() && st.contains(#[trigger] q[i]) ==> t.reasons.contains("filename match: `"@ + q[i] + "`"@)
            &&& forall|i: int| 0 <= i < q.len() && mt.contains(#[trigger] q[i]) ==> t.reasons.contains("module match: `"@ + q[i] + "`"@)
            &&& forall|i: int| 0 <= i < q.len() && sig.language == Some(#[trigger] q[i]) ==> t.reasons.contains("language match: `"@ + q[i] + "`"@)
        }),
{
    let pt = path_tokens_spec(sig.path);
    let st = stem_tokens_spec(sig.path);
    let mt = module_tokens_spec(sig.module);
    let lang = sig.language;
    let t0 = Tally { score: 0, reasons: Seq::<Seq<char>>::empty() };
    lemma_credits_hold(pt, st, mt, lang);
    lemma_tally_credit(t0, pt, st, mt, lang, q, |x: Seq<char>| pt.contains(x), 6, "path token match: `"@);
    lemma_tally_credit(t0, pt, st, mt, lang, q, |x: Seq<char>| prefix_credit(pt, x), 3, "path prefix match: `"@);
    lemma_tally_credit(t0, pt, st, mt, lang, q, |x: Seq<char>| st.contains(x), 4, "filename match: `"@);
    lemma_tally_credit(t0, pt, st, mt, lang, q, |x: Seq<char>| mt.contains(x), 2, "module match: `"@);
    lemma_tally_credit(t0, pt, st, mt, lang, q, |x: Seq<char>| lang == Some(x), 3, "language match: `"@);
    law_structural_boost(sig, q);
    let plain = score_of(sig, q, false);
    let boosted = score_of(sig, q, true);
    if boost {
        assert forall|r: Seq<char>| plain.reasons.contains(r) implies boosted.reasons.contains(r) by {
            lemma_keeps(plain.reasons, boosted.reasons, r);
        }
    }
}

} // verus!
