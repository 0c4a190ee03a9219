//! Repository paths as `/`-separated text.
//!
//! Every path the library handles is a `String` whose separator is `/`.
//! A path is split into segments at `/`; lexical normalisation drops empty
//! and `.` segments and lets `..` remove the segment before it.

use vstd::prelude::*;
use crate::text::{chars_of, string_from_chars};

verus! {

/// `\` replaced by `/`.
pub open spec fn slashes(s: Seq<char>) -> Seq<char> {
    Seq::new(s.len(), |i: int| if s[i] == '\\' { '/' } else { s[i] })
}

/// `s` split at every occurrence of `c` (always at least one part).
pub open spec fn split_char(s: Seq<char>, c: char) -> Seq<Seq<char>>
    decreases s.len(),
{
    if s.len() == 0 {
        seq![Seq::<char>::empty()]
    } else {
        let prev = split_char(s.drop_last(), c);
        if s.last() == c {
            prev.push(Seq::<char>::empty())
        } else {
            prev.update(prev.len() - 1, prev.last().push(s.last()))
        }
    }
}

/// One step of lexical normalisation: add `seg` to the normalised `stack`.
pub open spec fn norm_step(stack: Seq<Seq<char>>, seg: Seq<char>) -> Seq<Seq<char>> {
    if seg.len() == 0 || seg == seq!['.'] {
        stack
    } else if seg == seq!['.', '.'] {
        if stack.len() > 0 {
            stack.drop_last()
        } else {
            stack
        }
    } else {
        stack.push(seg)
    }
}

/// Lexical normalisation of a list of segments.
pub open spec fn norm_segments(segs: Seq<Seq<char>>) -> Seq<Seq<char>>
    decreases segs.len(),
{
    if segs.len() == 0 {
        Seq::empty()
    } else {
        norm_step(norm_segments(segs.drop_last()), segs.last())
    }
}

/// Segments joined with `/`.
pub open spec fn join_segments(segs: Seq<Seq<char>>) -> Seq<char>
    decreases segs.len(),
{
    if segs.len() == 0 {
        Seq::empty()
    } else if segs.len() == 1 {
        segs[0]
    } else {
        join_segments(segs.drop_last()).push('/') + segs.last()
    }
}

/// The normalised segments of a path.
pub open spec fn path_segments(p: Seq<char>) -> Seq<Seq<char>> {
    norm_segments(split_char(p, '/'))
}

/// Lexical normalisation of a path: a leading `/` is kept, empty and `.`
/// segments are dropped and `..` removes the segment before it.
pub open spec fn normalize(p: Seq<char>) -> Seq<char> {
    if p.len() > 0 && p[0] == '/' {
        seq!['/'] + join_segments(path_segments(p))
    } else {
        join_segments(path_segments(p))
    }
}

proof fn lemma_split_nonempty(s: Seq<char>, c: char)
    ensures
        split_char(s, c).len() >= 1,
    decreases s.len(),
{
    if s.len() > 0 {
        lemma_split_nonempty(s.drop_last(), c);
    }
}

/// `\` replaced by `/`, so that output is identical across platforms.
pub fn forward_slashes(path: &str) -> (r: String)
    ensures
        r@ == slashes(path@),
{
    let v = chars_of(path);
    let mut out: Vec<char> = Vec::new();
    let mut i: usize = 0;
    while i < v.len()
        invariant
            v@ == path@,
            i <= v.len(),
            out@ =~= slashes(v@.subrange(0, i as int)),
        decreases v.len() - i,
    {
        if v[i] == '\\' {
            out.push('/');
        } else {
            out.push(v[i]);
        }
        i = i + 1;
        assert(out@ =~= slashes(v@.subrange(0, i as int)));
    }
    assert(v@.subrange(0, v@.len() as int) =~= v@);
    string_from_chars(out.as_slice())
}

/// The views of a vector of character vectors.
pub open spec fn views(v: Seq<Vec<char>>) -> Seq<Seq<char>> {
    Seq::new(v.len(), |i: int| v[i]@)
}

/// Segments joined with `/`, as characters.
pub fn join_segment_chars(segs: &Vec<Vec<char>>) -> (r: Vec<char>)
    ensures
        r@ == join_segments(views(segs@)),
{
    let mut out: Vec<char> = Vec::new();
    let mut i: usize = 0;
    while i < segs.len()
        invariant
            i <= segs.len(),
            out@ == join_segments(views(segs@).subrange(0, i as int)),
        decreases segs.len() - i,
    {
        let ghost before = views(segs@).subrange(0, i as int);
        if i > 0 {
            out.push('/');
        }
        let seg = &segs[i];
        let mut j: usize = 0;
        let ghost base = out@;
        while j < seg.len()
            invariant
                j <= seg.len(),
                out@ == base + seg@.subrange(0, j as int),
            decreases seg.len() - j,
        {
            out.push(seg[j]);
            j = j + 1;
            assert(out@ =~= base + seg@.subrange(0, j as int));
        }
        assert(seg@.subrange(0, seg@.len() as int) =~= seg@);
        i = i + 1;
        let ghost after = views(segs@).subrange(0, i as int);
        assert(after.drop_last() =~= before);
        if i == 1 {
            assert(out@ =~= join_segments(after));
        } else {
            assert(out@ =~= join_segments(after));
        }
    }
    assert(views(segs@).subrange(0, segs@.len() as int) =~= views(segs@));
    out
}

/// Lexically normalises `path`: drops `.` and empty segments and lets `..`
/// remove the preceding segment. The filesystem is never consulted.
pub fn normalize_lexical(path: &str) -> (r: String)
    ensures
        r@ == normalize(path@),
{
    let v = chars_of(path);
    let mut stack: Vec<Vec<char>> = Vec::new();
    let mut cur: Vec<char> = Vec::new();
    let mut i: usize = 0;
    proof {
        assert(v@.subrange(0, 0) =~= Seq::<char>::empty());
    }
    while i < v.len()
        invariant
            v@ == path@,
            i <= v.len(),
            split_char(v@.subrange(0, i as int), '/').len() >= 1,
            views(stack@) == norm_segments(split_char(v@.subrange(0, i as int), '/').drop_last()),
            cur@ == split_char(v@.subrange(0, i as int), '/').last(),
        decreases v.len() - i,
    {
        let ghost pre = v@.subrange(0, i as int);
        let ghost parts = split_char(pre, '/');
        let ghost next = v@.subrange(0, i + 1);
        assert(next.drop_last() =~= pre);
        assert(next.last() == v@[i as int]);
        proof {
            lemma_split_nonempty(pre, '/');
        }
        if v[i] == '/' {
            // the segment `cur` is complete
            let ghost old_stack = views(stack@);
            assert(split_char(next, '/') == parts.push(Seq::<char>::empty()));
            assert(split_char(next, '/').drop_last() =~= parts);
            assert(parts.drop_last().push(parts.last()) =~= parts);
            let is_dot = cur.len() == 1 && cur[0] == '.';
            let is_dotdot = cur.len() == 2 && cur[0] == '.' && cur[1] == '.';
            proof {
                if cur@.len() == 1 && cur@[0] == '.' {
                    assert(cur@ =~= seq!['.']);
                }
                if cur@ == seq!['.'] {
                    assert(cur@[0] == '.');
                }
                if cur@.len() == 2 && cur@[0] == '.' && cur@[1] == '.' {
                    assert(cur@ =~= seq!['.', '.']);
                }
                if cur@ == seq!['.', '.'] {
                    assert(cur@[0] == '.' && cur@[1] == '.');
                }
            }
            if cur.len() == 0 || is_dot {
            } else if is_dotdot {
                if stack.len() > 0 {
                    stack.pop();
                    assert(views(stack@) =~= old_stack.drop_last());
                }
            } else {
                let seg = cur.clone();
                stack.push(seg);
                assert(views(stack@) =~= old_stack.push(cur@));
            }
            cur = Vec::new();
            assert(cur@ =~= split_char(next, '/').last());
        } else {
            cur.push(v[i]);
            assert(split_char(next, '/') == parts.update(
                parts.len() - 1,
                parts.last().push(v@[i as int]),
            ));
            assert(split_char(next, '/').drop_last() =~= parts.drop_last());
        }
        i = i + 1;
        proof {
            lemma_split_nonempty(next, '/');
        }
    }
    assert(v@.subrange(0, v@.len() as int) =~= v@);
    // process the final segment
    let ghost parts = split_char(v@, '/');
    let ghost old_stack = views(stack@);
    assert(parts.drop_last().push(parts.last()) =~= parts);
    let is_dot = cur.len() == 1 && cur[0] == '.';
    let is_dotdot = cur.len() == 2 && cur[0] == '.' && cur[1] == '.';
    proof {
        if cur@.len() == 1 && cur@[0] == '.' {
            assert(cur@ =~= seq!['.']);
        }
        if cur@ == seq!['.'] {
            assert(cur@[0] == '.');
        }
        if cur@.len() == 2 && cur@[0] == '.' && cur@[1] == '.' {
            assert(cur@ =~= seq!['.', '.']);
        }
        if cur@ == seq!['.', '.'] {
            assert(cur@[0] == '.' && cur@[1] == '.');
        }
    }
    if cur.len() == 0 || is_dot {
    } else if is_dotdot {
        if stack.len() > 0 {
            stack.pop();
            assert(views(stack@) =~= old_stack.drop_last());
        }
    } else {
        let seg = cur.clone();
        stack.push(seg);
        assert(views(stack@) =~= old_stack.push(cur@));
    }
    assert(views(stack@) == path_segments(path@));
    let joined = join_segment_chars(&stack);
    if v.len() > 0 && v[0] == '/' {
        let mut out: Vec<char> = Vec::new();
        out.push('/');
        let mut j: usize = 0;
        while j < joined.len()
            invariant
                j <= joined.len(),
                out@ == seq!['/'] + joined@.subrange(0, j as int),
            decreases joined.len() - j,
        {
            out.push(joined[j]);
            j = j + 1;
            assert(out@ =~= seq!['/'] + joined@.subrange(0, j as int));
        }
        assert(joined@.subrange(0, joined@.len() as int) =~= joined@);
        string_from_chars(out.as_slice())
    } else {
        string_from_chars(joined.as_slice())
    }
}

/// Index of the last occurrence of `c` in `s`, or `-1`.
pub open spec fn last_index_of(s: Seq<char>, c: char) -> int
    decreases s.len(),
{
    if s.len() == 0 {
        -1
    } else if s.last() == c {
        s.len() - 1
    } else {
        last_index_of(s.drop_last(), c)
    }
}

/// `-1 <= last_index_of(s, c) < s.len()`, the character there is `c` and no
/// later character is.
pub proof fn lemma_last_index_of(s: Seq<char>, c: char)
    ensures
        -1 <= last_index_of(s, c) < s.len(),
        last_index_of(s, c) >= 0 ==> s[last_index_of(s, c)] == c,
        forall|i: int| last_index_of(s, c) < i < s.len() ==> s[i] != c,
    decreases s.len(),
{
    if s.len() > 0 && s.last() != c {
        lemma_last_index_of(s.drop_last(), c);
        assert forall|i: int| last_index_of(s, c) < i < s.len() implies s[i] != c by {
            if i < s.len() - 1 {
                assert(s[i] == s.drop_last()[i]);
            }
        }
    }
}

/// The directory part of a path (everything before the last `/`; empty when
/// there is no `/`).
pub open spec fn parent_of(p: Seq<char>) -> Seq<char> {
    let k = last_index_of(p, '/');
    if k < 0 {
        Seq::empty()
    } else {
        p.subrange(0, k)
    }
}

/// Whether `p` ends in a `.` segment after a `/`.
pub open spec fn ends_in_dot_segment(p: Seq<char>) -> bool {
    p.len() >= 2 && p.last() == '.' && p[p.len() - 2] == '/'
}

/// `p` without the tail that names no further component: the `/`
/// characters and `.` segments that end it.
pub open spec fn trim_tail(p: Seq<char>) -> Seq<char>
    decreases p.len(),
{
    if p.len() > 0 && p.last() == '/' {
        trim_tail(p.drop_last())
    } else if ends_in_dot_segment(p) {
        trim_tail(p.drop_last())
    } else {
        p
    }
}

/// The last segment of a path once its tail is trimmed.
pub open spec fn last_segment(p: Seq<char>) -> Seq<char> {
    let t = trim_tail(p);
    t.subrange(last_index_of(t, '/') + 1, t.len() as int)
}

/// The file name of a path, as `Path::file_name` gives it: its last
/// component, ignoring `/` characters and `.` segments that end the path
/// (`src/main.rs/` and `a.rs/.` name `main.rs` and `a.rs`); empty when that
/// component is `.` or `..` or there is none.
pub open spec fn file_name_of(p: Seq<char>) -> Seq<char> {
    let raw = last_segment(p);
    if raw == seq!['.'] || raw == seq!['.', '.'] {
        Seq::empty()
    } else {
        raw
    }
}

/// The extension of a file name: the text after its last `.`, when that
/// `.` is not the first character and the name is not `..`.
pub open spec fn extension_of(name: Seq<char>) -> Option<Seq<char>> {
    let d = last_index_of(name, '.');
    if name == seq!['.', '.'] || d <= 0 {
        None
    } else {
        Some(name.subrange(d + 1, name.len() as int))
    }
}

/// `a` joined with the relative path `b`.
pub open spec fn path_join(a: Seq<char>, b: Seq<char>) -> Seq<char> {
    if a.len() == 0 {
        b
    } else {
        a.push('/') + b
    }
}

/// Whether `p` lies at or under the directory `root` (segment-wise prefix).
pub open spec fn path_starts_with(p: Seq<char>, root: Seq<char>) -> bool {
    root.len() == 0 || p == root || crate::text::starts_with(p, root.push('/'))
}

/// `p` with its file name's extension replaced by `ext` (removed when `ext`
/// is empty); `p` with `.ext` appended when it has no extension.
pub open spec fn with_extension(p: Seq<char>, ext: Seq<char>) -> Seq<char> {
    let t = trim_tail(p);
    let k = last_index_of(t, '/');
    let name = last_segment(p);
    let stem_end = match extension_of(name) {
        Some(_) => k + 1 + last_index_of(name, '.'),
        None => t.len() as int,
    };
    if ext.len() == 0 {
        t.subrange(0, stem_end)
    } else {
        t.subrange(0, stem_end).push('.') + ext
    }
}

/// `trim_tail` leaves a prefix of `p` that does not end in `/` or in a
/// `.` segment.
pub proof fn lemma_trim_tail(p: Seq<char>)
    ensures
        trim_tail(p).len() <= p.len(),
        trim_tail(p) == p.subrange(0, trim_tail(p).len() as int),
        trim_tail(p).len() > 0 ==> trim_tail(p).last() != '/',
        !ends_in_dot_segment(trim_tail(p)),
        trim_tail(trim_tail(p)) == trim_tail(p),
    decreases p.len(),
{
    if (p.len() > 0 && p.last() == '/') || ends_in_dot_segment(p) {
        lemma_trim_tail(p.drop_last());
        let t = trim_tail(p.drop_last());
        assert(p.drop_last().subrange(0, t.len() as int) =~= p.subrange(0, t.len() as int));
    } else {
        assert(p.subrange(0, p.len() as int) =~= p);
    }
}

/// `p` without the `/` characters and `.` segments that end it.
pub fn trim_tail_chars(p: &[char]) -> (r: Vec<char>)
    ensures
        r@ == trim_tail(p@),
{
    let mut end: usize = p.len();
    assert(p@.subrange(0, end as int) =~= p@);
    while end > 0 && (p[end - 1] == '/' || (end >= 2 && p[end - 1] == '.' && p[end - 2] == '/'))
        invariant
            end <= p.len(),
            trim_tail(p@) == trim_tail(p@.subrange(0, end as int)),
        decreases end,
    {
        assert(p@.subrange(0, end as int).drop_last() =~= p@.subrange(0, end - 1));
        end = end - 1;
    }
    slice_chars(p, 0, end)
}

/// Whether a segment names a component: not empty and not `.`.
pub open spec fn named_segment(seg: Seq<char>) -> bool {
    seg.len() > 0 && seg != seq!['.']
}

/// The components of a path, as `Path::components` gives them: `/` first
/// for a path from the root, `.` first for a path that starts with a `.`
/// segment, then every segment that is neither empty nor `.`. Paths with
/// the same components are equal as paths (`a//b/` and `a/./b` equal `a/b`).
pub open spec fn path_components(p: Seq<char>) -> Seq<Seq<char>> {
    let segs = split_char(p, '/');
    if p.len() > 0 && p[0] == '/' {
        seq![seq!['/']] + segs.filter(|g: Seq<char>| named_segment(g))
    } else if segs[0] == seq!['.'] {
        seq![seq!['.']] + segs.drop_first().filter(|g: Seq<char>| named_segment(g))
    } else {
        segs.filter(|g: Seq<char>| named_segment(g))
    }
}

/// The named segments of `segs` from position `from` on.
fn named_from(segs: &Vec<Vec<char>>, from: usize, out: &mut Vec<Vec<char>>)
    requires
        from <= segs@.len(),
    ensures
        views(final(out)@) == views(old(out)@) + views(segs@).skip(from as int).filter(|g: Seq<char>| named_segment(g)),
{
    let ghost pred = |g: Seq<char>| named_segment(g);
    let ghost sv = views(segs@).skip(from as int);
    let ghost start = views(out@);
    let mut i: usize = from;
    assert(sv.take(0) =~= Seq::<Seq<char>>::empty());
    while i < segs.len()
        invariant
            from <= i <= segs@.len(),
            sv == views(segs@).skip(from as int),
            pred == (|g: Seq<char>| named_segment(g)),
            views(out@) == start + sv.take(i - from).filter(pred),
        decreases segs.len() - i,
    {
        let g = segs[i].as_slice();
        proof {
            assert(sv[i - from] == segs@[i as int]@);
            sv.take(i - from).lemma_filter_push(sv[i - from], pred);
            assert(sv.take(i - from).push(sv[i - from]) =~= sv.take(i - from + 1));
        }
        let is_dot = g.len() == 1 && g[0] == '.';
        proof {
            if g@.len() == 1 && g@[0] == '.' {
                assert(g@ =~= seq!['.']);
            }
        }
        if g.len() > 0 && !is_dot {
            let ghost before = views(out@);
            let seg = slice_chars(g, 0, g.len());
            assert(seg@ =~= g@);
            out.push(seg);
            assert(views(out@) =~= before.push(g@));
        }
        i = i + 1;
    }
    assert(sv.take(segs@.len() - from) =~= sv);
}

/// The components of a path.
pub fn components_chars(p: &[char]) -> (r: Vec<Vec<char>>)
    ensures
        views(r@) == path_components(p@),
{
    let segs = split_chars(p, '/');
    proof {
        lemma_split_nonempty(p@, '/');
    }
    let mut out: Vec<Vec<char>> = Vec::new();
    let first_dot = segs[0].len() == 1 && segs[0][0] == '.';
    proof {
        assert(segs@[0]@ == split_char(p@, '/')[0]);
        if segs@[0]@.len() == 1 && segs@[0]@[0] == '.' {
            assert(segs@[0]@ =~= seq!['.']);
        }
    }
    if p.len() > 0 && p[0] == '/' {
        let mut root: Vec<char> = Vec::new();
        root.push('/');
        assert(root@ =~= seq!['/']);
        out.push(root);
        assert(views(out@) =~= seq![seq!['/']]);
        named_from(&segs, 0, &mut out);
        assert(views(segs@).skip(0) =~= views(segs@));
    } else if first_dot {
        let mut cur: Vec<char> = Vec::new();
        cur.push('.');
        assert(cur@ =~= seq!['.']);
        out.push(cur);
        assert(views(out@) =~= seq![seq!['.']]);
        named_from(&segs, 1, &mut out);
        assert(views(segs@).skip(1) =~= split_char(p@, '/').drop_first());
    } else {
        assert(views(out@) =~= Seq::<Seq<char>>::empty());
        named_from(&segs, 0, &mut out);
        assert(views(segs@).skip(0) =~= views(segs@));
        assert(views(out@) =~= split_char(p@, '/').filter(|g: Seq<char>| named_segment(g)));
    }
    out
}

/// Index of the last `c` in `s`, or `-1` (as `isize`-free `Option`).
pub fn last_index(s: &[char], c: char) -> (r: Option<usize>)
    ensures
        match r {
            Some(k) => k as int == last_index_of(s@, c) && k < s.len(),
            None => last_index_of(s@, c) == -1,
        },
{
    proof {
        lemma_last_index_of(s@, c);
    }
    let mut i: usize = s.len();
    assert(s@.subrange(0, s@.len() as int) =~= s@);
    while i > 0
        invariant
            i <= s.len(),
            last_index_of(s@, c) == last_index_of(s@.subrange(0, i as int), c),
        decreases i,
    {
        let ghost pre = s@.subrange(0, i as int);
        assert(pre.drop_last() =~= s@.subrange(0, i - 1));
        if s[i - 1] == c {
            return Some(i - 1);
        }
        i = i - 1;
    }
    None
}

/// Characters `s[from..to]`.
pub fn slice_chars(s: &[char], from: usize, to: usize) -> (r: Vec<char>)
    requires
        from <= to <= s.len(),
    ensures
        r@ == s@.subrange(from as int, to as int),
{
    let mut r: Vec<char> = Vec::new();
    let mut i: usize = from;
    while i < to
        invariant
            from <= i <= to,
            to <= s.len(),
            r@ =~= s@.subrange(from as int, i as int),
        decreases to - i,
    {
        r.push(s[i]);
        i = i + 1;
        assert(r@ =~= s@.subrange(from as int, i as int));
    }
    r
}

/// `a` followed by `b`.
pub fn concat_chars(a: &[char], b: &[char]) -> (r: Vec<char>)
    ensures
        r@ == a@ + b@,
{
    let mut r: Vec<char> = Vec::new();
    let mut i: usize = 0;
    while i < a.len()
        invariant
            i <= a.len(),
            r@ =~= a@.subrange(0, i as int),
        decreases a.len() - i,
    {
        r.push(a[i]);
        i = i + 1;
        assert(r@ =~= a@.subrange(0, i as int));
    }
    let mut j: usize = 0;
    while j < b.len()
        invariant
            j <= b.len(),
            r@ =~= a@ + b@.subrange(0, j as int),
        decreases b.len() - j,
    {
        r.push(b[j]);
        j = j + 1;
        assert(r@ =~= a@ + b@.subrange(0, j as int));
    }
    assert(b@.subrange(0, b@.len() as int) =~= b@);
    r
}

/// The directory part of a path.
pub fn parent_chars(p: &[char]) -> (r: Vec<char>)
    ensures
        r@ == parent_of(p@),
{
    match last_index(p, '/') {
        Some(k) => {
            proof {
                lemma_last_index_of(p@, '/');
            }
            slice_chars(p, 0, k)
        },
        None => Vec::new(),
    }
}

/// The last segment of a path.
pub fn file_name_chars(p: &[char]) -> (r: Vec<char>)
    ensures
        r@ == file_name_of(p@),
{
    let t = trim_tail_chars(p);
    proof {
        lemma_last_index_of(t@, '/');
    }
    let raw = match last_index(t.as_slice(), '/') {
        Some(k) => slice_chars(t.as_slice(), k + 1, t.len()),
        None => slice_chars(t.as_slice(), 0, t.len()),
    };
    let is_dot = raw.len() == 1 && raw[0] == '.';
    let is_dotdot = raw.len() == 2 && raw[0] == '.' && raw[1] == '.';
    proof {
        if raw@.len() == 1 && raw@[0] == '.' {
            assert(raw@ =~= seq!['.']);
        }
        if raw@.len() == 2 && raw@[0] == '.' && raw@[1] == '.' {
            assert(raw@ =~= seq!['.', '.']);
        }
    }
    if is_dot || is_dotdot {
        Vec::new()
    } else {
        raw
    }
}

/// The extension of a file name.
pub fn extension_chars(name: &[char]) -> (r: Option<Vec<char>>)
    ensures
        match r {
            Some(e) => extension_of(name@) == Some(e@),
            None => extension_of(name@) is None,
        },
{
    proof {
        lemma_last_index_of(name@, '.');
    }
    let is_dotdot = name.len() == 2 && name[0] == '.' && name[1] == '.';
    proof {
        if name@.len() == 2 && name@[0] == '.' && name@[1] == '.' {
            assert(name@ =~= seq!['.', '.']);
        }
    }
    if is_dotdot {
        return None;
    }
    match last_index(name, '.') {
        Some(d) => {
            if d == 0 {
                None
            } else {
                Some(slice_chars(name, d + 1, name.len()))
            }
        },
        None => None,
    }
}

/// `a` joined with the relative path `b`.
pub fn join_chars(a: &[char], b: &[char]) -> (r: Vec<char>)
    ensures
        r@ == path_join(a@, b@),
{
    if a.len() == 0 {
        slice_chars(b, 0, b.len())
    } else {
        let mut head = slice_chars(a, 0, a.len());
        head.push('/');
        concat_chars(head.as_slice(), b)
    }
}

/// Whether `p` lies at or under the directory `root`.
pub fn starts_with_path(p: &[char], root: &[char]) -> (r: bool)
    ensures
        r == path_starts_with(p@, root@),
{
    if root.len() == 0 {
        return true;
    }
    if crate::text::chars_eq(p, root) {
        return true;
    }
    let mut pre = slice_chars(root, 0, root.len());
    pre.push('/');
    assert(pre@ =~= root@.push('/'));
    crate::text::chars_starts_with(p, pre.as_slice())
}

/// `p` with its extension replaced by `ext`.
pub fn with_extension_chars(p: &[char], ext: &[char]) -> (r: Vec<char>)
    ensures
        r@ == with_extension(p@, ext@),
{
    let t = trim_tail_chars(p);
    proof {
        lemma_trim_tail(p@);
        lemma_last_index_of(t@, '/');
    }
    let k = last_index(t.as_slice(), '/');
    let start: usize = match k {
        Some(k) => k + 1,
        None => 0,
    };
    let name = slice_chars(t.as_slice(), start, t.len());
    assert(name@ == last_segment(p@));
    assert(start as int == last_index_of(t@, '/') + 1);
    assert(name@.len() == t@.len() - start);
    let stem_end: usize = match extension_chars(name.as_slice()) {
        Some(_) => {
            proof {
                lemma_last_index_of(name@, '.');
            }
            match last_index(name.as_slice(), '.') {
                Some(d) => {
                    assert(d < name.len());
                    start + d
                },
                None => t.len(),
            }
        },
        None => t.len(),
    };
    let stem = slice_chars(t.as_slice(), 0, stem_end);
    if ext.len() == 0 {
        stem
    } else {
        let mut head = stem;
        head.push('.');
        concat_chars(head.as_slice(), ext)
    }
}

/// The text after the last `c` of `s` (all of `s` when `c` does not occur).
pub open spec fn after_last(s: Seq<char>, c: char) -> Seq<char> {
    s.subrange(last_index_of(s, c) + 1, s.len() as int)
}

/// The text after the last `c` of `s`.
pub fn after_last_chars(s: &[char], c: char) -> (r: Vec<char>)
    ensures
        r@ == after_last(s@, c),
{
    proof {
        lemma_last_index_of(s@, c);
    }
    match last_index(s, c) {
        Some(k) => slice_chars(s, k + 1, s.len()),
        None => slice_chars(s, 0, s.len()),
    }
}

/// The elements `from..to` of a slice of hashes.
pub fn slice_u64(s: &[u64], from: usize, to: usize) -> (r: Vec<u64>)
    requires
        from <= to <= s@.len(),
    ensures
        r@ == s@.subrange(from as int, to as int),
{
    let mut out: Vec<u64> = Vec::new();
    let mut i: usize = from;
    while i < to
        invariant
            from <= i <= to,
            to <= s@.len(),
            out@ == s@.subrange(from as int, i as int),
        decreases to - i,
    {
        out.push(s[i]);
        assert(out@ =~= s@.subrange(from as int, i + 1));
        i = i + 1;
    }
    out
}


/// `s` split at every occurrence of `c`.
pub fn split_chars(s: &[char], c: char) -> (r: Vec<Vec<char>>)
    ensures
        views(r@) == split_char(s@, c),
{
    let mut out: Vec<Vec<char>> = Vec::new();
    let mut cur: Vec<char> = Vec::new();
    let mut i: usize = 0;
    assert(s@.take(0) =~= Seq::<char>::empty());
    assert(views(out@).push(cur@) =~= seq![Seq::<char>::empty()]);
    while i < s.len()
        invariant
            i <= s.len(),
            views(out@).push(cur@) == split_char(s@.take(i as int), c),
        decreases s.len() - i,
    {
        assert(s@.take(i + 1).drop_last() =~= s@.take(i as int));
        assert(s@.take(i + 1).last() == s@[i as int]);
        let ghost prev = split_char(s@.take(i as int), c);
        let ghost before = views(out@);
        if s[i] == c {
            let done = cur;
            out.push(done);
            cur = Vec::new();
            assert(views(out@) =~= before.push(done@));
            assert(views(out@).push(cur@) =~= prev.push(Seq::<char>::empty()));
        } else {
            cur.push(s[i]);
            assert(views(out@) =~= before);
            assert(views(out@).push(cur@) =~= prev.update(prev.len() - 1, prev.last().push(s@[i as int])));
        }
        i = i + 1;
    }
    assert(s@.take(s.len() as int) =~= s@);
    let ghost before = views(out@);
    out.push(cur);
    assert(views(out@) =~= before.push(cur@));
    out
}

} // verus!
