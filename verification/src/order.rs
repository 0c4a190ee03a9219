//! Orders on text and a stable sort.
//!
//! Text is ordered lexicographically by character code (the order of
//! `String`). Paths are ordered segment by segment, which is the same as
//! comparing them as text with `/` ranked below every other character.

use vstd::prelude::*;
use vstd::relations::sorted_by;

verus! {

/// The rank of a character: its code, or `-1` for `/` under the path order.
pub open spec fn rank(c: char, path: bool) -> int {
    if path && c == '/' {
        -1
    } else {
        (c as u32) as int
    }
}

/// Strict lexicographic order on text (`path` ranks `/` lowest).
pub open spec fn lex_lt(a: Seq<char>, b: Seq<char>, path: bool) -> bool
    decreases a.len(),
{
    if a.len() == 0 {
        b.len() > 0
    } else if b.len() == 0 {
        false
    } else if rank(a[0], path) < rank(b[0], path) {
        true
    } else if rank(a[0], path) > rank(b[0], path) {
        false
    } else {
        lex_lt(a.drop_first(), b.drop_first(), path)
    }
}

/// Non-strict lexicographic order on text.
pub open spec fn lex_le(a: Seq<char>, b: Seq<char>, path: bool) -> bool {
    a == b || lex_lt(a, b, path)
}

proof fn lemma_rank_injective(c: char, d: char, path: bool)
    ensures
        rank(c, path) == rank(d, path) ==> c == d,
{
    if (c as u32) == (d as u32) {
        assert(c == d);
    }
}

/// `lex_lt` is irreflexive and asymmetric.
pub proof fn lemma_lex_lt_asym(a: Seq<char>, b: Seq<char>, path: bool)
    ensures
        !lex_lt(a, a, path),
        lex_lt(a, b, path) ==> !lex_lt(b, a, path),
    decreases a.len(),
{
    if a.len() > 0 && b.len() > 0 {
        lemma_lex_lt_asym(a.drop_first(), b.drop_first(), path);
    }
    if a.len() > 0 {
        lemma_lex_lt_asym(a.drop_first(), a.drop_first(), path);
    }
}

/// `lex_lt` is transitive.
pub proof fn lemma_lex_lt_trans(a: Seq<char>, b: Seq<char>, c: Seq<char>, path: bool)
    requires
        lex_lt(a, b, path),
        lex_lt(b, c, path),
    ensures
        lex_lt(a, c, path),
    decreases a.len(),
{
    if a.len() > 0 && b.len() > 0 && c.len() > 0 {
        if rank(a[0], path) == rank(b[0], path) && rank(b[0], path) == rank(c[0], path) {
            lemma_lex_lt_trans(a.drop_first(), b.drop_first(), c.drop_first(), path);
        }
    }
}

/// Distinct texts are ordered one way or the other.
pub proof fn lemma_lex_lt_total(a: Seq<char>, b: Seq<char>, path: bool)
    ensures
        a == b || lex_lt(a, b, path) || lex_lt(b, a, path),
    decreases a.len(),
{
    if a.len() > 0 && b.len() > 0 {
        lemma_rank_injective(a[0], b[0], path);
        if rank(a[0], path) == rank(b[0], path) {
            lemma_lex_lt_total(a.drop_first(), b.drop_first(), path);
            if a.drop_first() == b.drop_first() {
                assert(a =~= seq![a[0]] + a.drop_first());
                assert(b =~= seq![b[0]] + b.drop_first());
            }
        }
    } else if a.len() == 0 && b.len() == 0 {
        assert(a =~= b);
    }
}

/// Compares two texts: `-1`, `0` or `1` as `a` is below, equal to or
/// above `b`.
pub fn compare_chars(a: &[char], b: &[char], path: bool) -> (r: i8)
    ensures
        r == -1 <==> lex_lt(a@, b@, path),
        r == 0 <==> a@ == b@,
        r == 1 <==> lex_lt(b@, a@, path),
        r == -1 || r == 0 || r == 1,
{
    let mut i: usize = 0;
    proof {
        lemma_lex_lt_total(a@, b@, path);
        lemma_lex_lt_asym(a@, b@, path);
    }
    assert(a@.skip(0) =~= a@);
    assert(b@.skip(0) =~= b@);
    while i < a.len() && i < b.len()
        invariant
            i <= a.len(),
            i <= b.len(),
            forall|j: int| 0 <= j < i ==> a@[j] == b@[j],
            lex_lt(a@, b@, path) == lex_lt(a@.skip(i as int), b@.skip(i as int), path),
            lex_lt(b@, a@, path) == lex_lt(b@.skip(i as int), a@.skip(i as int), path),
        decreases a.len() - i,
    {
        let ca = a[i];
        let cb = b[i];
        let ra: i64 = if path && ca == '/' {
            -1
        } else {
            (ca as u32) as i64
        };
        let rb: i64 = if path && cb == '/' {
            -1
        } else {
            (cb as u32) as i64
        };
        let ghost sa = a@.skip(i as int);
        let ghost sb = b@.skip(i as int);
        assert(sa[0] == ca && sb[0] == cb);
        assert(ra == rank(ca, path) && rb == rank(cb, path));
        assert(sa.len() > 0 && sb.len() > 0);
        if ra < rb {
            return -1;
        }
        if ra > rb {
            return 1;
        }
        proof {
            lemma_rank_injective(ca, cb, path);
            assert(sa.drop_first() =~= a@.skip(i + 1));
            assert(sb.drop_first() =~= b@.skip(i + 1));
        }
        i = i + 1;
    }
    if i == a.len() && i == b.len() {
        assert(a@ =~= b@);
        0
    } else if i == a.len() {
        assert(a@.skip(i as int).len() == 0);
        -1
    } else {
        assert(b@.skip(i as int).len() == 0);
        1
    }
}

/// Compares two strings (see [`compare_chars`]).
pub fn compare_str(a: &str, b: &str, path: bool) -> (r: i8)
    ensures
        r == -1 <==> lex_lt(a@, b@, path),
        r == 0 <==> a@ == b@,
        r == 1 <==> lex_lt(b@, a@, path),
        r == -1 || r == 0 || r == 1,
{
    let va = crate::text::chars_of(a);
    let vb = crate::text::chars_of(b);
    compare_chars(va.as_slice(), vb.as_slice(), path)
}

/// A total preorder: reflexive in the sense of totality and transitive.
pub open spec fn total_preorder<T>(le: spec_fn(T, T) -> bool) -> bool {
    &&& forall|a: T, b: T| #[trigger] le(a, b) || #[trigger] le(b, a)
    &&& forall|a: T, b: T, c: T| #[trigger] le(a, b) && #[trigger] le(b, c) ==> le(a, c)
}

/// How many leading elements of `out` are not above `x`.
pub open spec fn prefix_le<T>(out: Seq<T>, x: T, le: spec_fn(T, T) -> bool) -> nat
    decreases out.len(),
{
    if out.len() == 0 {
        0
    } else if le(out[0], x) {
        1 + prefix_le(out.drop_first(), x, le)
    } else {
        0
    }
}

/// `x` inserted after the leading elements of `out` that are not above it.
pub open spec fn insert_after_le<T>(out: Seq<T>, x: T, le: spec_fn(T, T) -> bool) -> Seq<T> {
    out.insert(prefix_le(out, x, le) as int, x)
}

/// The stable sort of `s` by `le`: elements are inserted in order, each
/// after every element not above it, so equal elements keep their order.
pub open spec fn sort_spec<T>(s: Seq<T>, le: spec_fn(T, T) -> bool) -> Seq<T>
    decreases s.len(),
{
    if s.len() == 0 {
        Seq::empty()
    } else {
        insert_after_le(sort_spec(s.drop_last(), le), s.last(), le)
    }
}

proof fn lemma_prefix_le<T>(out: Seq<T>, x: T, le: spec_fn(T, T) -> bool, p: int)
    requires
        0 <= p <= out.len(),
        forall|j: int| 0 <= j < p ==> le(#[trigger] out[j], x),
        p < out.len() ==> !le(out[p], x),
    ensures
        prefix_le(out, x, le) == p,
    decreases p,
{
    if p > 0 {
        let d = out.drop_first();
        assert forall|j: int| 0 <= j < p - 1 implies le(#[trigger] d[j], x) by {
            assert(d[j] == out[j + 1]);
        }
        if p < out.len() {
            assert(d[p - 1] == out[p]);
        }
        lemma_prefix_le(d, x, le, p - 1);
        assert(le(out[0], x));
    }
}

/// Sorting the images of a sequence under `f` by an order that reads them
/// as `le` reads the originals gives the images of the sorted sequence.
pub proof fn lemma_sort_map<A, B>(s: Seq<A>, f: spec_fn(A) -> B, le: spec_fn(A, A) -> bool, le2: spec_fn(B, B) -> bool)
    requires
        forall|a: A, b: A| #[trigger] le(a, b) == le2(f(a), f(b)),
    ensures
        sort_spec(s.map_values(f), le2) == sort_spec(s, le).map_values(f),
    decreases s.len(),
{
    if s.len() > 0 {
        lemma_sort_map(s.drop_last(), f, le, le2);
        assert(s.map_values(f).drop_last() =~= s.drop_last().map_values(f));
        let o = sort_spec(s.drop_last(), le);
        let x = s.last();
        lemma_prefix_map(o, x, f, le, le2);
        assert(o.map_values(f).insert(prefix_le(o, x, le) as int, f(x)) =~= o.insert(prefix_le(o, x, le) as int, x).map_values(f));
    }
}

proof fn lemma_prefix_map<A, B>(o: Seq<A>, x: A, f: spec_fn(A) -> B, le: spec_fn(A, A) -> bool, le2: spec_fn(B, B) -> bool)
    requires
        forall|a: A, b: A| #[trigger] le(a, b) == le2(f(a), f(b)),
    ensures
        prefix_le(o.map_values(f), f(x), le2) == prefix_le(o, x, le),
        prefix_le(o, x, le) <= o.len(),
    decreases o.len(),
{
    if o.len() > 0 {
        lemma_prefix_map(o.drop_first(), x, f, le, le2);
        assert(o.map_values(f).drop_first() =~= o.drop_first().map_values(f));
        assert(le(o[0], x) == le2(f(o[0]), f(x)));
    }
}

/// Sorting keeps the elements.
pub proof fn lemma_sort_multiset<T>(s: Seq<T>, le: spec_fn(T, T) -> bool)
    ensures
        sort_spec(s, le).to_multiset() == s.to_multiset(),
        sort_spec(s, le).len() == s.len(),
    decreases s.len(),
{
    broadcast use vstd::seq_lib::group_to_multiset_ensures;

    if s.len() > 0 {
        lemma_sort_multiset(s.drop_last(), le);
        let o = sort_spec(s.drop_last(), le);
        lemma_prefix_bound(o, s.last(), le);
        vstd::seq_lib::to_multiset_insert(o, prefix_le(o, s.last(), le) as int, s.last());
        assert(s.drop_last().push(s.last()) =~= s);
    }
}

proof fn lemma_prefix_bound<T>(o: Seq<T>, x: T, le: spec_fn(T, T) -> bool)
    ensures
        prefix_le(o, x, le) <= o.len(),
    decreases o.len(),
{
    if o.len() > 0 {
        lemma_prefix_bound(o.drop_first(), x, le);
    }
}

/// A stable insertion sort by the order `le`, whose executable form is
/// `before`.
pub fn stable_sort<T, F: Fn(&T, &T) -> bool>(
    v: Vec<T>,
    before: &F,
    Ghost(le): Ghost<spec_fn(T, T) -> bool>,
) -> (r: Vec<T>)
    requires
        forall|a: &T, b: &T| #[trigger] before.requires((a, b)),
        forall|a: &T, b: &T, o: bool| before.ensures((a, b), o) ==> o == le(*a, *b),
        total_preorder(le),
    ensures
        r@.to_multiset() == v@.to_multiset(),
        sorted_by(r@, le),
        r@ == sort_spec(v@, le),
{
    broadcast use vstd::seq_lib::group_to_multiset_ensures;

    let mut src = v;
    let mut out: Vec<T> = Vec::new();
    let ghost orig = src@;
    let ghost mut taken: Seq<T> = Seq::empty();
    while src.len() > 0
        invariant
            forall|a: &T, b: &T| #[trigger] before.requires((a, b)),
            forall|a: &T, b: &T, o: bool| before.ensures((a, b), o) ==> o == le(*a, *b),
            total_preorder(le),
            orig == taken + src@,
            out@.to_multiset() == taken.to_multiset(),
            sorted_by(out@, le),
            out@ == sort_spec(taken, le),
        decreases src.len(),
    {
        let x = src.remove(0);
        // position after every element not above `x`
        let mut p: usize = 0;
        while p < out.len() && before(&out[p], &x)
            invariant
                forall|a: &T, b: &T| #[trigger] before.requires((a, b)),
                forall|a: &T, b: &T, o: bool| before.ensures((a, b), o) ==> o == le(*a, *b),
                p <= out.len(),
                forall|j: int| 0 <= j < p ==> le(#[trigger] out@[j], x),
            decreases out.len() - p,
        {
            p = p + 1;
        }
        let ghost old_out = out@;
        proof {
            if p < out.len() {
                assert(!le(out@[p as int], x));
                assert forall|j: int| p <= j < out@.len() implies le(x, #[trigger] out@[j]) by {
                    if j > p {
                        assert(le(out@[p as int], out@[j]));
                        if le(out@[j], x) {
                            assert(le(out@[p as int], x));
                        }
                    }
                    assert(le(out@[j], x) || le(x, out@[j]));
                }
            }
        }
        out.insert(p, x);
        proof {
            assert(out@ == old_out.insert(p as int, x));
            assert forall|i: int, j: int| 0 <= i < j < out@.len() implies le(
                #[trigger] out@[i],
                #[trigger] out@[j],
            ) by {
                if i < p && j == p {
                } else if i == p && j > p {
                    assert(out@[j] == old_out[j - 1]);
                } else if i < p && j > p {
                    assert(out@[j] == old_out[j - 1]);
                    assert(sorted_by(old_out, le));
                    assert(le(old_out[i], old_out[j - 1]));
                } else if j < p {
                    assert(le(old_out[i], old_out[j]));
                } else {
                    assert(out@[i] == old_out[i - 1]);
                    assert(out@[j] == old_out[j - 1]);
                    assert(le(old_out[i - 1], old_out[j - 1]));
                }
            }
            old_out.insert_ensures(p as int, x);
            vstd::seq_lib::to_multiset_insert(old_out, p as int, x);
            assert(orig == taken.push(x) + src@) by {
                assert(taken + (seq![x] + src@) == taken.push(x) + src@);
            }
            vstd::seq_lib::to_multiset_build(taken, x);
            lemma_prefix_le(old_out, x, le, p as int);
            assert(taken.push(x).drop_last() =~= taken);
            taken = taken.push(x);
        }
    }
    assert(taken =~= orig);
    out
}

/// Strictly increasing under `lex_lt`.
pub open spec fn strictly_sorted(s: Seq<Seq<char>>, path: bool) -> bool {
    forall|i: int, j: int| 0 <= i < j < s.len() ==> lex_lt(#[trigger] s[i], #[trigger] s[j], path)
}

/// The views of a sequence of strings.
pub open spec fn views_of(v: Seq<String>) -> Seq<Seq<char>> {
    Seq::new(v.len(), |i: int| v[i]@)
}

/// Adds `x` to a strictly sorted vector of strings unless it is already
/// there (a sorted set of strings).
pub fn insert_sorted(v: &mut Vec<String>, x: String, path: bool)
    requires
        strictly_sorted(views_of(old(v)@), path),
    ensures
        strictly_sorted(views_of(final(v)@), path),
        views_of(final(v)@).to_set() == views_of(old(v)@).to_set().insert(x@),
{
    let mut p: usize = 0;
    let mut c: i8 = 1;
    while p < v.len() && compare_str(v[p].as_str(), x.as_str(), path) == -1
        invariant
            p <= v.len(),
            strictly_sorted(views_of(v@), path),
            forall|j: int| 0 <= j < p ==> lex_lt(#[trigger] v@[j]@, x@, path),
        decreases v.len() - p,
    {
        p = p + 1;
    }
    let ghost old_v = views_of(v@);
    if p < v.len() {
        c = compare_str(v[p].as_str(), x.as_str(), path);
    }
    if p < v.len() && c == 0 {
        assert(old_v[p as int] == x@);
        assert(old_v.to_set().insert(x@) =~= old_v.to_set());
        return;
    }
    proof {
        if p < v@.len() {
            assert(lex_lt(x@, v@[p as int]@, path));
            assert forall|j: int| p <= j < v@.len() implies lex_lt(x@, #[trigger] v@[j]@, path) by {
                if j > p {
                    assert(lex_lt(old_v[p as int], old_v[j], path));
                    lemma_lex_lt_trans(x@, v@[p as int]@, v@[j]@, path);
                }
            }
        }
    }
    v.insert(p, x);
    proof {
        let nv = views_of(v@);
        assert(nv =~= old_v.insert(p as int, x@));
        assert forall|i: int, j: int| 0 <= i < j < nv.len() implies lex_lt(
            #[trigger] nv[i],
            #[trigger] nv[j],
            path,
        ) by {
            if i < p && j == p {
            } else if i == p && j > p {
                assert(nv[j] == old_v[j - 1]);
            } else if i < p && j > p {
                assert(nv[j] == old_v[j - 1]);
                assert(lex_lt(old_v[i], old_v[j - 1], path));
            } else if j < p {
            } else {
                assert(nv[i] == old_v[i - 1]);
                assert(nv[j] == old_v[j - 1]);
            }
        }
        assert forall|e: Seq<char>| nv.to_set().contains(e) <==> old_v.to_set().insert(x@).contains(
            e,
        ) by {
            if nv.to_set().contains(e) {
                let k = choose|k: int| 0 <= k < nv.len() && nv[k] == e;
                if k < p {
                    assert(old_v[k] == e);
                } else if k > p {
                    assert(old_v[k - 1] == e);
                }
            }
            if old_v.to_set().contains(e) {
                let k = choose|k: int| 0 <= k < old_v.len() && old_v[k] == e;
                if k < p {
                    assert(nv[k] == e);
                } else {
                    assert(nv[k + 1] == e);
                }
            }
            if e == x@ {
                assert(nv[p as int] == e);
            }
        }
        assert(nv.to_set() =~= old_v.to_set().insert(x@));
    }
}

/// `lex_le` on keys is a total preorder.
pub proof fn lemma_key_preorder<T>(key: spec_fn(T) -> Seq<char>, path: bool)
    ensures
        total_preorder(|a: T, b: T| lex_le(key(a), key(b), path)),
{
    let le = |a: T, b: T| lex_le(key(a), key(b), path);
    assert forall|a: T, b: T| #[trigger] le(a, b) || #[trigger] le(b, a) by {
        lemma_lex_lt_total(key(a), key(b), path);
    }
    assert forall|a: T, b: T, c: T| #[trigger] le(a, b) && #[trigger] le(b, c) implies le(a, c) by {
        if key(a) != key(b) && key(b) != key(c) {
            lemma_lex_lt_trans(key(a), key(b), key(c), path);
        }
    }
}

/// Sorts strings by the text (or path) order.
pub fn sort_strings(v: Vec<String>, path: bool) -> (r: Vec<String>)
    ensures
        r@.to_multiset() == v@.to_multiset(),
        sorted_by(r@, |a: String, b: String| lex_le(a@, b@, path)),
{
    let ghost key = |s: String| s@;
    proof {
        lemma_key_preorder(key, path);
        assert((|a: String, b: String| lex_le(key(a), key(b), path)) =~= (|a: String, b: String| lex_le(a@, b@, path)));
    }
    let before = |a: &String, b: &String| -> (o: bool)
        ensures
            o == lex_le(a@, b@, path),
        {
            let c = compare_str(a.as_str(), b.as_str(), path);
            proof {
                lemma_lex_lt_asym(a@, b@, path);
            }
            c != 1
        };
    stable_sort(v, &before, Ghost(|a: String, b: String| lex_le(a@, b@, path)))
}

/// `lex_le` is a total order on text.
pub proof fn lemma_lex_le_total_ordering(path: bool)
    ensures
        vstd::relations::total_ordering(|a: Seq<char>, b: Seq<char>| lex_le(a, b, path)),
{
    let le = |a: Seq<char>, b: Seq<char>| lex_le(a, b, path);
    assert forall|a: Seq<char>, b: Seq<char>| #[trigger] le(a, b) && #[trigger] le(b, a) implies a == b by {
        lemma_lex_lt_asym(a, b, path);
    }
    assert forall|a: Seq<char>, b: Seq<char>| #[trigger] le(a, b) || #[trigger] le(b, a) by {
        lemma_lex_lt_total(a, b, path);
    }
    assert forall|a: Seq<char>, b: Seq<char>, c: Seq<char>| #[trigger] le(a, b) && #[trigger] le(b, c) implies le(a, c) by {
        if a != b && b != c {
            lemma_lex_lt_trans(a, b, c, path);
        }
    }
}

/// Sorting strings and then taking their views gives the views sorted.
pub proof fn lemma_sorted_views(r: Seq<String>, v: Seq<Seq<char>>, path: bool)
    requires
        views_of(r).to_multiset() == v.to_multiset(),
        sorted_by(r, |a: String, b: String| lex_le(a@, b@, path)),
    ensures
        views_of(r) == v.sort_by(|a: Seq<char>, b: Seq<char>| lex_le(a, b, path)),
{
    let le = |a: Seq<char>, b: Seq<char>| lex_le(a, b, path);
    lemma_lex_le_total_ordering(path);
    v.lemma_sort_by_ensures(le);
    assert(sorted_by(views_of(r), le)) by {
        assert forall|i: int, j: int| 0 <= i < j < views_of(r).len() implies le(views_of(r)[i], views_of(r)[j]) by {
            assert(views_of(r)[i] == r[i]@);
            assert(views_of(r)[j] == r[j]@);
            assert((|a: String, b: String| lex_le(a@, b@, path))(r[i], r[j]));
        }
    }
    vstd::seq_lib::lemma_sorted_unique(views_of(r), v.sort_by(le), le);
}

} // verus!
