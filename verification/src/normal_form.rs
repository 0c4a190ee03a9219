//! Lexical normalisation reaches a normal form: its segments are clean and
//! normalising again changes nothing.

use vstd::prelude::*;
use crate::paths::{split_char, norm_step, norm_segments, join_segments, path_segments, normalize};

verus! {

/// A segment that normalisation keeps as it is: not empty, not `.` or `..`,
/// and without a `/`.
pub open spec fn clean_segment(seg: Seq<char>) -> bool {
    &&& seg.len() > 0
    &&& seg != seq!['.']
    &&& seg != seq!['.', '.']
    &&& !seg.contains('/')
}

/// Every segment is clean.
pub open spec fn clean_segments(segs: Seq<Seq<char>>) -> bool {
    forall|i: int| 0 <= i < segs.len() ==> #[trigger] clean_segment(segs[i])
}

proof fn lemma_split_parts(s: Seq<char>, c: char)
    ensures
        split_char(s, c).len() >= 1,
        forall|i: int| 0 <= i < split_char(s, c).len() ==> !(#[trigger] split_char(s, c)[i]).contains(c),
    decreases s.len(),
{
    if s.len() > 0 {
        lemma_split_parts(s.drop_last(), c);
        let prev = split_char(s.drop_last(), c);
        if s.last() != c {
            let last = prev.last().push(s.last());
            assert forall|k: int| 0 <= k < last.len() implies last[k] != c by {
                if k < prev.last().len() {
                    assert(prev.last()[k] == last[k]);
                    assert(!prev[prev.len() - 1].contains(c));
                }
            }
        }
        assert forall|i: int| 0 <= i < split_char(s, c).len() implies !(#[trigger] split_char(s, c)[i]).contains(c) by {
            if i < prev.len() - 1 {
                assert(split_char(s, c)[i] == prev[i]);
            } else if i == prev.len() - 1 && s.last() == c {
                assert(split_char(s, c)[i] == prev[i]);
            }
        }
    }
}

proof fn lemma_norm_clean(segs: Seq<Seq<char>>)
    requires
        forall|i: int| 0 <= i < segs.len() ==> !(#[trigger] segs[i]).contains('/'),
    ensures
        clean_segments(norm_segments(segs)),
    decreases segs.len(),
{
    if segs.len() > 0 {
        let rest = segs.drop_last();
        assert forall|i: int| 0 <= i < rest.len() implies !(#[trigger] rest[i]).contains('/') by {
            assert(rest[i] == segs[i]);
        }
        lemma_norm_clean(rest);
        let stack = norm_segments(rest);
        let seg = segs.last();
        assert(!segs[segs.len() - 1].contains('/'));
        let next = norm_step(stack, seg);
        assert forall|i: int| 0 <= i < next.len() implies #[trigger] clean_segment(next[i]) by {
            if i < stack.len() {
                assert(next[i] == stack[i]);
            }
        }
    }
}

proof fn lemma_norm_of_clean(segs: Seq<Seq<char>>)
    requires
        clean_segments(segs),
    ensures
        norm_segments(segs) == segs,
    decreases segs.len(),
{
    if segs.len() > 0 {
        let rest = segs.drop_last();
        assert forall|i: int| 0 <= i < rest.len() implies #[trigger] clean_segment(rest[i]) by {
            assert(rest[i] == segs[i]);
        }
        lemma_norm_of_clean(rest);
        assert(clean_segment(segs[segs.len() - 1]));
        assert(rest.push(segs.last()) =~= segs);
    }
}

proof fn lemma_norm_skips_empty_first(segs: Seq<Seq<char>>)
    ensures
        norm_segments(seq![Seq::<char>::empty()] + segs) == norm_segments(segs),
    decreases segs.len(),
{
    let whole = seq![Seq::<char>::empty()] + segs;
    if segs.len() == 0 {
        assert(whole.drop_last() =~= Seq::<Seq<char>>::empty());
        assert(whole.last() =~= Seq::<char>::empty());
        assert(norm_segments(whole.drop_last()) =~= Seq::<Seq<char>>::empty());
    } else {
        lemma_norm_skips_empty_first(segs.drop_last());
        assert(whole.drop_last() =~= seq![Seq::<char>::empty()] + segs.drop_last());
        assert(whole.last() == segs.last());
    }
}

proof fn lemma_split_single(s: Seq<char>, c: char)
    requires
        !s.contains(c),
    ensures
        split_char(s, c) == seq![s],
    decreases s.len(),
{
    if s.len() > 0 {
        assert(!s.drop_last().contains(c)) by {
            if s.drop_last().contains(c) {
                let k = choose|k: int| 0 <= k < s.drop_last().len() && s.drop_last()[k] == c;
                assert(s[k] == c);
            }
        }
        lemma_split_single(s.drop_last(), c);
        assert(s[s.len() - 1] != c);
        assert(s.drop_last().push(s.last()) =~= s);
        let prev = split_char(s.drop_last(), c);
        assert(split_char(s, c) == prev.update(prev.len() - 1, prev.last().push(s.last())));
        assert(prev.update(prev.len() - 1, prev.last().push(s.last())) =~= seq![s]);
    } else {
        assert(s =~= Seq::<char>::empty());
    }
}

proof fn lemma_split_concat(x: Seq<char>, y: Seq<char>, c: char)
    ensures
        split_char(x.push(c) + y, c) == split_char(x, c) + split_char(y, c),
    decreases y.len(),
{
    let z = x.push(c) + y;
    if y.len() == 0 {
        assert(z =~= x.push(c));
        assert(z.drop_last() =~= x);
        assert(split_char(z, c) =~= split_char(x, c) + split_char(y, c));
    } else {
        lemma_split_concat(x, y.drop_last(), c);
        lemma_split_parts(y.drop_last(), c);
        assert(z.drop_last() =~= x.push(c) + y.drop_last());
        assert(z.last() == y.last());
        let a = split_char(x, c);
        let b = split_char(y.drop_last(), c);
        if y.last() == c {
            assert((a + b).push(Seq::<char>::empty()) =~= a + b.push(Seq::<char>::empty()));
        } else {
            let prev = a + b;
            assert(prev.last() == b.last());
            assert(prev.update(prev.len() - 1, prev.last().push(y.last())) =~= a + b.update(
                b.len() - 1,
                b.last().push(y.last()),
            ));
        }
    }
}

proof fn lemma_join_front(segs: Seq<Seq<char>>)
    requires
        segs.len() >= 1,
        clean_segments(segs),
    ensures
        join_segments(segs).len() >= 1,
        join_segments(segs)[0] == segs[0][0],
    decreases segs.len(),
{
    assert(clean_segment(segs[0]));
    if segs.len() > 1 {
        let rest = segs.drop_last();
        assert forall|i: int| 0 <= i < rest.len() implies #[trigger] clean_segment(rest[i]) by {
            assert(rest[i] == segs[i]);
        }
        lemma_join_front(rest);
        assert(rest[0] == segs[0]);
    }
}

proof fn lemma_split_join(segs: Seq<Seq<char>>)
    requires
        segs.len() >= 1,
        clean_segments(segs),
    ensures
        split_char(join_segments(segs), '/') == segs,
    decreases segs.len(),
{
    assert(clean_segment(segs[segs.len() - 1]));
    if segs.len() == 1 {
        assert(clean_segment(segs[0]));
        lemma_split_single(segs[0], '/');
        assert(seq![segs[0]] =~= segs);
    } else {
        let rest = segs.drop_last();
        assert forall|i: int| 0 <= i < rest.len() implies #[trigger] clean_segment(rest[i]) by {
            assert(rest[i] == segs[i]);
        }
        lemma_split_join(rest);
        lemma_split_concat(join_segments(rest), segs.last(), '/');
        lemma_split_single(segs.last(), '/');
        assert(rest + seq![segs.last()] =~= segs);
    }
}

/// The segments of a normalised path are clean: none is empty, `.` or `..`,
/// and none holds a `/`.
pub proof fn law_normal_segments_clean(p: Seq<char>)
    ensures
        clean_segments(path_segments(p)),
{
    lemma_split_parts(p, '/');
    lemma_norm_clean(split_char(p, '/'));
}

/// Normalising a normalised path gives it back unchanged.
pub proof fn law_normalize_idempotent(p: Seq<char>)
    ensures
        normalize(normalize(p)) == normalize(p),
        path_segments(normalize(p)) == path_segments(p),
{
    law_normal_segments_clean(p);
    let segs = path_segments(p);
    let q = normalize(p);
    if segs.len() == 0 {
        assert(join_segments(segs) =~= Seq::<char>::empty());
        if p.len() > 0 && p[0] == '/' {
            assert(q =~= seq!['/']);
            assert(q.drop_last() =~= Seq::<char>::empty());
            reveal_with_fuel(split_char, 2);
            reveal_with_fuel(norm_segments, 3);
            let e = Seq::<char>::empty();
            assert(split_char(q, '/') =~= seq![e, e]);
            assert(seq![e, e].drop_last() =~= seq![e]);
            assert(seq![e].drop_last() =~= Seq::<Seq<char>>::empty());
            assert(path_segments(q) =~= segs);
        } else {
            assert(q =~= Seq::<char>::empty());
            reveal_with_fuel(norm_segments, 2);
            let e = Seq::<char>::empty();
            assert(split_char(q, '/') =~= seq![e]);
            assert(seq![e].drop_last() =~= Seq::<Seq<char>>::empty());
            assert(path_segments(q) =~= segs);
        }
    } else {
        lemma_split_join(segs);
        lemma_norm_of_clean(segs);
        if p.len() > 0 && p[0] == '/' {
            assert(q =~= Seq::<char>::empty().push('/') + join_segments(segs));
            lemma_split_concat(Seq::<char>::empty(), join_segments(segs), '/');
            assert(split_char(Seq::<char>::empty(), '/') == seq![Seq::<char>::empty()]);
            lemma_norm_skips_empty_first(segs);
            assert(path_segments(q) == segs);
        } else {
            lemma_join_front(segs);
            assert(clean_segment(segs[0]));
            assert(segs[0][0] != '/') by {
                assert(!segs[0].contains('/'));
            }
            assert(path_segments(q) == segs);
        }
    }
}

} // verus!
