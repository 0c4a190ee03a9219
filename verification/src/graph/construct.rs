//! Construction of the file and module dependency graphs.

use vstd::prelude::*;
use vstd::relations::sorted_by;
use crate::order::{compare_str, lemma_lex_lt_asym, lemma_lex_lt_total, lemma_lex_lt_trans, lex_lt, stable_sort, total_preorder, views_of};
use crate::repo::models::Module;
use crate::text::{chars_of, push_str_chars, string_from_chars};

verus! {

/// The identifier of a module: its name, prefixed by `root:` when the root
/// is not empty.
pub open spec fn module_id_spec(root: Seq<char>, name: Seq<char>) -> Seq<char> {
    if root.len() == 0 {
        name
    } else {
        root + ":"@ + name
    }
}

/// The identifier of a module.
pub fn module_id(root: &str, name: &str) -> (r: String)
    ensures
        r@ == module_id_spec(root@, name@),
{
    let rv = chars_of(root);
    if rv.len() == 0 {
        let nv = chars_of(name);
        return string_from_chars(nv.as_slice());
    }
    let mut v: Vec<char> = Vec::new();
    push_str_chars(&mut v, root);
    push_str_chars(&mut v, ":");
    push_str_chars(&mut v, name);
    assert(v@ =~= module_id_spec(root@, name@));
    string_from_chars(v.as_slice())
}

/// The rank of a module kind in declaration order.
pub open spec fn module_kind_rank(k: crate::repo::models::ModuleKind) -> int {
    match k {
        crate::repo::models::ModuleKind::Feature => 0,
        crate::repo::models::ModuleKind::Layer => 1,
        crate::repo::models::ModuleKind::Package => 2,
    }
}

/// Strict order of modules by root, then name, then kind.
pub open spec fn module_lt(a: Module, b: Module) -> bool {
    lex_lt(a.root@, b.root@, false) || (a.root@ == b.root@ && (lex_lt(a.name@, b.name@, false) || (a.name@
        == b.name@ && module_kind_rank(a.kind) < module_kind_rank(b.kind))))
}

/// Modules ordered by root, then name, then kind.
pub open spec fn module_le(a: Module, b: Module) -> bool {
    !module_lt(b, a)
}

proof fn lemma_module_le_preorder()
    ensures
        total_preorder(|a: Module, b: Module| module_le(a, b)),
{
    let le = |a: Module, b: Module| module_le(a, b);
    assert forall|a: Module, b: Module| #[trigger] le(a, b) || #[trigger] le(b, a) by {
        lemma_lex_lt_asym(a.root@, b.root@, false);
        lemma_lex_lt_asym(a.name@, b.name@, false);
    }
    assert forall|a: Module, b: Module, c: Module| #[trigger] le(a, b) && #[trigger] le(b, c) implies le(a, c) by {
        lemma_lex_lt_total(a.root@, b.root@, false);
        lemma_lex_lt_total(b.root@, c.root@, false);
        lemma_lex_lt_total(a.root@, c.root@, false);
        lemma_lex_lt_total(a.name@, b.name@, false);
        lemma_lex_lt_total(b.name@, c.name@, false);
        lemma_lex_lt_total(a.name@, c.name@, false);
        lemma_lex_lt_asym(a.root@, c.root@, false);
        lemma_lex_lt_asym(a.name@, c.name@, false);
        if lex_lt(c.root@, a.root@, false) {
            if b.root@ != c.root@ && a.root@ != b.root@ {
                lemma_lex_lt_trans(c.root@, a.root@, b.root@, false);
            }
        }
        if c.root@ == a.root@ && lex_lt(c.name@, a.name@, false) {
            if b.name@ != c.name@ && a.name@ != b.name@ {
                lemma_lex_lt_trans(c.name@, a.name@, b.name@, false);
            }
        }
    }
}

/// Compares two modules by root, then name, then kind.
fn module_before(a: &Module, b: &Module) -> (r: bool)
    ensures
        r == module_le(*a, *b),
{
    let c = compare_str(b.root.as_str(), a.root.as_str(), false);
    if c != 0 {
        return c == 1;
    }
    let d = compare_str(b.name.as_str(), a.name.as_str(), false);
    if d != 0 {
        return d == 1;
    }
    let rb: u8 = match b.kind {
        crate::repo::models::ModuleKind::Feature => 0,
        crate::repo::models::ModuleKind::Layer => 1,
        crate::repo::models::ModuleKind::Package => 2,
    };
    let ra: u8 = match a.kind {
        crate::repo::models::ModuleKind::Feature => 0,
        crate::repo::models::ModuleKind::Layer => 1,
        crate::repo::models::ModuleKind::Package => 2,
    };
    !(rb < ra)
}

/// The modules, in the (stable) order of root, name and kind.
pub fn sorted_modules<'a>(modules: &'a Vec<Module>) -> (r: Vec<&'a Module>)
    ensures
        r@.map_values(|m: &Module| *m).to_multiset() == modules@.to_multiset(),
        modules_sorted(r@.map_values(|m: &Module| *m)),
{
    let mut refs: Vec<&Module> = Vec::new();
    let mut i: usize = 0;
    while i < modules.len()
        invariant
            i <= modules.len(),
            refs@.len() == i,
            forall|k: int| 0 <= k < i ==> *#[trigger] refs@[k] == modules@[k],
        decreases modules.len() - i,
    {
        refs.push(&modules[i]);
        i = i + 1;
    }
    let ghost f = |m: &Module| *m;
    assert(refs@.map_values(f) =~= modules@);
    let ghost le = |a: &Module, b: &Module| module_le(*a, *b);
    proof {
        lemma_module_le_preorder();
        let mle = |a: Module, b: Module| module_le(a, b);
        assert forall|a: &Module, b: &Module| #[trigger] le(a, b) || #[trigger] le(b, a) by {
            assert(mle(*a, *b) || mle(*b, *a));
        }
        assert forall|a: &Module, b: &Module, c: &Module| #[trigger] le(a, b) && #[trigger] le(b, c) implies le(a, c) by {
            assert(mle(*a, *b) && mle(*b, *c) ==> mle(*a, *c));
        }
    }
    let before = |a: &&Module, b: &&Module| -> (o: bool)
        ensures
            o == module_le(**a, **b),
        { module_before(*a, *b) };
    let ghost unsorted = refs@;
    let r = stable_sort(refs, &before, Ghost(le));
    proof {
        crate::repo::scan::lemma_map_multiset(unsorted, r@, f);
        assert forall|x: int, y: int| 0 <= x < y < r@.map_values(f).len() implies module_le(
            r@.map_values(f)[x],
            r@.map_values(f)[y],
        ) by {
            assert(le(r@[x], r@[y]));
        }
    }
    r
}

/// Whether modules are in order of root, name and kind.
pub open spec fn modules_sorted(sm: Seq<Module>) -> bool {
    sorted_by(sm, |a: Module, b: Module| module_le(a, b))
}

/// The identifier of the first module of `ms` that lists file `f`.
pub open spec fn first_owner(ms: Seq<Module>, f: Seq<char>) -> Option<Seq<char>>
    decreases ms.len(),
{
    if ms.len() == 0 {
        None
    } else if views_of(ms[0].files@).contains(f) {
        Some(module_id_spec(ms[0].root@, ms[0].name@))
    } else {
        first_owner(ms.drop_first(), f)
    }
}

proof fn lemma_first_owner_push(ms: Seq<Module>, m: Module, f: Seq<char>)
    ensures
        first_owner(ms.push(m), f) == (match first_owner(ms, f) {
            Some(x) => Some(x),
            None => if views_of(m.files@).contains(f) {
                Some(module_id_spec(m.root@, m.name@))
            } else {
                None
            },
        }),
    decreases ms.len(),
{
    if ms.len() > 0 {
        assert(ms.push(m)[0] == ms[0]);
        assert(ms.push(m).drop_first() =~= ms.drop_first().push(m));
        lemma_first_owner_push(ms.drop_first(), m, f);
    } else {
        assert(ms.push(m)[0] == m);
        assert(ms.push(m).drop_first() =~= Seq::<Module>::empty());
        assert(first_owner(ms.push(m).drop_first(), f) is None);
    }
}

/// The value paired with key `f` in an association list (the first pair).
pub open spec fn pair_lookup(ps: Seq<(String, String)>, f: Seq<char>) -> Option<Seq<char>>
    decreases ps.len(),
{
    if ps.len() == 0 {
        None
    } else if ps[0].0@ == f {
        Some(ps[0].1@)
    } else {
        pair_lookup(ps.drop_first(), f)
    }
}

proof fn lemma_pair_lookup_push(ps: Seq<(String, String)>, p: (String, String), f: Seq<char>)
    ensures
        pair_lookup(ps.push(p), f) == (match pair_lookup(ps, f) {
            Some(x) => Some(x),
            None => if p.0@ == f {
                Some(p.1@)
            } else {
                None
            },
        }),
    decreases ps.len(),
{
    if ps.len() > 0 {
        assert(ps.push(p)[0] == ps[0]);
        assert(ps.push(p).drop_first() =~= ps.drop_first().push(p));
        lemma_pair_lookup_push(ps.drop_first(), p, f);
    } else {
        assert(ps.push(p)[0] == p);
        assert(ps.push(p).drop_first() =~= Seq::<(String, String)>::empty());
        assert(pair_lookup(ps.push(p).drop_first(), f) is None);
    }
}

/// The value paired with `f` in an association list.
pub fn lookup_pair(ps: &Vec<(String, String)>, f: &str) -> (r: Option<String>)
    ensures
        match r {
            Some(v) => pair_lookup(ps@, f@) == Some(v@),
            None => pair_lookup(ps@, f@) is None,
        },
{
    let fv = chars_of(f);
    let mut i: usize = 0;
    assert(ps@.skip(0) =~= ps@);
    while i < ps.len()
        invariant
            i <= ps.len(),
            fv@ == f@,
            pair_lookup(ps@, f@) == pair_lookup(ps@.skip(i as int), f@),
        decreases ps.len() - i,
    {
        let k = chars_of(ps[i].0.as_str());
        assert(ps@.skip(i as int).drop_first() =~= ps@.skip(i + 1));
        if crate::text::chars_eq(k.as_slice(), fv.as_slice()) {
            let v = ps[i].1.clone();
            return Some(v);
        }
        i = i + 1;
    }
    None
}

/// Whether `f` is a key of the association list.
pub open spec fn pair_keys(ps: Seq<(String, String)>) -> Seq<Seq<char>> {
    Seq::new(ps.len(), |i: int| ps[i].0@)
}

/// Builds the file-to-module ownership list: modules are taken in order of
/// root, name and kind, and each file belongs to the first module that
/// lists it.
pub fn module_ownership(modules: &Vec<Module>) -> (r: Vec<(String, String)>)
    ensures
        exists|sm: Seq<Module>|
            #![trigger modules_sorted(sm)]
            sm.to_multiset() == modules@.to_multiset() && modules_sorted(sm) && forall|f: Seq<char>|
                pair_lookup(r@, f) == first_owner(sm, f),
        pair_keys(r@).no_duplicates(),
{
    let sorted = sorted_modules(modules);
    let ghost sm = sorted@.map_values(|m: &Module| *m);
    let mut pairs: Vec<(String, String)> = Vec::new();
    let mut k: usize = 0;
    assert(sm.take(0) =~= Seq::<Module>::empty());
    while k < sorted.len()
        invariant
            k <= sorted.len(),
            forall|f: Seq<char>| pair_lookup(pairs@, f) == first_owner(sm.take(k as int), f),
            pair_keys(pairs@).no_duplicates(),
            sm == sorted@.map_values(|m: &Module| *m),
        decreases sorted.len() - k,
    {
        let m: &Module = sorted[k];
        assert(*m == sm[k as int]);
        let id = module_id(m.root.as_str(), m.name.as_str());
        let ghost before = pairs@;
        let mut j: usize = 0;
        while j < m.files.len()
            invariant
                j <= m.files.len(),
                id@ == module_id_spec(m.root@, m.name@),
                pair_keys(pairs@).no_duplicates(),
                forall|f: Seq<char>| pair_lookup(pairs@, f) == (match pair_lookup(before, f) {
                    Some(x) => Some(x),
                    None => if views_of(m.files@).take(j as int).contains(f) {
                        Some(id@)
                    } else {
                        None
                    },
                }),
            decreases m.files.len() - j,
        {
            let f = m.files[j].as_str();
            let found = lookup_pair(&pairs, f);
            proof {
                assert(views_of(m.files@).take(j + 1) =~= views_of(m.files@).take(j as int).push(f@));
            }
            if found.is_none() {
                let ghost old_pairs = pairs@;
                let p = (m.files[j].clone(), id.clone());
                pairs.push(p);
                proof {
                    assert forall|g: Seq<char>| pair_lookup(pairs@, g) == (match pair_lookup(before, g) {
                        Some(x) => Some(x),
                        None => if views_of(m.files@).take(j + 1).contains(g) {
                            Some(id@)
                        } else {
                            None
                        },
                    }) by {
                        lemma_pair_lookup_push(old_pairs, p, g);
                        let tj = views_of(m.files@).take(j as int);
                        let tj1 = views_of(m.files@).take(j + 1);
                        assert(pair_lookup(old_pairs, g) == (match pair_lookup(before, g) {
                            Some(x) => Some(x),
                            None => if tj.contains(g) {
                                Some(id@)
                            } else {
                                None
                            },
                        }));
                        if tj.contains(g) {
                            let q = choose|q: int| 0 <= q < tj.len() && tj[q] == g;
                            assert(tj1[q] == g);
                        }
                        if tj1.contains(g) && !tj.contains(g) {
                            assert(g == f@);
                        }
                        assert(p.0@ == f@);
                        assert(p.1@ == id@);
                        assert(tj1[j as int] == f@);
                        assert(pairs@ == old_pairs.push(p));
                        assert(pair_lookup(pairs@, g) == (match pair_lookup(old_pairs, g) {
                            Some(x) => Some(x),
                            None => if p.0@ == g {
                                Some(p.1@)
                            } else {
                                None
                            },
                        }));
                    }
                    assert(pair_keys(pairs@) =~= pair_keys(old_pairs).push(f@));
                    assert forall|a: int| 0 <= a < pair_keys(old_pairs).len() implies pair_keys(old_pairs)[a] != f@ by {
                        if pair_keys(old_pairs)[a] == f@ {
                            lemma_pair_lookup_some(old_pairs, a);
                        }
                    }
                }
            } else {
                proof {
                    assert forall|g: Seq<char>| pair_lookup(pairs@, g) == (match pair_lookup(before, g) {
                        Some(x) => Some(x),
                        None => if views_of(m.files@).take(j + 1).contains(g) {
                            Some(id@)
                        } else {
                            None
                        },
                    }) by {
                        let tj = views_of(m.files@).take(j as int);
                        let tj1 = views_of(m.files@).take(j + 1);
                        if tj.contains(g) {
                            let q = choose|q: int| 0 <= q < tj.len() && tj[q] == g;
                            assert(tj1[q] == g);
                        }
                        assert(pair_lookup(pairs@, g) == (match pair_lookup(before, g) {
                            Some(x) => Some(x),
                            None => if tj.contains(g) {
                                Some(id@)
                            } else {
                                None
                            },
                        }));
                        if tj1.contains(g) && !tj.contains(g) {
                            assert(g == f@);
                        }
                    }
                }
            }
            j = j + 1;
        }
        proof {
            assert(views_of(m.files@).take(m.files@.len() as int) =~= views_of(m.files@));
            assert(sm.take(k + 1) =~= sm.take(k as int).push(sm[k as int]));
            assert forall|f: Seq<char>| pair_lookup(pairs@, f) == first_owner(sm.take(k + 1), f) by {
                lemma_first_owner_push(sm.take(k as int), sm[k as int], f);
            }
        }
        k = k + 1;
    }
    assert(sm.take(sm.len() as int) =~= sm);
    assert(modules_sorted(sm));
    pairs
}

proof fn lemma_pair_lookup_some(ps: Seq<(String, String)>, a: int)
    requires
        0 <= a < ps.len(),
    ensures
        pair_lookup(ps, ps[a].0@) is Some,
    decreases ps.len(),
{
    if a > 0 && ps[0].0@ != ps[a].0@ {
        assert(ps.drop_first()[a - 1] == ps[a]);
        lemma_pair_lookup_some(ps.drop_first(), a - 1);
    }
}

} // verus!
