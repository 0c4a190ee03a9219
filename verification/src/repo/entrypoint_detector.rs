//! Entry point detection.
//!
//! Probable application entry points are derived from well-known file
//! layouts inside each detected project root, plus the explicit `main`/`bin`
//! fields of `package.json`. Every candidate carries a confidence, in
//! millionths.

use vstd::prelude::*;
use crate::json::{JsonValue, as_str_spec, get_spec, json_as_str, json_get, json_parse, parse_json};
use crate::order::{compare_str, lex_lt, lemma_lex_lt_asym, lemma_lex_lt_total, lemma_lex_lt_trans, views_of};
use crate::paths::{
    extension_chars, extension_of, file_name_chars, file_name_of, join_chars, normalize, parent_chars, parent_of,
    path_join, path_starts_with, slashes, starts_with_path, with_extension, with_extension_chars,
};
use crate::repo::models::{EntryPoint, ScanResult, rels};
use crate::text::{chars_of, str_views, string_from_chars, to_owned_string};

verus! {

/// An entry point as (path, confidence in millionths, heuristic).
pub type Entry = (Seq<char>, u64, Seq<char>);

/// Rooted layout rules: path relative to a project root, confidence in
/// millionths and heuristic label.
pub open spec fn rooted_rules() -> Seq<Entry> {
    seq![
        ("src/main.rs"@, 980000u64, "rust_binary_main"@),
        ("src/lib.rs"@, 950000u64, "rust_library_crate"@),
        ("main.rs"@, 850000u64, "rust_main"@),
        ("src/main.ts"@, 900000u64, "node_main"@),
        ("src/main.tsx"@, 900000u64, "node_main"@),
        ("src/main.js"@, 900000u64, "node_main"@),
        ("src/main.mjs"@, 900000u64, "node_main"@),
        ("main.ts"@, 850000u64, "node_root_main"@),
        ("main.js"@, 850000u64, "node_root_main"@),
        ("main.mjs"@, 850000u64, "node_root_main"@),
        ("src/server.ts"@, 880000u64, "node_server"@),
        ("src/server.js"@, 880000u64, "node_server"@),
        ("server.ts"@, 850000u64, "node_root_server"@),
        ("server.js"@, 850000u64, "node_root_server"@),
        ("src/index.ts"@, 850000u64, "node_src_index"@),
        ("src/index.js"@, 850000u64, "node_src_index"@),
        ("index.ts"@, 800000u64, "node_index"@),
        ("index.js"@, 800000u64, "node_index"@),
        ("index.mjs"@, 800000u64, "node_index"@),
        ("app.ts"@, 750000u64, "node_app"@),
        ("app.js"@, 750000u64, "node_app"@),
        ("cli.ts"@, 700000u64, "node_cli"@),
        ("cli.js"@, 700000u64, "node_cli"@),
        ("src/app/page.tsx"@, 850000u64, "next_app_page"@),
        ("src/app/page.jsx"@, 850000u64, "next_app_page"@),
        ("src/extension.ts"@, 850000u64, "vscode_extension_main"@),
        ("main.py"@, 920000u64, "python_main"@),
        ("src/main.py"@, 900000u64, "python_src_main"@),
        ("app/main.py"@, 880000u64, "python_app_main"@),
        ("manage.py"@, 900000u64, "django_manage"@),
        ("app.py"@, 850000u64, "python_app"@),
        ("__main__.py"@, 900000u64, "python_package_main"@),
        ("cli.py"@, 700000u64, "python_cli"@),
        ("wsgi.py"@, 800000u64, "python_wsgi"@),
        ("asgi.py"@, 800000u64, "python_asgi"@),
        ("main.go"@, 800000u64, "go_main"@),
    ]
}

fn rooted_rule_list() -> (r: Vec<(&'static str, u64, &'static str)>)
    ensures
        r@.map_values(|x: (&'static str, u64, &'static str)| (x.0@, x.1, x.2@)) == rooted_rules(),
{
    let r = vec![
        ("src/main.rs", 980000u64, "rust_binary_main"),
        ("src/lib.rs", 950000u64, "rust_library_crate"),
        ("main.rs", 850000u64, "rust_main"),
        ("src/main.ts", 900000u64, "node_main"),
        ("src/main.tsx", 900000u64, "node_main"),
        ("src/main.js", 900000u64, "node_main"),
        ("src/main.mjs", 900000u64, "node_main"),
        ("main.ts", 850000u64, "node_root_main"),
        ("main.js", 850000u64, "node_root_main"),
        ("main.mjs", 850000u64, "node_root_main"),
        ("src/server.ts", 880000u64, "node_server"),
        ("src/server.js", 880000u64, "node_server"),
        ("server.ts", 850000u64, "node_root_server"),
        ("server.js", 850000u64, "node_root_server"),
        ("src/index.ts", 850000u64, "node_src_index"),
        ("src/index.js", 850000u64, "node_src_index"),
        ("index.ts", 800000u64, "node_index"),
        ("index.js", 800000u64, "node_index"),
        ("index.mjs", 800000u64, "node_index"),
        ("app.ts", 750000u64, "node_app"),
        ("app.js", 750000u64, "node_app"),
        ("cli.ts", 700000u64, "node_cli"),
        ("cli.js", 700000u64, "node_cli"),
        ("src/app/page.tsx", 850000u64, "next_app_page"),
        ("src/app/page.jsx", 850000u64, "next_app_page"),
        ("src/extension.ts", 850000u64, "vscode_extension_main"),
        ("main.py", 920000u64, "python_main"),
        ("src/main.py", 900000u64, "python_src_main"),
        ("app/main.py", 880000u64, "python_app_main"),
        ("manage.py", 900000u64, "django_manage"),
        ("app.py", 850000u64, "python_app"),
        ("__main__.py", 900000u64, "python_package_main"),
        ("cli.py", 700000u64, "python_cli"),
        ("wsgi.py", 800000u64, "python_wsgi"),
        ("asgi.py", 800000u64, "python_asgi"),
        ("main.go", 800000u64, "go_main"),
    ];
    assert(r@.map_values(|x: (&'static str, u64, &'static str)| (x.0@, x.1, x.2@)) =~= rooted_rules());
    r
}

proof fn lemma_root_in_roots(rs: Seq<Seq<char>>, roots: Seq<Seq<char>>, i: int, e: Entry)
    requires
        0 <= i < roots.len(),
        root_entries(rs, roots[i]).contains(e),
    ensures
        roots_entries(rs, roots).contains(e),
    decreases roots.len(),
{
    let d = roots.drop_last();
    let a = roots_entries(rs, d);
    let b = root_entries(rs, roots.last());
    assert(roots_entries(rs, roots) == a + b);
    if i == roots.len() - 1 {
        let k = choose|k: int| 0 <= k < b.len() && b[k] == e;
        assert((a + b)[a.len() + k] == e);
    } else {
        assert(d[i] == roots[i]);
        lemma_root_in_roots(rs, d, i, e);
        let k = choose|k: int| 0 <= k < a.len() && a[k] == e;
        assert((a + b)[k] == e);
    }
}

proof fn lemma_rule_found(
    rs: Seq<Seq<char>>,
    roots: Seq<Seq<char>>,
    pkgs: Seq<(String, String)>,
    r: Seq<Entry>,
    i: int,
    k: int,
)
    requires
        r.to_set() == (roots_entries(rs, roots) + packages_entries(rs, pkgs)).to_set(),
        0 <= i < roots.len(),
        0 <= k < rooted_rules().len(),
        rs.contains(path_join(roots[i], rooted_rules()[k].0)),
    ensures
        r.contains((slashes(path_join(roots[i], rooted_rules()[k].0)), rooted_rules()[k].1, rooted_rules()[k].2)),
{
    let root = roots[i];
    let pred = |q: Entry| rs.contains(path_join(root, q.0));
    let f = |q: Entry| (slashes(path_join(root, q.0)), q.1, q.2);
    let rr = rooted_rules();
    rr.lemma_filter_contains(pred, k);
    let c = rr.filter(pred);
    let j = choose|j: int| 0 <= j < c.len() && c[j] == rr[k];
    let cm = c.map_values(f);
    assert(cm[j] == f(rr[k]));
    let a = rs.filter(|x: Seq<char>| bin_target(root, x)).map_values(|x: Seq<char>| (slashes(x), 850000u64, "rust_bin_target"@));
    let b = rs.filter(|x: Seq<char>| go_command(root, x)).map_values(|x: Seq<char>| (slashes(x), 850000u64, "go_command_main"@));
    assert(root_entries(rs, root) == a + b + cm);
    assert((a + b + cm)[(a + b).len() + j] == f(rr[k]));
    assert(root_entries(rs, root).contains(f(rr[k])));
    lemma_root_in_roots(rs, roots, i, f(rr[k]));
    let re = roots_entries(rs, roots);
    let pe = packages_entries(rs, pkgs);
    let q = choose|q: int| 0 <= q < re.len() && re[q] == f(rr[k]);
    assert((re + pe)[q] == f(rr[k]));
    assert((re + pe).to_set().contains(f(rr[k])));
}

proof fn lemma_rule_at(
    rs: Seq<Seq<char>>,
    roots: Seq<Seq<char>>,
    pkgs: Seq<(String, String)>,
    r: Seq<Entry>,
    k: int,
)
    requires
        r.to_set() == (roots_entries(rs, roots) + packages_entries(rs, pkgs)).to_set(),
        0 <= k < rooted_rules().len(),
    ensures
        forall|i: int|
            0 <= i < roots.len() && rs.contains(path_join(#[trigger] roots[i], rooted_rules()[k].0)) ==> r.contains(
                (slashes(path_join(roots[i], rooted_rules()[k].0)), rooted_rules()[k].1, rooted_rules()[k].2),
            ),
{
    assert forall|i: int|
        0 <= i < roots.len() && rs.contains(path_join(#[trigger] roots[i], rooted_rules()[k].0)) implies r.contains(
            (slashes(path_join(roots[i], rooted_rules()[k].0)), rooted_rules()[k].1, rooted_rules()[k].2),
        ) by {
        lemma_rule_found(rs, roots, pkgs, r, i, k);
    }
}

/// Every layout rule is applied at every project root: when the root holds
/// the file a rule names, an entry point at that file is found with the
/// rule's confidence (in millionths) and heuristic, e.g. `main.go` with
/// 800000 and `go_main`.
#[verifier::rlimit(100)]
pub proof fn law_rooted_layout(
    rs: Seq<Seq<char>>,
    roots: Seq<Seq<char>>,
    pkgs: Seq<(String, String)>,
    r: Seq<Entry>,
)
    requires
        r.to_set() == (roots_entries(rs, roots) + packages_entries(rs, pkgs)).to_set(),
    ensures
        forall|i: int|
            0 <= i < roots.len() && rs.contains(path_join(#[trigger] roots[i], "src/main.rs"@)) ==> r.contains(
                (slashes(path_join(roots[i], "src/main.rs"@)), 980000u64, "rust_binary_main"@),
            ),
        forall|i: int|
            0 <= i < roots.len() && rs.contains(path_join(#[trigger] roots[i], "src/lib.rs"@)) ==> r.contains(
                (slashes(path_join(roots[i], "src/lib.rs"@)), 950000u64, "rust_library_crate"@),
            ),
        forall|i: int|
            0 <= i < roots.len() && rs.contains(path_join(#[trigger] roots[i], "main.rs"@)) ==> r.contains(
                (slashes(path_join(roots[i], "main.rs"@)), 850000u64, "rust_main"@),
            ),
        forall|i: int|
            0 <= i < roots.len() && rs.contains(path_join(#[trigger] roots[i], "src/main.ts"@)) ==> r.contains(
                (slashes(path_join(roots[i], "src/main.ts"@)), 900000u64, "node_main"@),
            ),
        forall|i: int|
            0 <= i < roots.len() && rs.contains(path_join(#[trigger] roots[i], "src/main.tsx"@)) ==> r.contains(
                (slashes(path_join(roots[i], "src/main.tsx"@)), 900000u64, "node_main"@),
            ),
        forall|i: int|
            0 <= i < roots.len() && rs.contains(path_join(#[trigger] roots[i], "src/main.js"@)) ==> r.contains(
                (slashes(path_join(roots[i], "src/main.js"@)), 900000u64, "node_main"@),
            ),
        forall|i: int|
            0 <= i < roots.len() && rs.contains(path_join(#[trigger] roots[i], "src/main.mjs"@)) ==> r.contains(
                (slashes(path_join(roots[i], "src/main.mjs"@)), 900000u64, "node_main"@),
            ),
        forall|i: int|
            0 <= i < roots.len() && rs.contains(path_join(#[trigger] roots[i], "main.ts"@)) ==> r.contains(
                (slashes(path_join(roots[i], "main.ts"@)), 850000u64, "node_root_main"@),
            ),
        forall|i: int|
            0 <= i < roots.len() && rs.contains(path_join(#[trigger] roots[i], "main.js"@)) ==> r.contains(
                (slashes(path_join(roots[i], "main.js"@)), 850000u64, "node_root_main"@),
            ),
        forall|i: int|
            0 <= i < roots.len() && rs.contains(path_join(#[trigger] roots[i], "main.mjs"@)) ==> r.contains(
                (slashes(path_join(roots[i], "main.mjs"@)), 850000u64, "node_root_main"@),
            ),
        forall|i: int|
            0 <= i < roots.len() && rs.contains(path_join(#[trigger] roots[i], "src/server.ts"@)) ==> r.contains(
                (slashes(path_join(roots[i], "src/server.ts"@)), 880000u64, "node_server"@),
            ),
        forall|i: int|
            0 <= i < roots.len() && rs.contains(path_join(#[trigger] roots[i], "src/server.js"@)) ==> r.contains(
                (slashes(path_join(roots[i], "src/server.js"@)), 880000u64, "node_server"@),
            ),
        forall|i: int|
            0 <= i < roots.len() && rs.contains(path_join(#[trigger] roots[i], "server.ts"@)) ==> r.contains(
                (slashes(path_join(roots[i], "server.ts"@)), 850000u64, "node_root_server"@),
            ),
        forall|i: int|
            0 <= i < roots.len() && rs.contains(path_join(#[trigger] roots[i], "server.js"@)) ==> r.contains(
                (slashes(path_join(roots[i], "server.js"@)), 850000u64, "node_root_server"@),
            ),
        forall|i: int|
            0 <= i < roots.len() && rs.contains(path_join(#[trigger] roots[i], "src/index.ts"@)) ==> r.contains(
                (slashes(path_join(roots[i], "src/index.ts"@)), 850000u64, "node_src_index"@),
            ),
        forall|i: int|
            0 <= i < roots.len() && rs.contains(path_join(#[trigger] roots[i], "src/index.js"@)) ==> r.contains(
                (slashes(path_join(roots[i], "src/index.js"@)), 850000u64, "node_src_index"@),
            ),
        forall|i: int|
            0 <= i < roots.len() && rs.contains(path_join(#[trigger] roots[i], "index.ts"@)) ==> r.contains(
                (slashes(path_join(roots[i], "index.ts"@)), 800000u64, "node_index"@),
            ),
        forall|i: int|
            0 <= i < roots.len() && rs.contains(path_join(#[trigger] roots[i], "index.js"@)) ==> r.contains(
                (slashes(path_join(roots[i], "index.js"@)), 800000u64, "node_index"@),
            ),
        forall|i: int|
            0 <= i < roots.len() && rs.contains(path_join(#[trigger] roots[i], "index.mjs"@)) ==> r.contains(
                (slashes(path_join(roots[i], "index.mjs"@)), 800000u64, "node_index"@),
            ),
        forall|i: int|
            0 <= i < roots.len() && rs.contains(path_join(#[trigger] roots[i], "app.ts"@)) ==> r.contains(
                (slashes(path_join(roots[i], "app.ts"@)), 750000u64, "node_app"@),
            ),
        forall|i: int|
            0 <= i < roots.len() && rs.contains(path_join(#[trigger] roots[i], "app.js"@)) ==> r.contains(
                (slashes(path_join(roots[i], "app.js"@)), 750000u64, "node_app"@),
            ),
        forall|i: int|
            0 <= i < roots.len() && rs.contains(path_join(#[trigger] roots[i], "cli.ts"@)) ==> r.contains(
                (slashes(path_join(roots[i], "cli.ts"@)), 700000u64, "node_cli"@),
            ),
        forall|i: int|
            0 <= i < roots.len() && rs.contains(path_join(#[trigger] roots[i], "cli.js"@)) ==> r.contains(
                (slashes(path_join(roots[i], "cli.js"@)), 700000u64, "node_cli"@),
            ),
        forall|i: int|
            0 <= i < roots.len() && rs.contains(path_join(#[trigger] roots[i], "src/app/page.tsx"@)) ==> r.contains(
                (slashes(path_join(roots[i], "src/app/page.tsx"@)), 850000u64, "next_app_page"@),
            ),
        forall|i: int|
            0 <= i < roots.len() && rs.contains(path_join(#[trigger] roots[i], "src/app/page.jsx"@)) ==> r.contains(
                (slashes(path_join(roots[i], "src/app/page.jsx"@)), 850000u64, "next_app_page"@),
            ),
        forall|i: int|
            0 <= i < roots.len() && rs.contains(path_join(#[trigger] roots[i], "src/extension.ts"@)) ==> r.contains(
                (slashes(path_join(roots[i], "src/extension.ts"@)), 850000u64, "vscode_extension_main"@),
            ),
        forall|i: int|
            0 <= i < roots.len() && rs.contains(path_join(#[trigger] roots[i], "main.py"@)) ==> r.contains(
                (slashes(path_join(roots[i], "main.py"@)), 920000u64, "python_main"@),
            ),
        forall|i: int|
            0 <= i < roots.len() && rs.contains(path_join(#[trigger] roots[i], "src/main.py"@)) ==> r.contains(
                (slashes(path_join(roots[i], "src/main.py"@)), 900000u64, "python_src_main"@),
            ),
        forall|i: int|
            0 <= i < roots.len() && rs.contains(path_join(#[trigger] roots[i], "app/main.py"@)) ==> r.contains(
                (slashes(path_join(roots[i], "app/main.py"@)), 880000u64, "python_app_main"@),
            ),
        forall|i: int|
            0 <= i < roots.len() && rs.contains(path_join(#[trigger] roots[i], "manage.py"@)) ==> r.contains(
                (slashes(path_join(roots[i], "manage.py"@)), 900000u64, "django_manage"@),
            ),
        forall|i: int|
            0 <= i < roots.len() && rs.contains(path_join(#[trigger] roots[i], "app.py"@)) ==> r.contains(
                (slashes(path_join(roots[i], "app.py"@)), 850000u64, "python_app"@),
            ),
        forall|i: int|
            0 <= i < roots.len() && rs.contains(path_join(#[trigger] roots[i], "__main__.py"@)) ==> r.contains(
                (slashes(path_join(roots[i], "__main__.py"@)), 900000u64, "python_package_main"@),
            ),
        forall|i: int|
            0 <= i < roots.len() && rs.contains(path_join(#[trigger] roots[i], "cli.py"@)) ==> r.contains(
                (slashes(path_join(roots[i], "cli.py"@)), 700000u64, "python_cli"@),
            ),
        forall|i: int|
            0 <= i < roots.len() && rs.contains(path_join(#[trigger] roots[i], "wsgi.py"@)) ==> r.contains(
                (slashes(path_join(roots[i], "wsgi.py"@)), 800000u64, "python_wsgi"@),
            ),
        forall|i: int|
            0 <= i < roots.len() && rs.contains(path_join(#[trigger] roots[i], "asgi.py"@)) ==> r.contains(
                (slashes(path_join(roots[i], "asgi.py"@)), 800000u64, "python_asgi"@),
            ),
        forall|i: int|
            0 <= i < roots.len() && rs.contains(path_join(#[trigger] roots[i], "main.go"@)) ==> r.contains(
                (slashes(path_join(roots[i], "main.go"@)), 800000u64, "go_main"@),
            ),
{
    assert(rooted_rules().len() == 36);
    assert(rooted_rules()[0] == ("src/main.rs"@, 980000u64, "rust_binary_main"@));
    lemma_rule_at(rs, roots, pkgs, r, 0);
    assert(rooted_rules()[1] == ("src/lib.rs"@, 950000u64, "rust_library_crate"@));
    lemma_rule_at(rs, roots, pkgs, r, 1);
    assert(rooted_rules()[2] == ("main.rs"@, 850000u64, "rust_main"@));
    lemma_rule_at(rs, roots, pkgs, r, 2);
    assert(rooted_rules()[3] == ("src/main.ts"@, 900000u64, "node_main"@));
    lemma_rule_at(rs, roots, pkgs, r, 3);
    assert(rooted_rules()[4] == ("src/main.tsx"@, 900000u64, "node_main"@));
    lemma_rule_at(rs, roots, pkgs, r, 4);
    assert(rooted_rules()[5] == ("src/main.js"@, 900000u64, "node_main"@));
    lemma_rule_at(rs, roots, pkgs, r, 5);
    assert(rooted_rules()[6] == ("src/main.mjs"@, 900000u64, "node_main"@));
    lemma_rule_at(rs, roots, pkgs, r, 6);
    assert(rooted_rules()[7] == ("main.ts"@, 850000u64, "node_root_main"@));
    lemma_rule_at(rs, roots, pkgs, r, 7);
    assert(rooted_rules()[8] == ("main.js"@, 850000u64, "node_root_main"@));
    lemma_rule_at(rs, roots, pkgs, r, 8);
    assert(rooted_rules()[9] == ("main.mjs"@, 850000u64, "node_root_main"@));
    lemma_rule_at(rs, roots, pkgs, r, 9);
    assert(rooted_rules()[10] == ("src/server.ts"@, 880000u64, "node_server"@));
    lemma_rule_at(rs, roots, pkgs, r, 10);
    assert(rooted_rules()[11] == ("src/server.js"@, 880000u64, "node_server"@));
    lemma_rule_at(rs, roots, pkgs, r, 11);
    assert(rooted_rules()[12] == ("server.ts"@, 850000u64, "node_root_server"@));
    lemma_rule_at(rs, roots, pkgs, r, 12);
    assert(rooted_rules()[13] == ("server.js"@, 850000u64, "node_root_server"@));
    lemma_rule_at(rs, roots, pkgs, r, 13);
    assert(rooted_rules()[14] == ("src/index.ts"@, 850000u64, "node_src_index"@));
    lemma_rule_at(rs, roots, pkgs, r, 14);
    assert(rooted_rules()[15] == ("src/index.js"@, 850000u64, "node_src_index"@));
    lemma_rule_at(rs, roots, pkgs, r, 15);
    assert(rooted_rules()[16] == ("index.ts"@, 800000u64, "node_index"@));
    lemma_rule_at(rs, roots, pkgs, r, 16);
    assert(rooted_rules()[17] == ("index.js"@, 800000u64, "node_index"@));
    lemma_rule_at(rs, roots, pkgs, r, 17);
    assert(rooted_rules()[18] == ("index.mjs"@, 800000u64, "node_index"@));
    lemma_rule_at(rs, roots, pkgs, r, 18);
    assert(rooted_rules()[19] == ("app.ts"@, 750000u64, "node_app"@));
    lemma_rule_at(rs, roots, pkgs, r, 19);
    assert(rooted_rules()[20] == ("app.js"@, 750000u64, "node_app"@));
    lemma_rule_at(rs, roots, pkgs, r, 20);
    assert(rooted_rules()[21] == ("cli.ts"@, 700000u64, "node_cli"@));
    lemma_rule_at(rs, roots, pkgs, r, 21);
    assert(rooted_rules()[22] == ("cli.js"@, 700000u64, "node_cli"@));
    lemma_rule_at(rs, roots, pkgs, r, 22);
    assert(rooted_rules()[23] == ("src/app/page.tsx"@, 850000u64, "next_app_page"@));
    lemma_rule_at(rs, roots, pkgs, r, 23);
    assert(rooted_rules()[24] == ("src/app/page.jsx"@, 850000u64, "next_app_page"@));
    lemma_rule_at(rs, roots, pkgs, r, 24);
    assert(rooted_rules()[25] == ("src/extension.ts"@, 850000u64, "vscode_extension_main"@));
    lemma_rule_at(rs, roots, pkgs, r, 25);
    assert(rooted_rules()[26] == ("main.py"@, 920000u64, "python_main"@));
    lemma_rule_at(rs, roots, pkgs, r, 26);
    assert(rooted_rules()[27] == ("src/main.py"@, 900000u64, "python_src_main"@));
    lemma_rule_at(rs, roots, pkgs, r, 27);
    assert(rooted_rules()[28] == ("app/main.py"@, 880000u64, "python_app_main"@));
    lemma_rule_at(rs, roots, pkgs, r, 28);
    assert(rooted_rules()[29] == ("manage.py"@, 900000u64, "django_manage"@));
    lemma_rule_at(rs, roots, pkgs, r, 29);
    assert(rooted_rules()[30] == ("app.py"@, 850000u64, "python_app"@));
    lemma_rule_at(rs, roots, pkgs, r, 30);
    assert(rooted_rules()[31] == ("__main__.py"@, 900000u64, "python_package_main"@));
    lemma_rule_at(rs, roots, pkgs, r, 31);
    assert(rooted_rules()[32] == ("cli.py"@, 700000u64, "python_cli"@));
    lemma_rule_at(rs, roots, pkgs, r, 32);
    assert(rooted_rules()[33] == ("wsgi.py"@, 800000u64, "python_wsgi"@));
    lemma_rule_at(rs, roots, pkgs, r, 33);
    assert(rooted_rules()[34] == ("asgi.py"@, 800000u64, "python_asgi"@));
    lemma_rule_at(rs, roots, pkgs, r, 34);
    assert(rooted_rules()[35] == ("main.go"@, 800000u64, "go_main"@));
    lemma_rule_at(rs, roots, pkgs, r, 35);
}

/// Rust files under a project root's `src/bin` and `main.go` files under
/// its `cmd` folder are entry points: the former as `rust_bin_target`, the
/// latter as `go_command_main`, both with confidence 850000.
pub proof fn law_layout_targets(
    rs: Seq<Seq<char>>,
    roots: Seq<Seq<char>>,
    pkgs: Seq<(String, String)>,
    r: Seq<Entry>,
)
    requires
        r.to_set() == (roots_entries(rs, roots) + packages_entries(rs, pkgs)).to_set(),
    ensures
        forall|i: int, k: int|
            0 <= i < roots.len() && 0 <= k < rs.len() && path_starts_with(#[trigger] rs[k], path_join(#[trigger] roots[i], "src/bin"@))
                && extension_of(file_name_of(rs[k])) == Some("rs"@) ==> r.contains((slashes(rs[k]), 850000u64, "rust_bin_target"@)),
        forall|i: int, k: int|
            0 <= i < roots.len() && 0 <= k < rs.len() && path_starts_with(#[trigger] rs[k], path_join(#[trigger] roots[i], "cmd"@))
                && rs[k] != path_join(roots[i], "cmd"@) && file_name_of(rs[k]) == "main.go"@ ==> r.contains(
                (slashes(rs[k]), 850000u64, "go_command_main"@),
            ),
{
    assert forall|i: int, k: int|
        0 <= i < roots.len() && 0 <= k < rs.len() && path_starts_with(#[trigger] rs[k], path_join(#[trigger] roots[i], "src/bin"@))
            && extension_of(file_name_of(rs[k])) == Some("rs"@) implies r.contains((slashes(rs[k]), 850000u64, "rust_bin_target"@)) by {
        let root = roots[i];
        let pa = |x: Seq<char>| bin_target(root, x);
        let fa = |x: Seq<char>| (slashes(x), 850000u64, "rust_bin_target"@);
        rs.lemma_filter_contains(pa, k);
        let c = rs.filter(pa);
        let j = choose|j: int| 0 <= j < c.len() && c[j] == rs[k];
        let a = c.map_values(fa);
        assert(a[j] == fa(rs[k]));
        let b = rs.filter(|x: Seq<char>| go_command(root, x)).map_values(|x: Seq<char>| (slashes(x), 850000u64, "go_command_main"@));
        let cm = rooted_rules().filter(|q: Entry| rs.contains(path_join(root, q.0))).map_values(|q: Entry| (slashes(path_join(root, q.0)), q.1, q.2));
        assert(root_entries(rs, root) == a + b + cm);
        assert((a + b + cm)[j] == fa(rs[k]));
        lemma_entry_in_result(rs, roots, pkgs, r, i, fa(rs[k]));
    }
    assert forall|i: int, k: int|
        0 <= i < roots.len() && 0 <= k < rs.len() && path_starts_with(#[trigger] rs[k], path_join(#[trigger] roots[i], "cmd"@))
            && rs[k] != path_join(roots[i], "cmd"@) && file_name_of(rs[k]) == "main.go"@ implies r.contains(
            (slashes(rs[k]), 850000u64, "go_command_main"@),
        ) by {
        let root = roots[i];
        let pb = |x: Seq<char>| go_command(root, x);
        let fb = |x: Seq<char>| (slashes(x), 850000u64, "go_command_main"@);
        rs.lemma_filter_contains(pb, k);
        let c = rs.filter(pb);
        let j = choose|j: int| 0 <= j < c.len() && c[j] == rs[k];
        let b = c.map_values(fb);
        assert(b[j] == fb(rs[k]));
        let a = rs.filter(|x: Seq<char>| bin_target(root, x)).map_values(|x: Seq<char>| (slashes(x), 850000u64, "rust_bin_target"@));
        let cm = rooted_rules().filter(|q: Entry| rs.contains(path_join(root, q.0))).map_values(|q: Entry| (slashes(path_join(root, q.0)), q.1, q.2));
        assert(root_entries(rs, root) == a + b + cm);
        assert((a + b + cm)[a.len() + j] == fb(rs[k]));
        lemma_entry_in_result(rs, roots, pkgs, r, i, fb(rs[k]));
    }
}

proof fn lemma_entry_in_result(
    rs: Seq<Seq<char>>,
    roots: Seq<Seq<char>>,
    pkgs: Seq<(String, String)>,
    r: Seq<Entry>,
    i: int,
    e: Entry,
)
    requires
        r.to_set() == (roots_entries(rs, roots) + packages_entries(rs, pkgs)).to_set(),
        0 <= i < roots.len(),
        root_entries(rs, roots[i]).contains(e),
    ensures
        r.contains(e),
{
    lemma_root_in_roots(rs, roots, i, e);
    let re = roots_entries(rs, roots);
    let pe = packages_entries(rs, pkgs);
    let q = choose|q: int| 0 <= q < re.len() && re[q] == e;
    assert((re + pe)[q] == e);
    assert((re + pe).to_set().contains(e));
}

/// Whether `rel` is a Rust file under the `src/bin` folder of `root`.
pub open spec fn bin_target(root: Seq<char>, rel: Seq<char>) -> bool {
    path_starts_with(rel, path_join(root, "src/bin"@)) && extension_of(file_name_of(rel)) == Some("rs"@)
}

/// Whether `rel` is a `main.go` strictly under the `cmd` folder of `root`.
pub open spec fn go_command(root: Seq<char>, rel: Seq<char>) -> bool {
    let cmd = path_join(root, "cmd"@);
    path_starts_with(rel, cmd) && rel != cmd && file_name_of(rel) == "main.go"@
}

/// The entries a project root yields, in order: Rust binary targets, Go
/// commands, then the rooted layout rules whose file exists.
pub open spec fn root_entries(rs: Seq<Seq<char>>, root: Seq<char>) -> Seq<Entry> {
    rs.filter(|r: Seq<char>| bin_target(root, r)).map_values(|r: Seq<char>| (slashes(r), 850000u64, "rust_bin_target"@))
        + rs.filter(|r: Seq<char>| go_command(root, r)).map_values(|r: Seq<char>| (slashes(r), 850000u64, "go_command_main"@))
        + rooted_rules().filter(|k: Entry| rs.contains(path_join(root, k.0))).map_values(
        |k: Entry| (slashes(path_join(root, k.0)), k.1, k.2),
    )
}

/// The entries of several project roots, in order.
pub open spec fn roots_entries(rs: Seq<Seq<char>>, roots: Seq<Seq<char>>) -> Seq<Entry>
    decreases roots.len(),
{
    if roots.len() == 0 {
        Seq::empty()
    } else {
        roots_entries(rs, roots.drop_last()) + root_entries(rs, roots.last())
    }
}

/// `spec` joined to `dir` (an absolute `spec` replaces it).
pub open spec fn join_spec(dir: Seq<char>, spec: Seq<char>) -> Seq<char> {
    if spec.len() > 0 && spec[0] == '/' {
        spec
    } else {
        path_join(dir, spec)
    }
}

/// `base` with its extension replaced by `ext`; unchanged when it has no
/// file name.
pub open spec fn with_ext(base: Seq<char>, ext: Seq<char>) -> Seq<char> {
    if file_name_of(base).len() == 0 {
        base
    } else {
        with_extension(base, ext)
    }
}

/// The files probed for a `main`/`bin` specifier: the normalized path as
/// given, then with each usual script extension.
pub open spec fn probe_list(base: Seq<char>) -> Seq<Seq<char>> {
    seq![
        base,
        with_ext(base, "ts"@),
        with_ext(base, "tsx"@),
        with_ext(base, "js"@),
        with_ext(base, "jsx"@),
        with_ext(base, "mjs"@),
        with_ext(base, "cjs"@),
    ]
}

/// The existing files a `package.json` specifier names.
pub open spec fn expand_target(spec: Seq<char>, rs: Seq<Seq<char>>, dir: Seq<char>) -> Seq<Seq<char>> {
    probe_list(normalize(join_spec(dir, spec))).filter(|c: Seq<char>| rs.contains(c))
}

/// The targets of a `bin` object's string members, in key order.
pub open spec fn bin_object_targets(members: Seq<(String, JsonValue)>, rs: Seq<Seq<char>>, dir: Seq<char>) -> Seq<Seq<char>>
    decreases members.len(),
{
    if members.len() == 0 {
        Seq::empty()
    } else {
        bin_object_targets(members.drop_last(), rs, dir) + match as_str_spec(members.last().1) {
            Some(s) => expand_target(s, rs, dir),
            None => Seq::empty(),
        }
    }
}

/// The targets of a `bin` field: a string, or an object of strings.
pub open spec fn bin_targets(bin: JsonValue, rs: Seq<Seq<char>>, dir: Seq<char>) -> Seq<Seq<char>> {
    match bin {
        JsonValue::Str(s) => expand_target(s@, rs, dir),
        JsonValue::Object(members) => bin_object_targets(members@, rs, dir),
        _ => Seq::empty(),
    }
}

/// The files the `main` field of a parsed `package.json` in `dir` names.
pub open spec fn main_targets(v: JsonValue, rs: Seq<Seq<char>>, dir: Seq<char>) -> Seq<Seq<char>> {
    match get_spec(v, "main"@) {
        Some(m) => match as_str_spec(m) {
            Some(s) => expand_target(s, rs, dir),
            None => Seq::empty(),
        },
        None => Seq::empty(),
    }
}

/// The files the `bin` field of a parsed `package.json` in `dir` names.
pub open spec fn value_bin_targets(v: JsonValue, rs: Seq<Seq<char>>, dir: Seq<char>) -> Seq<Seq<char>> {
    match get_spec(v, "bin"@) {
        Some(b) => bin_targets(b, rs, dir),
        None => Seq::empty(),
    }
}

/// The entries a `package.json` at `rel` with text `text` yields: its
/// `main` targets, then its `bin` targets.
pub open spec fn package_entries(rs: Seq<Seq<char>>, rel: Seq<char>, text: Seq<char>) -> Seq<Entry> {
    if file_name_of(rel) != "package.json"@ {
        Seq::empty()
    } else {
        match json_parse(text) {
            None => Seq::empty(),
            Some(v) => {
                let dir = parent_of(rel);
                let mains = main_targets(v, rs, dir);
                let bins = value_bin_targets(v, rs, dir);
                mains.map_values(|t: Seq<char>| (slashes(t), 920000u64, "package_json_main"@)) + bins.map_values(
                    |t: Seq<char>| (slashes(t), 900000u64, "package_json_bin"@),
                )
            },
        }
    }
}

/// The entries of several `package.json` texts, in order.
pub open spec fn packages_entries(rs: Seq<Seq<char>>, pkgs: Seq<(String, String)>) -> Seq<Entry>
    decreases pkgs.len(),
{
    if pkgs.len() == 0 {
        Seq::empty()
    } else {
        packages_entries(rs, pkgs.drop_last()) + package_entries(rs, pkgs.last().0@, pkgs.last().1@)
    }
}

/// The order of entry points: confidence (highest first), then path, then
/// heuristic.
pub open spec fn entry_lt(a: Entry, b: Entry) -> bool {
    a.1 > b.1 || (a.1 == b.1 && (lex_lt(a.0, b.0, false) || (a.0 == b.0 && lex_lt(a.2, b.2, false))))
}

/// An entry point as text.
pub open spec fn entry_view(e: EntryPoint) -> Entry {
    (e.path@, e.confidence_millionths, e.heuristic@)
}

/// Whether entries are strictly in entry point order.
pub open spec fn entries_sorted(s: Seq<Entry>) -> bool {
    forall|i: int, j: int| 0 <= i < j < s.len() ==> entry_lt(#[trigger] s[i], #[trigger] s[j])
}

proof fn lemma_entry_lt(a: Entry, b: Entry, c: Entry)
    ensures
        !entry_lt(a, a),
        entry_lt(a, b) ==> !entry_lt(b, a),
        entry_lt(a, b) && entry_lt(b, c) ==> entry_lt(a, c),
        a == b || entry_lt(a, b) || entry_lt(b, a),
{
    lemma_lex_lt_asym(a.0, b.0, false);
    lemma_lex_lt_asym(a.2, b.2, false);
    lemma_lex_lt_asym(a.0, a.0, false);
    lemma_lex_lt_asym(a.2, a.2, false);
    lemma_lex_lt_total(a.0, b.0, false);
    lemma_lex_lt_total(a.2, b.2, false);
    if entry_lt(a, b) && entry_lt(b, c) {
        if lex_lt(a.0, b.0, false) && lex_lt(b.0, c.0, false) {
            lemma_lex_lt_trans(a.0, b.0, c.0, false);
        }
        if a.0 == b.0 && b.0 == c.0 && lex_lt(a.2, b.2, false) && lex_lt(b.2, c.2, false) {
            lemma_lex_lt_trans(a.2, b.2, c.2, false);
        }
    }
}

/// Compares entry points: `-1`, `0` or `1`.
fn compare_entry(a: &EntryPoint, b: &EntryPoint) -> (r: i8)
    ensures
        r == -1 <==> entry_lt(entry_view(*a), entry_view(*b)),
        r == 0 <==> entry_view(*a) == entry_view(*b),
        r == 1 <==> entry_lt(entry_view(*b), entry_view(*a)),
{
    proof {
        lemma_entry_lt(entry_view(*a), entry_view(*b), entry_view(*a));
    }
    if a.confidence_millionths > b.confidence_millionths {
        return -1;
    }
    if a.confidence_millionths < b.confidence_millionths {
        return 1;
    }
    let c = compare_str(a.path.as_str(), b.path.as_str(), false);
    if c != 0 {
        return c;
    }
    compare_str(a.heuristic.as_str(), b.heuristic.as_str(), false)
}

/// Adds an entry point to a strictly ordered list unless it is there.
fn insert_entry(v: &mut Vec<EntryPoint>, e: EntryPoint)
    requires
        entries_sorted(old(v)@.map_values(|x: EntryPoint| entry_view(x))),
    ensures
        entries_sorted(final(v)@.map_values(|x: EntryPoint| entry_view(x))),
        final(v)@.map_values(|x: EntryPoint| entry_view(x)).to_set() == old(v)@.map_values(|x: EntryPoint| entry_view(x)).to_set().insert(entry_view(e)),
{
    let ghost f = |x: EntryPoint| entry_view(x);
    let ghost old_v = v@;
    let ghost k = entry_view(e);
    let mut p: usize = 0;
    let mut done = false;
    while !done && p < v.len()
        invariant
            p <= v.len(),
            v@ == old_v,
            k == entry_view(e),
            f == (|x: EntryPoint| entry_view(x)),
            forall|j: int| 0 <= j < p ==> entry_lt(entry_view(#[trigger] v@[j]), k),
            done ==> p < v.len() && !entry_lt(entry_view(v@[p as int]), k),
        decreases v.len() - p, if done { 0int } else { 1int },
    {
        if compare_entry(&v[p], &e) == -1 {
            p = p + 1;
        } else {
            done = true;
        }
    }
    let ghost ov = old_v.map_values(f);
    if p < v.len() && compare_entry(&v[p], &e) == 0 {
        proof {
            assert(ov[p as int] == k);
            assert(ov.to_set().contains(k));
            assert(ov.to_set().insert(k) =~= ov.to_set());
        }
        return;
    }
    proof {
        if p < old_v.len() {
            lemma_entry_lt(entry_view(old_v[p as int]), k, k);
        }
    }
    v.insert(p, e);
    proof {
        let nv = v@.map_values(f);
        assert(v@ == old_v.insert(p as int, e));
        assert(nv =~= ov.insert(p as int, k));
        assert forall|i: int, j: int| 0 <= i < j < nv.len() implies entry_lt(#[trigger] nv[i], #[trigger] nv[j]) by {
            if j < p {
            } else if j == p {
            } else if i < p {
                lemma_entry_lt(ov[i], k, ov[p as int]);
                if j - 1 > p {
                    lemma_entry_lt(ov[i], ov[p as int], ov[j - 1]);
                }
                lemma_entry_lt(ov[i], k, ov[j - 1]);
            } else if i == p {
                if j - 1 > p {
                    lemma_entry_lt(k, ov[p as int], ov[j - 1]);
                }
            } else {
            }
        }
        assert forall|x: Entry| nv.to_set().contains(x) <==> ov.to_set().insert(k).contains(x) by {
            if nv.contains(x) {
                let q = choose|q: int| 0 <= q < nv.len() && nv[q] == x;
                if q < p {
                    assert(ov[q] == x);
                } else if q > p {
                    assert(ov[q - 1] == x);
                }
            }
            if ov.contains(x) {
                let q = choose|q: int| 0 <= q < ov.len() && ov[q] == x;
                if q < p {
                    assert(nv[q] == x);
                } else {
                    assert(nv[q + 1] == x);
                }
            }
            if x == k {
                assert(nv[p as int] == x);
            }
        }
        assert(nv.to_set() =~= ov.to_set().insert(k));
    }
}

/// The views of entry points.
pub open spec fn entry_views(v: Seq<EntryPoint>) -> Seq<Entry> {
    v.map_values(|x: EntryPoint| entry_view(x))
}

/// The elements of `a + b` are those of `a` and those of `b`.
pub proof fn lemma_concat_to_set<A>(a: Seq<A>, b: Seq<A>)
    ensures
        (a + b).to_set() == a.to_set().union(b.to_set()),
{
    assert forall|x: A| (a + b).to_set().contains(x) <==> a.to_set().union(b.to_set()).contains(x) by {
        if (a + b).contains(x) {
            let q = choose|q: int| 0 <= q < (a + b).len() && (a + b)[q] == x;
            if q < a.len() {
                assert(a[q] == x);
            } else {
                assert(b[q - a.len()] == x);
            }
        }
        if a.contains(x) {
            let q = choose|q: int| 0 <= q < a.len() && a[q] == x;
            assert((a + b)[q] == x);
        }
        if b.contains(x) {
            let q = choose|q: int| 0 <= q < b.len() && b[q] == x;
            assert((a + b)[q + a.len()] == x);
        }
    }
    assert((a + b).to_set() =~= a.to_set().union(b.to_set()));
}

/// Inserts an entry point built from parts.
fn insert_parts(v: &mut Vec<EntryPoint>, path: &[char], conf: u64, heuristic: &str)
    requires
        entries_sorted(entry_views(old(v)@)),
    ensures
        entries_sorted(entry_views(final(v)@)),
        entry_views(final(v)@).to_set() == entry_views(old(v)@).to_set().insert((slashes(path@), conf, heuristic@)),
{
    let p = crate::paths::forward_slashes(string_from_chars(path).as_str());
    let e = EntryPoint { path: p, confidence_millionths: conf, heuristic: to_owned_string(heuristic) };
    insert_entry(v, e);
}

/// Adds the Rust binary targets (or Go commands) under `root`.
fn add_layout_files(v: &mut Vec<EntryPoint>, files: &Vec<String>, root: &[char], go: bool)
    requires
        entries_sorted(entry_views(old(v)@)),
    ensures
        entries_sorted(entry_views(final(v)@)),
        entry_views(final(v)@).to_set() == entry_views(old(v)@).to_set().union(
            if go {
                views_of(files@).filter(|r: Seq<char>| go_command(root@, r)).map_values(|r: Seq<char>| (slashes(r), 850000u64, "go_command_main"@))
            } else {
                views_of(files@).filter(|r: Seq<char>| bin_target(root@, r)).map_values(|r: Seq<char>| (slashes(r), 850000u64, "rust_bin_target"@))
            }.to_set(),
        ),
{
    let ghost rs = views_of(files@);
    let ghost pred = if go { |r: Seq<char>| go_command(root@, r) } else { |r: Seq<char>| bin_target(root@, r) };
    let ghost mk = if go {
        |r: Seq<char>| (slashes(r), 850000u64, "go_command_main"@)
    } else {
        |r: Seq<char>| (slashes(r), 850000u64, "rust_bin_target"@)
    };
    let ghost start = entry_views(v@).to_set();
    let mut cmd: Vec<char> = Vec::new();
    let mut srcbin: Vec<char> = Vec::new();
    crate::text::push_str_chars(&mut cmd, "cmd");
    crate::text::push_str_chars(&mut srcbin, "src/bin");
    let cmd_dir = join_chars(root, cmd.as_slice());
    let bin_dir = join_chars(root, srcbin.as_slice());
    let mut main_go: Vec<char> = Vec::new();
    crate::text::push_str_chars(&mut main_go, "main.go");
    let mut rs_ext: Vec<char> = Vec::new();
    crate::text::push_str_chars(&mut rs_ext, "rs");
    let mut i: usize = 0;
    assert(rs.take(0).filter(pred) =~= Seq::<Seq<char>>::empty());
    assert(start.union(Seq::<Entry>::empty().to_set()) =~= start);
    while i < files.len()
        invariant
            i <= files.len(),
            rs == views_of(files@),
            pred == (if go { |r: Seq<char>| go_command(root@, r) } else { |r: Seq<char>| bin_target(root@, r) }),
            mk == (if go { |r: Seq<char>| (slashes(r), 850000u64, "go_command_main"@) } else { |r: Seq<char>| (slashes(r), 850000u64, "rust_bin_target"@) }),
            cmd_dir@ == path_join(root@, "cmd"@),
            bin_dir@ == path_join(root@, "src/bin"@),
            main_go@ == "main.go"@,
            rs_ext@ == "rs"@,
            entries_sorted(entry_views(v@)),
            entry_views(v@).to_set() == start.union(rs.take(i as int).filter(pred).map_values(mk).to_set()),
        decreases files.len() - i,
    {
        let rel = chars_of(files[i].as_str());
        proof {
            rs.take(i as int).lemma_filter_push(rs[i as int], pred);
            assert(rs.take(i + 1) =~= rs.take(i as int).push(rs[i as int]));
        }
        let name = file_name_chars(rel.as_slice());
        let hit = if go {
            starts_with_path(rel.as_slice(), cmd_dir.as_slice()) && !crate::text::chars_eq(rel.as_slice(), cmd_dir.as_slice())
                && crate::text::chars_eq(name.as_slice(), main_go.as_slice())
        } else {
            let ext = extension_chars(name.as_slice());
            starts_with_path(rel.as_slice(), bin_dir.as_slice()) && match ext {
                Some(e) => crate::text::chars_eq(e.as_slice(), rs_ext.as_slice()),
                None => false,
            }
        };
        assert(hit == pred(rel@));
        let ghost before = rs.take(i as int).filter(pred).map_values(mk);
        if hit {
            if go {
                insert_parts(v, rel.as_slice(), 850000u64, "go_command_main");
            } else {
                insert_parts(v, rel.as_slice(), 850000u64, "rust_bin_target");
            }
            proof {
                assert(rs.take(i + 1).filter(pred).map_values(mk) =~= before.push(mk(rel@)));
                crate::graph::files::lemma_push_to_set(before, mk(rel@));
            }
        } else {
            assert(rs.take(i + 1).filter(pred).map_values(mk) =~= before);
        }
        i = i + 1;
    }
    assert(rs.take(rs.len() as int) =~= rs);
}

/// Adds the rooted layout rules whose file exists under `root`.
fn add_rules(v: &mut Vec<EntryPoint>, files: &Vec<String>, root: &[char])
    requires
        entries_sorted(entry_views(old(v)@)),
    ensures
        entries_sorted(entry_views(final(v)@)),
        entry_views(final(v)@).to_set() == entry_views(old(v)@).to_set().union(
            rooted_rules().filter(|k: Entry| views_of(files@).contains(path_join(root@, k.0))).map_values(
                |k: Entry| (slashes(path_join(root@, k.0)), k.1, k.2),
            ).to_set(),
        ),
{
    let rules = rooted_rule_list();
    let ghost rr = rooted_rules();
    let ghost rs = views_of(files@);
    let ghost pred = |k: Entry| rs.contains(path_join(root@, k.0));
    let ghost mk = |k: Entry| (slashes(path_join(root@, k.0)), k.1, k.2);
    let ghost start = entry_views(v@).to_set();
    let mut i: usize = 0;
    assert(rr.take(0).filter(pred) =~= Seq::<Entry>::empty());
    assert(start.union(Seq::<Entry>::empty().to_set()) =~= start);
    while i < rules.len()
        invariant
            i <= rules.len(),
            rules@.map_values(|x: (&'static str, u64, &'static str)| (x.0@, x.1, x.2@)) == rr,
            rr == rooted_rules(),
            rs == views_of(files@),
            pred == (|k: Entry| rs.contains(path_join(root@, k.0))),
            mk == (|k: Entry| (slashes(path_join(root@, k.0)), k.1, k.2)),
            entries_sorted(entry_views(v@)),
            entry_views(v@).to_set() == start.union(rr.take(i as int).filter(pred).map_values(mk).to_set()),
        decreases rules.len() - i,
    {
        let (rel, conf, heur) = rules[i];
        assert(rr[i as int] == (rel@, conf, heur@));
        proof {
            rr.take(i as int).lemma_filter_push(rr[i as int], pred);
            assert(rr.take(i + 1) =~= rr.take(i as int).push(rr[i as int]));
        }
        let relc = chars_of(rel);
        let cand = join_chars(root, relc.as_slice());
        let hit = crate::repo::metadata_detector::list_contains(files, cand.as_slice());
        let ghost before = rr.take(i as int).filter(pred).map_values(mk);
        if hit {
            insert_parts(v, cand.as_slice(), conf, heur);
            proof {
                assert(rr.take(i + 1).filter(pred).map_values(mk) =~= before.push(mk(rr[i as int])));
                crate::graph::files::lemma_push_to_set(before, mk(rr[i as int]));
            }
        } else {
            assert(rr.take(i + 1).filter(pred).map_values(mk) =~= before);
        }
        i = i + 1;
    }
    assert(rr.take(rr.len() as int) =~= rr);
}

/// `base` with its extension replaced by `ext`, unchanged without a file
/// name.
pub fn with_ext_exec(base: &[char], ext: &str) -> (r: Vec<char>)
    ensures
        r@ == with_ext(base@, ext@),
{
    let name = file_name_chars(base);
    if name.len() == 0 {
        crate::paths::slice_chars(base, 0, base.len())
    } else {
        let e = chars_of(ext);
        with_extension_chars(base, e.as_slice())
    }
}

/// The existing files a `package.json` specifier names.
fn expand_target_exec(spec: &str, files: &Vec<String>, dir: &[char]) -> (r: Vec<Vec<char>>)
    ensures
        crate::paths::views(r@) == expand_target(spec@, views_of(files@), dir@),
{
    let sc = chars_of(spec);
    let joined = if sc.len() > 0 && sc[0] == '/' {
        crate::paths::slice_chars(sc.as_slice(), 0, sc.len())
    } else {
        join_chars(dir, sc.as_slice())
    };
    assert(joined@ == join_spec(dir@, spec@));
    let base_s = crate::paths::normalize_lexical(string_from_chars(joined.as_slice()).as_str());
    let base = chars_of(base_s.as_str());
    let mut probes: Vec<Vec<char>> = Vec::new();
    probes.push(crate::paths::slice_chars(base.as_slice(), 0, base.len()));
    probes.push(with_ext_exec(base.as_slice(), "ts"));
    probes.push(with_ext_exec(base.as_slice(), "tsx"));
    probes.push(with_ext_exec(base.as_slice(), "js"));
    probes.push(with_ext_exec(base.as_slice(), "jsx"));
    probes.push(with_ext_exec(base.as_slice(), "mjs"));
    probes.push(with_ext_exec(base.as_slice(), "cjs"));
    let ghost pl = probe_list(base@);
    assert(base@.subrange(0, base@.len() as int) =~= base@);
    assert(crate::paths::views(probes@) =~= pl);
    let ghost rs = views_of(files@);
    let ghost pred = |c: Seq<char>| rs.contains(c);
    let mut out: Vec<Vec<char>> = Vec::new();
    let mut i: usize = 0;
    assert(pl.take(0).filter(pred) =~= Seq::<Seq<char>>::empty());
    while i < probes.len()
        invariant
            i <= probes.len(),
            crate::paths::views(probes@) == pl,
            rs == views_of(files@),
            pred == (|c: Seq<char>| rs.contains(c)),
            crate::paths::views(out@) == pl.take(i as int).filter(pred),
        decreases probes.len() - i,
    {
        proof {
            pl.take(i as int).lemma_filter_push(pl[i as int], pred);
            assert(pl.take(i + 1) =~= pl.take(i as int).push(pl[i as int]));
        }
        if crate::repo::metadata_detector::list_contains(files, probes[i].as_slice()) {
            let c = crate::paths::slice_chars(probes[i].as_slice(), 0, probes[i].len());
            assert(c@ =~= probes@[i as int]@);
            assert(c@ == pl[i as int]);
            let ghost old_out = crate::paths::views(out@);
            out.push(c);
            assert(crate::paths::views(out@) =~= old_out.push(pl[i as int]));
        }
        i = i + 1;
    }
    assert(pl.take(pl.len() as int) =~= pl);
    out
}

/// Inserts an entry point for each target.
fn add_targets(v: &mut Vec<EntryPoint>, targets: &Vec<Vec<char>>, conf: u64, heuristic: &str)
    requires
        entries_sorted(entry_views(old(v)@)),
    ensures
        entries_sorted(entry_views(final(v)@)),
        entry_views(final(v)@).to_set() == entry_views(old(v)@).to_set().union(
            crate::paths::views(targets@).map_values(|t: Seq<char>| (slashes(t), conf, heuristic@)).to_set(),
        ),
{
    let ghost tv = crate::paths::views(targets@);
    let ghost mk = |t: Seq<char>| (slashes(t), conf, heuristic@);
    let ghost start = entry_views(v@).to_set();
    let mut i: usize = 0;
    assert(start.union(tv.take(0).map_values(mk).to_set()) =~= start);
    while i < targets.len()
        invariant
            i <= targets.len(),
            tv == crate::paths::views(targets@),
            mk == (|t: Seq<char>| (slashes(t), conf, heuristic@)),
            entries_sorted(entry_views(v@)),
            entry_views(v@).to_set() == start.union(tv.take(i as int).map_values(mk).to_set()),
        decreases targets.len() - i,
    {
        insert_parts(v, targets[i].as_slice(), conf, heuristic);
        proof {
            assert(tv.take(i + 1).map_values(mk) =~= tv.take(i as int).map_values(mk).push(mk(tv[i as int])));
            crate::graph::files::lemma_push_to_set(tv.take(i as int).map_values(mk), mk(tv[i as int]));
        }
        i = i + 1;
    }
    assert(tv.take(tv.len() as int) =~= tv);
}

/// The targets of a `bin` field.
pub fn bin_targets_exec(bin: &JsonValue, files: &Vec<String>, dir: &[char]) -> (r: Vec<Vec<char>>)
    ensures
        crate::paths::views(r@) == bin_targets(*bin, views_of(files@), dir@),
{
    match bin {
        JsonValue::Str(s) => expand_target_exec(s.as_str(), files, dir),
        JsonValue::Object(members) => {
            let mut out: Vec<Vec<char>> = Vec::new();
            let mut i: usize = 0;
            assert(members@.take(0) =~= Seq::<(String, JsonValue)>::empty());
            while i < members.len()
                invariant
                    i <= members.len(),
                    crate::paths::views(out@) == bin_object_targets(members@.take(i as int), views_of(files@), dir@),
                decreases members.len() - i,
            {
                assert(members@.take(i + 1).drop_last() =~= members@.take(i as int));
                let ghost before = crate::paths::views(out@);
                match json_as_str(&members[i].1) {
                    Some(spec) => {
                        let more = expand_target_exec(spec, files, dir);
                        let mut j: usize = 0;
                        while j < more.len()
                            invariant
                                j <= more.len(),
                                crate::paths::views(out@) == before + crate::paths::views(more@).take(j as int),
                            decreases more.len() - j,
                        {
                            let c = crate::paths::slice_chars(more[j].as_slice(), 0, more[j].len());
                            assert(c@ =~= more@[j as int]@);
                            let ghost prev = crate::paths::views(out@);
                            out.push(c);
                            assert(crate::paths::views(out@) =~= prev.push(more@[j as int]@));
                            assert(crate::paths::views(more@).take(j + 1) =~= crate::paths::views(more@).take(j as int).push(more@[j as int]@));
                            assert(crate::paths::views(out@) =~= before + crate::paths::views(more@).take(j + 1));
                            j = j + 1;
                        }
                        assert(crate::paths::views(more@).take(more@.len() as int) =~= crate::paths::views(more@));
                    },
                    None => {
                        assert(before + Seq::<Seq<char>>::empty() =~= before);
                    },
                }
                i = i + 1;
            }
            assert(members@.take(members@.len() as int) =~= members@);
            out
        },
        _ => {
            let e: Vec<Vec<char>> = Vec::new();
            assert(crate::paths::views(e@) =~= Seq::<Seq<char>>::empty());
            e
        },
    }
}

/// The files that the `main` and `bin` fields of a parsed `package.json`
/// in directory `dir` name, among `files`.
pub fn package_targets(value: &JsonValue, files: &Vec<String>, dir: &[char]) -> (r: (Vec<Vec<char>>, Vec<Vec<char>>))
    ensures
        crate::paths::views(r.0@) == main_targets(*value, views_of(files@), dir@),
        crate::paths::views(r.1@) == value_bin_targets(*value, views_of(files@), dir@),
{
    let empty1: Vec<Vec<char>> = Vec::new();
    assert(crate::paths::views(empty1@) =~= Seq::<Seq<char>>::empty());
    let empty2: Vec<Vec<char>> = Vec::new();
    assert(crate::paths::views(empty2@) =~= Seq::<Seq<char>>::empty());
    let mains: Vec<Vec<char>> = match json_get(value, "main") {
        Some(m) => match json_as_str(m) {
            Some(sp) => expand_target_exec(sp, files, dir),
            None => empty1,
        },
        None => empty1,
    };
    let bins: Vec<Vec<char>> = match json_get(value, "bin") {
        Some(b) => bin_targets_exec(b, files, dir),
        None => empty2,
    };
    (mains, bins)
}

/// Adds the entries of one `package.json`.
pub fn add_package(v: &mut Vec<EntryPoint>, files: &Vec<String>, rel: &str, text: &str)
    requires
        entries_sorted(entry_views(old(v)@)),
    ensures
        entries_sorted(entry_views(final(v)@)),
        entry_views(final(v)@).to_set() == entry_views(old(v)@).to_set().union(package_entries(views_of(files@), rel@, text@).to_set()),
{
    let ghost rs = views_of(files@);
    let ghost start = entry_views(v@).to_set();
    let relc = chars_of(rel);
    let name = file_name_chars(relc.as_slice());
    let mut pj: Vec<char> = Vec::new();
    crate::text::push_str_chars(&mut pj, "package.json");
    if !crate::text::chars_eq(name.as_slice(), pj.as_slice()) {
        assert(start.union(Seq::<Entry>::empty().to_set()) =~= start);
        return;
    }
    let parsed = parse_json(text);
    match parsed {
        None => {
            assert(start.union(Seq::<Entry>::empty().to_set()) =~= start);
        },
        Some(value) => {
            let dir = parent_chars(relc.as_slice());
            let (mains, bins) = package_targets(&value, files, dir.as_slice());
            add_targets(v, &mains, 920000u64, "package_json_main");
            add_targets(v, &bins, 900000u64, "package_json_bin");
            proof {
                let a = crate::paths::views(mains@).map_values(|t: Seq<char>| (slashes(t), 920000u64, "package_json_main"@));
                let b = crate::paths::views(bins@).map_values(|t: Seq<char>| (slashes(t), 900000u64, "package_json_bin"@));
                lemma_concat_to_set(a, b);
                assert(package_entries(rs, rel@, text@) == a + b);
                assert(start.union(a.to_set()).union(b.to_set()) =~= start.union((a + b).to_set()));
            }
        },
    }
}

/// Detects probable entry points.
#[derive(Debug, Default, Clone, Copy)]
pub struct EntryPointDetector;

impl EntryPointDetector {
    /// Detects entry points from a scan and the texts of its readable
    /// `package.json` files (repository-relative path and content). Results
    /// are sorted by confidence (highest first), then path, then heuristic,
    /// each once.
    pub fn detect(&self, scan: &ScanResult, packages: &Vec<(String, String)>) -> (r: Vec<EntryPoint>)
        ensures
            entries_sorted(entry_views(r@)),
            entry_views(r@).to_set() == (roots_entries(rels(scan.files@), views_of(scan.project_roots@)) + packages_entries(
                rels(scan.files@),
                packages@,
            )).to_set(),
    {
        let files = crate::repo::module_detector::rel_paths(&scan.files);
        let ghost rs = rels(scan.files@);
        let ghost roots = views_of(scan.project_roots@);
        let mut out: Vec<EntryPoint> = Vec::new();
        let mut i: usize = 0;
        assert(entry_views(out@).to_set() =~= roots_entries(rs, roots.take(0)).to_set());
        while i < scan.project_roots.len()
            invariant
                i <= scan.project_roots.len(),
                views_of(files@) == rs,
                rs == rels(scan.files@),
                roots == views_of(scan.project_roots@),
                entries_sorted(entry_views(out@)),
                entry_views(out@).to_set() == roots_entries(rs, roots.take(i as int)).to_set(),
            decreases scan.project_roots.len() - i,
        {
            let root = chars_of(scan.project_roots[i].as_str());
            let ghost before = entry_views(out@).to_set();
            add_layout_files(&mut out, &files, root.as_slice(), false);
            add_layout_files(&mut out, &files, root.as_slice(), true);
            add_rules(&mut out, &files, root.as_slice());
            proof {
                assert(roots.take(i + 1).drop_last() =~= roots.take(i as int));
                assert(roots.take(i + 1).last() == root@);
                let a = rs.filter(|r: Seq<char>| bin_target(root@, r)).map_values(|r: Seq<char>| (slashes(r), 850000u64, "rust_bin_target"@));
                let b = rs.filter(|r: Seq<char>| go_command(root@, r)).map_values(|r: Seq<char>| (slashes(r), 850000u64, "go_command_main"@));
                let c = rooted_rules().filter(|k: Entry| rs.contains(path_join(root@, k.0))).map_values(|k: Entry| (slashes(path_join(root@, k.0)), k.1, k.2));
                lemma_concat_to_set(a, b);
                lemma_concat_to_set(a + b, c);
                lemma_concat_to_set(roots_entries(rs, roots.take(i as int)), root_entries(rs, root@));
                assert(root_entries(rs, root@) == a + b + c);
                assert(entry_views(out@).to_set() =~= roots_entries(rs, roots.take(i + 1)).to_set());
            }
            i = i + 1;
        }
        assert(roots.take(roots.len() as int) =~= roots);
        let ghost re = roots_entries(rs, roots);
        let mut k: usize = 0;
        assert(packages_entries(rs, packages@.take(0)) =~= Seq::<Entry>::empty());
        assert(re.to_set().union(Seq::<Entry>::empty().to_set()) =~= re.to_set());
        while k < packages.len()
            invariant
                k <= packages.len(),
                views_of(files@) == rs,
                re == roots_entries(rs, roots),
                entries_sorted(entry_views(out@)),
                entry_views(out@).to_set() == re.to_set().union(packages_entries(rs, packages@.take(k as int)).to_set()),
            decreases packages.len() - k,
        {
            add_package(&mut out, &files, packages[k].0.as_str(), packages[k].1.as_str());
            proof {
                assert(packages@.take(k + 1).drop_last() =~= packages@.take(k as int));
                assert(packages@.take(k + 1).last() == packages@[k as int]);
                lemma_concat_to_set(packages_entries(rs, packages@.take(k as int)), package_entries(rs, packages@[k as int].0@, packages@[k as int].1@));
                assert(entry_views(out@).to_set() =~= re.to_set().union(packages_entries(rs, packages@.take(k + 1)).to_set()));
            }
            k = k + 1;
        }
        assert(packages@.take(packages@.len() as int) =~= packages@);
        proof {
            lemma_concat_to_set(re, packages_entries(rs, packages@));
        }
        out
    }
}

} // verus!
