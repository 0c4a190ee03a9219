# ink_analysis

Repository analysis, dependency-graph analysis and context optimisation,
with the logic verified by Verus.

## Layout

- `src/` — the verified library.
  - `repo/` — scanning results, language/framework/metadata detection,
    entry points, modules, import extraction and resolution, and the
    one-pass analysis over a scan (`analysis::analyze_scan`).
  - `graph/` — file and module dependency graphs (petgraph), cycles,
    reachability, degree metrics, weak components, depths and longest
    chains, and the graph builder.
  - `context/` — the content gate, token estimates, query tokenisation and
    scoring, near-duplicate detection (MinHash LSH), the budget gate, and
    the optimiser pipeline (`engine::ContextOptimizer::optimize`);
    `dedup_laws.rs` and `plan_laws.rs` prove that any two results meeting
    the contracts of near-duplicate detection, ranking or optimisation for
    the same input are equal (strings compared by their text); equal sort
    keys keep their input order.
  - `order.rs`, `paths.rs`, `text.rs` — string order, path and text
    helpers with their specifications; `normal_form.rs` proves that lexical
    path normalisation reaches a normal form.
  - `json.rs`, `pattern.rs` — `serde_json` parsing and `regex` matching
    behind small trusted wrappers.
- `app/` — filesystem traversal (`ignore`, `walkdir`, `rayon`), file reads,
  timings, floating-point statistics, JSON output and Markdown reports.
- `tests/` — unit and end-to-end tests; the end-to-end tests build
  repositories in memory and run the library pipeline over them.

Every collection the library returns is deterministically ordered. The
contracts state results in terms of specification functions; where a result
rests on an outside crate, the contract names the result (regular
expressions, JSON parsing) or states what the crate documents of it
(petgraph's strongly connected components: a partition into mutually
reachable, maximal sets in reverse topological order).
