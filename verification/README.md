# deslop_core

The core of a duplicate-code detector, verified with Verus.

- `src/ast.rs`, `src/pair.rs`, `src/boilerplate.rs`, `src/clone_category.rs`:
  byte ranges, fingerprints, pair classification, boilerplate shapes and the
  clone categories with their wire labels.
- `src/buckets.rs` and `src/buckets/`: the clone kinds, the grouping of pairs,
  the content gate and the routing of a cluster to its kind.
- `src/cluster.rs` and `src/cluster/`: building, ranking and naming clusters,
  exact-run coalescing, subsumption, the same-file election, the
  per-cluster signal groups and the repetition count of a measurement.
- `src/cluster_filters.rs` and `src/cluster_filters/`: the noise filters that
  read a member's concrete syntax tree (parsed with tree-sitter behind a few
  trusted wrappers): literal-variation calls, constant and data tables,
  polymorphic signatures, forwarding wrappers and sibling declaration
  families, and the per-language idioms. `calls` reads call shapes out of
  the parsed source (the call a member is judged by, its call sequence,
  canonical callee headers, argument payloads, result bindings and consumed
  identifiers) and judges them. `noise_bank::is_noise_pattern` re-reads a
  cluster's members with their language plug-in's grammar, resolves their
  subjects, extracts their calls, builds the contract index, and runs
  `noise_bank::noise_filter`, which dispatches the contract-bound
  polymorphic test, the literal-variation call rule, the constant table and
  each language's own idioms, and names the filter that fired. `noise`
  holds the older filters that parse Python, C# and Rust alone and check
  polymorphism by declared name. `body_shape` builds, encodes and digests a
  body's shape stream for the polymorphic test.
- `app/`: host glue that lays map-keyed corpus tables out as slices and reads
  real-valued scores against their floors.

Every public function states its result in `ensures` over spec functions;
the laws the library keeps are public proof functions beside the code they
speak of (names starting with `lemma_`).
