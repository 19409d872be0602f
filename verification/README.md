# semantic_graph_extract

The verified core of a code-fact extractor that turns language-server answers
into graph records: which symbol references which, which method calls which,
and how a run reports its progress and totals.

Layout:

- `src/` — the library, written in Verus. Every function states what it returns
  in its contract and is proved against it.
  - `model.rs` — symbols, files, references, calls and their views.
  - `symbols.rs`, `targets.rs` — symbol kinds, ranges, the deepest symbol that
    contains a location, and the symbols that relations are asked for.
  - `references.rs`, `calls.rs`, `grouping.rs` — mapping resolved references and
    incoming calls onto a batch's symbols, grouped into edges.
  - `fingerprint.rs` — the workspace fingerprint (SHA-256 over sorted entries).
  - `origin.rs` — restricting a relation batch to its origin files.
  - `batch.rs`, `work_items.rs` — batch checks, combining batches, fresh files,
    and per-file analysis jobs.
  - `paths.rs`, `lsif.rs`, `lsif_discovery.rs` — Unix path components, file URIs
    and Rust source discovery from `rust-analyzer lsif` output.
  - `symbol_mapper.rs` — mapping a document-symbol hierarchy to symbols and
    contains relations, in preorder.
  - `write_batch.rs`, `persist_steps.rs` — the records a file's symbol batch
    writes, and the decisions of the per-file relation routes.
  - `cli.rs`, `modes.rs` — the command line and the run modes it selects.
  - `progress.rs`, `routes.rs`, `config.rs`, `summary.rs`, `error.rs`,
    `providers.rs` — progress lines, route names, run configuration, totals,
    errors and providers.
- `tests/` — tests run against the compiled library.
- `app/` — the I/O edge: processes, files, standard error, JSON and protocol
  types, handing plain values to the library.
