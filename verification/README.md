# copilot_core

The decision logic of a desktop work copilot, written in Verus and proved
against its contracts: plans and their dependency order, the execution
scheduler and its checkpoints, the autonomous session's budgets, recovery
and approval checkpoints, template resolution over an execution context,
the tool-calling loop's rounds, the bookkeeping of streamed responses, the
copilot's replies (intents, search queries, workspace lists, activity
summaries, daily briefings, suggested actions), and the execution memory
(capture, fingerprints, learned workflows and their families, duplicates,
lineage, retention, export and import, failure rules, success trends, the
embedding cache and the stored form of embeddings).

## Layout

- `src/` — the verified library. Each module states its model with spec
  functions and views; public functions carry `requires`/`ensures` over
  that model, and the laws that relate several functions are public proof
  functions (`lemma_*`).
- `src/ids.rs`, `src/text.rs`, the date formatting in `src/trends.rs`, and
  the hashing and lower-casing wrappers in `src/memory.rs` and
  `src/vector.rs` are the trusted edge: thin calls into `uuid`, `chrono`
  and `std` whose contracts are stated, not proved.
- Times are nanoseconds since the Unix epoch (`i128`), as exact as the
  `chrono` values they stand for; the figures that count in whole
  milliseconds (ages, trends) take them down with `ids::millis`.
- `tests/` — tests of the library on concrete values.
- `app/` — ordinary Rust around the library: identifier, time and JSON
  conversions for the host application, serializable copies of status
  types, and the floating-point figures (embeddings, similarities, learned
  scores, freshness, severities, rates, the closeness of goal embeddings
  for workflow families) that cannot be verified here, and the loops that
  drive the verified decisions: the autonomous session (`app/runtime.rs`)
  and a scheduling round of the execution engine (`app/engine.rs`), each
  over a host trait that plans, runs, waits and stores.
