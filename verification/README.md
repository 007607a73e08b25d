# linkscope

An in-process profiler for linker and compiler pipelines: phase totals, named
counters, memory checkpoints and a trace of spans and events, with a text report
and a Mermaid flowchart export. The library in `src/` is verified with Verus.

Layout:

- `src/lib.rs` — the `Profiler` state and the functions over it (`count`,
  `snapshot`, `profile`, `to_mermaid_markdown`, `reset_all`).
- `src/counters.rs` — named counters and the counter section of the report.
- `src/model.rs` — the flat `Snapshot` types.
- `src/profile.rs` — the `Profile` model and how it is built from trace nodes,
  with call sites and threads interned in tables.
- `src/mermaid.rs` — the flowchart: nodes in record order, edges to enclosing spans.
- `src/trace_render.rs` — the call-flow tree of the report.
- `src/report.rs` — the phase table of the report.
- `src/fmt.rs`, `src/text.rs` — number and text rendering.
- `src/order.rs` — stable ordering by an integer key.
- `app/` — the process-wide profiler behind a lock, printing to stderr and the
  JSON export.
