# tauricode

The coordination core of an agent ecosystem, written in Verus: every
function in `src/` carries a contract that the verifier proves, except a
few small wrappers around single standard-library calls (pushing a
character, UTF-8 decoding, path joining and prefix tests, the clock, debug
quoting, `char::from_u32`), whose contracts are trusted.

- `runtime` — the agent-runtime contract: handles and their lifecycle,
  normalized runtime events, an in-memory adapter, the OpenCode adapter's
  bookkeeping, and the normalizer of OpenCode log lines.
- `observer` — one read-only scan of the ecosystem: git probe output read
  into repository state, `/proc` text read into process facts, identity
  records correlated with live processes, and the snapshot assembled from
  them.
- `scheduler` — `tasks.my` files parsed into one global task graph, task
  states derived from dependencies, routing candidates per agent, and the
  plan's text and JSON sections.
- `swarm` — the `swarm-cli` adapters: argument parsing, the swarm/1 wire
  forms and their structured answers, a strict JSON reader, JSON/YAML
  output, and task import/export (JSON, GitHub issues, Markdown notes).
- `dashboard` — the desktop dashboard's lookups, seed data and runtime
  panel.
- `text` — text helpers shared by all of the above.

`app/` holds what reaches outside the process (files, git, `/proc`, TCP,
child processes, the Tauri windows) and what is computed in floating point
(priority scores, node telemetry); it hands plain values to the library and
acts on what comes back.

Maps keyed by text (the lifecycle registry, the adapters' per-handle
records, the dashboard's traces and phonemes) are kept as lists of
`(key, value)` pairs whose keys are pairwise distinct (`runtime/keyed.rs`,
`dashboard/swarm_dashboard.rs`), not as `HashMap`s: the specification vstd
gives `HashMap` says nothing useful about lookups when the key is a
`String` or a struct of this crate, while a list with a distinct-key
invariant lets every lookup and update be stated exactly. Maps keyed by
integers (identity records by pid) stay `HashMap`s.
