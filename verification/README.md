# recall

Cross-session semantic memory for AI coding assistants: session transcripts and
project `.memory/` notes are chunked, embedded locally and stored in SQLite for
hybrid BM25 + vector search.

## Layout

- `src/` — the library, verified with Verus. The program's parsing, planning
  and classification decisions are stated in `requires`/`ensures` contracts
  and proved; what stays in `app/` is I/O, the loops that drive it, and the
  floating-point search ranking:
  - `text`, `num` — string and number primitives over `Seq<char>`.
  - `sessions`, `json` — transcript formats (three JSONL dialects) read from
    `serde_json` values.
  - `chunking` — conversation and markdown chunking, room classification,
    front-matter types.
  - `imports` — store keys, the content-hash gate, orphans, per-file plans.
  - `wing` — canonical wing names and the wing-merge plan.
  - `model`, `archive`, `release` — embedding models, the ONNX Runtime and
    release downloads, and picking files out of `.zip` / `.tar.gz` archives.
  - `config`, `telemetry`, `crash`, `logging`, `guard`, `health`, `corpus`,
    `dates`, `hash`, `commands` — settings files, usage statistics, crash
    reports, log routing, timeouts and lock contention, health reports,
    date arithmetic, content hashes and command-line decisions.
- `tests/` — tests of the library.
- `app/` — the program: command line (clap), SQLite store (rusqlite), the
  embedding model (fastembed), hybrid search (floating point), files, network
  and terminal.

`ort-sys` is named only to select its `load-dynamic` feature without its
default download of a prebuilt runtime: the runtime is fetched by the program
itself (`model`, `archive`).

Public proof functions state the laws the library keeps, for example
`wing::lemma_normalize_wing_idempotent`, `config::lemma_telemetry_file_roundtrip`,
`config::lemma_version_newer_strict` and
`logging::lemma_active_iff_some_init_succeeded`.
