# ai_store

An append-only store of JSON Patch events. Each stream is a log of patches; the
state of a stream at a coordinate is what the patches up to there make of JSON
null. The library is written in Rust and proved with Verus.

- `src/log.rs`, `src/state.rs`, `src/event.rs`: the log and what it means.
- `src/backend.rs`, `src/faults.rs`, `src/mem/`: what a backend has to do, how it
  may fail, and one in memory.
- `src/store/`: the store. `laws.rs`, `write_laws.rs` and `sink_laws.rs` hold
  what is true of it as a whole.
- `src/gate.rs`, `src/kind_gate.rs`, `src/upcaster.rs`, `src/sink.rs`,
  `src/dispatcher.rs`, `src/dispatch.rs`: what takes part in a write or a read.
- `src/sqlite/`: the SQL texts, rows and decisions of the SQLite backends and
  the read model.
- `src/projection/`: the files that a stream is projected to.
- `src/json.rs`, `src/text.rs`: the calls into `serde_json`, `json-patch` and the
  standard library, with what is claimed of them. `src/json_laws.rs` says which
  JSON texts are read back as they are.
- `app/`: the connections, files and tasks around the library.
