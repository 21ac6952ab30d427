# oxo_tui

The core of **oxo**, a keyboard-driven terminal viewer for logs: tailing,
LogQL queries with history and completion, label filters, search, column
and dedup views, the detail panel, analytics overlays and WebAssembly
plugins. The logic is written in Verus and proved against its contracts.

## Layout

- `src/` — the verified library. Each UI component is a state machine with
  a contract per operation (`src/components/`); `app_state.rs` holds the
  tabs and queries, `keymap.rs` and `modes.rs` route keys, `text.rs` holds
  the character-level helpers, `log_entry.rs` the entries and their
  timestamps, `plugin.rs` and `wasm_host.rs` the plugin registry and the
  wasmtime host. Calls into other crates (chrono, regex, serde_json,
  tui-input, crossterm, wasmtime) go through small trusted wrappers whose
  doc comments say what their contracts claim.
- `tests/` — tests of the library on concrete values.
- `app/` — the program around the library: the terminal, the backend
  connection, files, serde, and drawing with ratatui.
