# sapphillon_core

The rules at the heart of Sapphillon's workflow runner, verified with Verus:

- `check_path`: lexical path normalization (`.`, `..`, repeated `/`) and
  coverage of one path list by another through ancestry. Paths are read with
  Unix rules (`/` separators, no drive or UNC prefixes) on every platform.
- `check_url`: URL coverage (same scheme, host and port; a segment-aligned
  path prefix). Parsing goes through the `url` crate behind one trusted
  wrapper whose result is named, not described.
- `permission`: checking required permissions against granted ones, merging
  a permission set into its minimal covering form (one grant per group of
  grants that cover each other, every input grant still covered), and
  gathering the permissions granted to plugin functions. `permission_laws`
  proves what holds of every input (monotonicity, idempotence of merging,
  merging keeps every check's outcome unless a grant of an unknown type
  matches a required permission of that type, which merging drops, ...).
- `runtime`, `plugin`, `ext_plugin`, `workflow`: the decisions of the script
  runtime — recording captured stdout, turning an engine failure into an
  error, routing dispatched calls, the JS shims of external plugins, the
  sandbox capabilities of granted permissions, the record of a run.
- `proto`, `error`: the message and error types, and the error messages.

`app/` holds what stays outside verification: the serde/protobuf/thiserror
copies of the types, the plugin traits (which pass `serde_json::Value` and
are used as trait objects), the stable ABI of the JS engine, the Extism
client for WASM plugins, and the orchestration of a script run.
