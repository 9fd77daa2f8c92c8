# pata

The toolchain of the Asili language: the `pata` command line (build, test, run, format,
verify, add dependencies, new projects, REPL), the Mwalimu language server, a debug adapter,
a linter and a formatter.

- `src/` is the library, verified with Verus: argument handling of every subcommand,
  `pata.toml` reading (through the `toml` crate) and editing, the lint settings, the canonical token-stream formatter, the lint rules, the
  module-import walk (a state machine the caller feeds with lookups), duplicate-import and
  name-merging checks, `#[sharti(...)]` target filtering, build-cache keys and manifests, the
  editor features (hover, semantic tokens, completion, outline, navigation, references,
  signature help, folding, code lenses, formatting edits, diagnostic ranges), markdown help
  rendering (through `pulldown-cmark`), the editor's per-document diagnostics cache, and the
  debug session's request handling. Contracts are stated over `Seq`, `Map`
  and the types' views; the laws the library keeps are public proof functions.
- `tests/` runs the library on concrete inputs.
- `app/` is the program around it: files, processes, the terminal, the JSON-RPC and DAP wire
  protocols, the formatter settings (decoded by serde), and the Asili lexer, parser and
  evaluator.
