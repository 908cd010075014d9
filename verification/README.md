# ink_rs

A library for a subset of the [ink](https://github.com/inkle/ink) narrative
scripting language, written in Verus: the behaviour of each function is stated
in `requires` / `ensures` contracts over mathematical models, and proved.

- `src/parser.rs`: a line-oriented parser of ink source (text lines, diverts,
  knots); `spec_story` and `spec_diagnostics` say what a source text means.
- `src/codegen.rs`, `src/compiler.rs`: generation of ink runtime JSON from the
  syntax tree, strict mode, and canonical JSON text.
- `src/ink_json.rs`, `src/model.rs`: loading runtime JSON into containers of
  runtime nodes.
- `src/runtime.rs`: a minimal story runtime that reads the root content line by
  line.
- `src/cli.rs`, `src/protocol.rs`, `src/paths.rs`: what the command line tool
  reports.
- `src/laws.rs`: properties across functions, such as that a generated
  document loads back and reads as the story's text.
- `src/json.rs`: the calls into `serde_json`, each with the contract that the
  rest of the library relies on.

`app/` holds the command line tool (`inklecate`-style compile and play) and a
differential harness; `tests/` holds the tests.
