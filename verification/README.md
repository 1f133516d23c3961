# yora

Front ends, back ends and an interpreter for Yora, a small indentation-based language,
written in Verus: each function states what it does in its contract over a mathematical
model, and Verus proves it.

- `src/syntax_analysis`: lexer, parser and analyzer of the language with procedures,
  arrays and control flow, and `produce_ast`, which runs them in turn.
- `src/interpreter`: the interpreter; `semantics.rs` states how a run goes, `mod.rs`
  runs it and is proved to follow it, `fuel.rs` proves that the bound on a run's length
  changes nothing but where a run stops, and `scopes.rs` that calls and blocks leave
  the number of variables and the scopes as they found them.
- `src/yora_compiler`: the compiler of the expression language (lexer, parser, analyzer,
  three-address code, optimiser, x86-64 assembly, command line), with `minimal/` for the
  first dialect (`exit(2 + 3);`).
- `src/compiler`: the fixed-width types, the intermediate code, its generation from the
  back end's syntax tree (`ir_gen.rs`) and its assembly.
- `src/types.rs`, `src/symbols.rs`, `src/positioned.rs`, `src/text.rs`: shared types,
  tables and text helpers.
- `app/`: the two programs, `yora` (interpreter) and `yora-compiler`, which read files,
  run `nasm` and `ld`, and print.
