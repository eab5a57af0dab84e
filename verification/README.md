# tinylua

A compiler for a small subset of Lua aimed at microcontrollers (AVR, with ESP32
planned): it reads a Lua program and writes the Rust source of a `no_std` firmware
that calls a small hardware layer. The library is verified with Verus: every phase
is stated as a function of its input and the code is proved to compute it.

Pipeline: `lexer → parser → sema → codegen`, then the firmware calls `hal`.

## Layout

- `src/text.rs` — character and decimal helpers.
- `src/token.rs`, `src/lexer.rs` — tokens and the lexer (`tokenize_spec` says what
  `Lexer::tokenize` returns; laws on the token stream at the end of `lexer.rs`).
- `src/ast.rs`, `src/parser.rs` — the syntax tree, in typed arenas, and the
  recursive-descent parser (`parse_spec`); `src/parser_laws.rs` proves that every
  syntax error points at a token.
- `src/sema.rs` — scopes, initialisation, recursion and intrinsic checks
  (`analyse_spec`); `src/sema_laws.rs` proves that errors accumulate (statement by
  statement), that the target only adds floating-point errors, that every expression
  node is typed, which names are in scope after a statement, and that an assignment
  in an inner block reaches the variable's declaration.
- `src/codegen.rs` — the generated Rust (`generate_spec`) and `can_generate`, which
  tells whether the generator handles a program; `src/pipeline_laws.rs` proves that
  it handles every program the analysis accepts, unless a function is defined inside
  a `while`, `if` or `for`.
- `src/hal.rs` — pin-to-register mapping and register values of the ATmega328P.
- `src/cli.rs` — the target named on the command line and the output path.
- `app/` — the command-line program and the memory-mapped register access.
- `tests/` — the test suite.
