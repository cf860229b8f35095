# gnc

A small scripting language for `.gn` files: a lexer, a recursive-descent
parser and a tree-walking interpreter, verified with Verus.

## Layout

- `src/scanner.rs`, `src/lexer.rs`, `src/token.rs` — reading characters into
  tokens; `spec_next_token` is the grammar of one token.
- `src/ast.rs`, `src/parser_spec.rs`, `src/parser.rs` — the syntax tree and the
  parser; `spec_program` is the grammar of a program.
- `src/value.rs`, `src/semantics.rs` — runtime values, the heap, and what
  evaluating an expression and executing a statement mean (`spec_eval`,
  `spec_exec`, `spec_run`).
- `src/interpreter.rs` — the interpreter, proved to agree with `semantics.rs`.
- `src/builtin/` — the builtin functions on arrays, strings and dictionaries.
- `src/context.rs`, `src/module.rs` — the running file and module bookkeeping.
- `src/runner.rs` — source text to tokens to program to run.
- `src/laws.rs` — properties across operations: reading a variable after a
  write, scopes restored after calls, array builtins undoing each other,
  running a program in parts, printing failing only for values that hold
  themselves.
- `src/handles.rs` — every handle in a running machine points at something,
  so no run fails with `Dangling`.
- `app/main.rs` — the command-line program: file reading, the floating-point
  numbers of the language, printing.

## Numbers

The interpreter never computes on numbers itself. It asks a `Number`
implementation (the command uses `f64`) and records every question with its
answer in a ghost log on the heap. The trait names each operation by a spec
function, and every recorded answer is that function's value for the
question (`honest`). The semantics reads the answers from the record.

## Budget

Each loop may take at most `budget` rounds and calls may nest at most
`budget` deep; past that a run stops with `StepLimit`. `Interpreter::new`
uses the largest budget.
