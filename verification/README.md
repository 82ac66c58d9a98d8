# r_python

A small Python-like language — RPython — with a parser, a type checker, an
interpreter, a pretty printer and a compiler to three-address code. The
library is written in Verus: each public function states what it does in its
contract, and the laws of the language (how scopes resolve names, what a
declaration binds, how branches of a conditional are joined, how the
generator numbers temporaries) are proved as public proof functions.

## Layout

- `src/ast.rs` — types, expressions, statements and functions, with their
  mathematical views.
- `src/parser.rs`, `src/parser_stmt.rs` — the grammar of types, expressions,
  statements and programs, as spec functions over the characters of the
  source, and the parsers that follow them.
- `src/environment.rs`, `src/table.rs`, `src/test_map.rs` — scopes and the
  environment, with the order in which `test` definitions were made.
- `src/type_checker.rs`, `src/type_ops.rs` — the type checker and type texts.
- `src/debug_text.rs` — the debug texts of types, expressions and statements
  that error messages quote.
- `src/adt.rs` — constructor lists of data types kept sorted by name, each
  name once, so that equal lists mean equal constructor maps.
- `src/interpreter.rs` — evaluation and execution with a step budget, and the
  test runner.
- `src/tac.rs` — three-address code and the code generator; `src/tac_fresh.rs`
  proves that temporaries and labels are never reused.
- `src/pretty.rs`, `src/pretty_ast.rs` — a document layout engine and the
  pretty printer of programs.
- `src/source_files.rs`, `src/lexical.rs`, `src/text.rs` — small helpers.
- `app/main.rs` — the command line: `r-python compile FILE.rpy [--emit tac|assembly] [-o OUT]`.
- `tests/` — tests of the library on concrete programs.
