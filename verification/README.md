# velra

The stage-0 toolchain of the Velra language, verified with Verus: the lexer,
the recursive-descent parser, the `VELRA-AST-1` artifact format (writer and
loader), and the integer, index and type-contract rules of the runtime.

Layout of `src/`:

- `text.rs`, `numbers.rs`: characters, UTF-8 widths, decimal and float text.
- `lexer.rs`: `lex`, proved equal to the specification `lex_spec`.
- `grammar.rs`: the grammar as functions on token sequences; `parser.rs`
  computes exactly these functions, error messages and offsets included.
- `ast.rs`: the syntax tree and its mathematical view.
- `form.rs`, `compiler.rs`, `artifact.rs`: the S-expression forms, the
  artifact writer and the loader, each against a specification.
- `roundtrip.rs`: the proof that every program the parser can produce loads
  back from its artifact unchanged.
- `diagnostics.rs`: line and column of an error, and its one-line report.
- `runtime.rs`: checked integer arithmetic, index and slice normalisation,
  arity and type checks.

`app/` holds the command-line program and the tree-walking evaluator, whose
values carry floating-point numbers and shared mutable collections.
