# doo

The front end of the `doo` language, verified with Verus: the lexer, the
parser, the semantic analyzer, the lowering to MIR and the diagnostics that
report what goes wrong.

- `src/lexar/`: the lexer, with a specification of the token stream
  (`spec.rs`) and laws about it (`laws.rs`).
- `src/parser/`: the syntax tree and its models (`ast.rs`), and the
  recursive-descent parser with the grammar it follows written as spec
  functions (`parser.rs`).
- `src/analyzer/`: scopes, types and the checks of the semantic analysis.
- `src/mir/`: the MIR, its lowering from the syntax tree, the final cleanup
  (`cleanup.rs`, with the law that cleaning up twice changes nothing) and
  its text form.
- `src/diagnostics.rs`: the text of error reports, grouped by file.
- `src/compiler.rs`: the checking pipeline of one source file.
- `app/`: the command line, file I/O and printing.

Native code generation (LLVM) is not part of this crate.
