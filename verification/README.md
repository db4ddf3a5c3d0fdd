# roole

A solver front end for SMT-LIB-2 problems in the quantifier-free bitvector
logic, written in Verus: each function of the library carries a contract
that Verus proves, except the few trusted wrappers around calls into
outside crates (`indexmap`, `bimap`, `vec1`, the SMT-LIB-2 reader of
`aws_smt_ir` and `num`), whose contracts are believed as stated in their
doc comments.

Layout:

- `src/domain` — bitvectors with their bounds, three-valued logic,
  parametric valuations and three-valued bitvectors.
- `src/problem` — formulas, operations and problems; the linear abstraction
  of operation results (polynomials, relations and systems over slices of
  formula results) with its laws; concrete evaluation and the three-valued
  if-then-else step; renumbering of
  formulas; satisfiability proofs and their SMT-LIB text.
- `src/parser` — reading SMT-LIB-2 text into commands (`input`), and the
  command and term parser, stated over a model of the scopes, variables,
  operations and assertions it builds.
- `src/formula.rs` — the first, smaller operation set with its text form.
- `src/exit.rs` — the exit codes of results.
- `app/` — the command-line program: reads the file's bytes, hands the
  commands the library reads from them to the parser and exits with the
  code of the result.
- `tests/` — tests on concrete values.
