# airl

The front end and contract machinery of the AIRL language, written in Verus.
The library's functions carry contracts that Verus proves; what they claim of
the outside code they call (a few std functions) stands in the doc comments
of the trusted items in `src/`.

Layout of `src/`:

- `span`, `token`, `text`, `chars`, `diagnostic`: source positions, tokens,
  string helpers and error reports.
- `lexer`, `sexpr`: text to tokens, tokens to S-expressions.
- `ast`, `parser`, `forms`, `toplevel`: the syntax tree and the parsers for
  types, expressions, patterns and top-level forms; `printer` writes
  expressions back as source (`source_pieces` does so for any expression,
  leaving float literals of patterns to the caller's float formatting),
  `debug_text` writes the `{:?}` text of syntax trees that error messages
  quote.
- `value`, `error`, `env`, `pattern`: runtime values, errors, the scoped
  environment with move and borrow tracking, pattern matching.
- `bytecode`, `ir`, `ir_marshal`, `jit_contract`: bytecode and IR decoding
  and validation.
- `solver`, `cache`, `cache_roundtrip`: verification results, the in-memory
  proof cache and the on-disk cache with its line format (and the proof that
  written lines load back).
- `smt`, `translate`, `prover`, `plan`: the solver term language, the
  translation of contract expressions into it, and the plan of what to ask
  the solver about a function together with the conclusions drawn from its
  answers. The solver itself is a parameter: the library states which goal
  under which assumptions each answer belongs to, not what the solver says.

`app/` holds what touches the outside world: reading and writing the cache
file, float formatting of values, the per-thread slot through which compiled
code reports contract failures, and Z3 (`app/solver.rs`), which turns terms
into Z3 expressions, answers the plan's questions and gives the prover's
`verify_function` and `inductive_verify` entry points (naming each clause
by its source text, floats written with Rust's formatting).

Not here: the tree-walking interpreter, the IR and bytecode virtual machines
(their execution), tensor values, and compiling or linking executables. They
rest on runtime and code-generation crates of the same project that are not
part of this one, and on float arithmetic.
