# rsmt2

Printing of SMT-LIB 2 commands for a solver running as a child process, and
parsing of the solver's answers.

- `src/common.rs`: the `PrintSmt2` trait, logics, decimal numbers and the
  printers of lists.
- `src/conf.rs`: the solver-specific configuration (options, the
  check-sat-assuming command, support of reset).
- `src/solver.rs`: the solver's commands; each appends its exact text to the
  solver's pending output.
- `src/text.rs`: lines of a text, the comment blocks made of them, and the
  quoting of string literals.
- `src/parse.rs`: one-step parsers of the answers `success` and `check-sat`.
- `app/lib.rs`: the process around the library: it spawns the solver, sends
  the pending text and reads the answers.

Every function under `src/` is verified with Verus against its contract.
