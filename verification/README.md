# epsh

An embeddable POSIX shell whose core is written in Verus: the lexer, parser,
word expansion, arithmetic, `test`, pattern matching, redirections, the
builtins and the evaluator live in `src/` with their contracts proved.
Everything the shell does to the system (running programs, files, the
clock, the cancel flag, signals) goes through the `Host` trait, which
`app/` implements for the real operating system; `NullHost` in `src/` is a
host with no programs and no files.

Layout:

- `src/lexer.rs`, `src/token_syntax.rs`: tokens, with the exact token
  grammar as spec functions.
- `src/parser.rs`, `src/word_syntax.rs`, `src/ast.rs`: the command tree and
  word parts.
- `src/expand.rs`, `src/arith.rs`, `src/glob.rs`, `src/test_cmd.rs`:
  expansion, arithmetic, pattern matching, `test`.
- `src/eval.rs`, `src/builtins.rs`, `src/redirect.rs`: the evaluator.
- `src/var.rs`, `src/encoding.rs`, `src/shell_bytes.rs`, `src/text.rs`:
  variables and text.
- `app/`: the `epsh` program and the real host.

Evaluation is bounded by a step budget (`fuel`); embedders can also stop a
shell through the host's cancel flag (`ShellBuilder::cancel_flag`) or a
deadline (`ShellBuilder::timeout`). Output collects in the shell and is
taken with `take_stdout` and `take_stderr`.
