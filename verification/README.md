# lispy

A small Lisp interpreter whose reader and evaluator are verified with Verus.

- `src/parser.rs`: the reader, from bytes to forms, with its grammar stated
  as spec functions.
- `src/eval.rs`: the evaluator (special forms `quote`, `if`, `fn`, `def`,
  `let`; calls of built-ins and user functions), against `eval_spec`.
- `src/built_in.rs`: the built-in functions and the initial environment.
- `src/render.rs`: the text of an evaluation's outcome.
- `src/keys.rs`: values in which every evaluated map holds each key once;
  `eval` prints its outcome in that form.
- `src/driver.rs`: one line of the read-eval-print loop, and a whole file of
  forms followed by `(main!)`.
- `src/laws.rs`: properties that span several functions.
- `app/main.rs`: the command line (`lispy repl` or `lispy <file>`).

Evaluation is bounded by a nesting budget; a form that does not finish
within it fails with `Pending`. `eval` runs with the largest budget, so that
in practice only the machine's stack bounds it. Integer overflow is reported as
`IntegerOverflow`.
