# lust

A small Lisp whose lexer, parser, printer, environment and evaluator are
written in Verus and proved against their specifications.

- `src/number.rs` — decimal numbers in canonical form, and their text.
- `src/lexer/` — characters to tokens, each step following `lex_step`.
- `src/parser/` — tokens to syntax trees, one top-level form at a time.
- `src/ast/` — the syntax tree, its view, and the text that shows it.
- `src/state/` — namespaced bindings chained to enclosing scopes
  (`mod.rs`, with its laws in `laws.rs`), the meaning of evaluation as
  functions over views (`semantics.rs`), the host it asks and what an
  answer from it is (`host.rs`), the evaluator proved to follow it
  (`eval.rs`), and laws of evaluation: what forms give (`eval_laws.rs`),
  that the depth limit only cuts evaluation short (`depth_laws.rs`), and
  that evaluation keeps the enclosing states (`scope_laws.rs`).
- `app/` — the `lust` command: command-line options, files, the interactive
  session, and the host that does arithmetic in `f64`.

The evaluator asks its `Host` for every arithmetic result, comparison and
file. It records each question with the reply in a ghost log, and its
contract says that the result is what the definitions give for those
replies, and that each reply came from a call of the host method that the
question names, on the question's own arguments.
