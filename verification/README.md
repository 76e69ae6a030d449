# rlox

A front end and interpreter for the Lox language, with its core proved
correct in Verus.

- `src/` is the verified library: the tokenizer (a finite-state machine over
  characters), the recursive-descent parser, the printer of syntax trees, the
  resolver of variable scopes, the store of environments, the messages of
  lexical, syntax and resolution errors, and the report shown for a runtime
  error. Each public function's contract states its result
  exactly, over public spec functions that describe the language
  (`spec_tokens`, `spec_parse`, `spec_resolve`, `show_ast`, ...). The grammar
  rules are opaque: a proof that needs one unfolds it with `reveal`.
- Number tokens carry the displayed form of their text as literal (`12.0`
  for `12`, `3.5` for `3.50`), computed on the text. It is what Rust prints
  for the number's `f64` value whenever the literal has at most 15
  significant digits and its value is zero or lies in `[1e-307, 1e15)`; the
  command formats other literals through `f64`. The parser keeps each number
  in the same form (`number::printed_number`).
- `app/` is the `rlox` command (`tokenize`, `parse`, `evaluate`, `run`): file
  input, printing, evaluation, whose values are floating-point numbers, and
  the texts of runtime errors, which show such values. It keeps its
  variables in the library's store of environments, and binds a call's
  parameters with `Environments::bind_call`.
- `tests/` runs the library on concrete programs.
