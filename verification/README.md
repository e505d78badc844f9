# leaf: parser and interpreter core, verified

A library for the `leaf` language, written in Verus. Every function in `src/`
carries a `requires`/`ensures` contract that Verus proves, except two small trusted
wrappers in `src/text.rs` around `String::push` and `std::str::from_utf8`, whose
contracts are believed from std's documentation.

Layout:

- `src/text.rs` — characters, strings, joining and decimal text.
- `src/parser/` — tokens (`tokenizer/`), identifiers, types and their text
  (`types.rs`, `type_parse.rs`, `type_text.rs`), parse errors (`fault.rs`), the
  expression builder (`ast/builder.rs`) proved against the grammar in
  `ast/grammar.rs`, and module sources (`leafmod.rs`).
- `src/ir.rs`, `src/ir/bridge.rs` — the lowered program and the builtin functions
  that it may call by index.
- `src/interpreter/` — the interpreter: its meaning (`semantics.rs`, a function of
  the program, the expression, the parameters and a step budget), the builtins, and
  the `Runner` that is proved to compute exactly that meaning.
- `app/` — what touches the file system: whether a module's file exists, and paths.
- `tests/` — tests on concrete values.

Where the language's reader or interpreter panics on an input, the plain entry
points (`AstBuilder::run_chunk`, `Type::parse`, `Runner::start`) leave that input
out by their precondition; `try_run_chunk`, `Type::try_parse` and
`Runner::try_start` take every input and report such a panic as `Outcome::Panics`.

The laws that hold across functions are public proof functions whose names start
with `law_`.
