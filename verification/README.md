# otopoiesis (verified core)

The verified library of otopoiesis, a constructive sound design environment.
`src/` holds the code with its specifications and proofs; `app/` is the
thin program around it.

- `lang/` — the expression language: expression storage (`expr`, `parser`),
  the grammar from tokens to stored expressions (`grammar`),
  scoping (`environment`), type inference (`typing`), evaluation
  (`compiler`), the built-in functions and fade arithmetic (`builtin_fn`),
  error reports (`error`) and writing expressions back as text
  (`stringifier`).
- `action` — undoable edits of a project: adding regions and tracks, and
  wrapping a region in a fade, each with a proof that undo restores the
  project.
- `data`, `cli`, `audio`, `filemanager` — the application's data: launch
  arguments, value types, scripting environments, generator parameters,
  playback state, and which generator a script value stands for.
- `store` — the arenas of `id_arena` and the interner of `string_interner`,
  with the contracts the library relies on.

Numbers of the language are `f64` values; the library keeps them as bit
patterns, and `app/` does the floating-point arithmetic (fade gains, sine
samples, decimal output).
The grammar starts from tokens: turning source text into tokens, with its
reading of decimal numbers into floating point, is not part of the library.
