# genc front end

The semantic front end of `genc`, a C-like language: the syntax tree, name
resolution and type checking, written in Verus with their contracts proved.

- `src/semantic/ast`, `src/semantic/node`: the syntax tree and its node ids.
- `src/semantic/nameres`: scopes, definitions and name resolution. `rules.rs`
  states as spec functions what resolving each kind of node does to the
  environment; `resolve.rs` implements it and proves it does exactly that,
  never fails, and leaves every id it hands out defined; `laws.rs` holds the
  properties of scopes, definitions and declaration.
- `src/semantic/typeck`: type checking into a high-level IR (`hir`), with its
  rules in `rules.rs`.
- `tests/`: resolution and type checking run on small syntax trees.
- `app/`: rendering diagnostics as text, which needs `Display`.
