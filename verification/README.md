# cronyx

The front end of the Cronyx compiler — a statically typed language whose
compile-time code is ordinary Cronyx — written in Verus, with its behaviour
stated in contracts and proved.

## Layout

- `src/` — the verified library.
  - `parser.rs`, `meta_ast.rs`, `token.rs`: the syntax tree and the
    recursive-descent parser over a token stream.
  - `module_loader.rs`, `source_discovery.rs`: which files a program is made
    of, in which order they are loaded, and how `import "dir/*"` expands.
  - `meta_stager.rs`, `staged_ast.rs`, `staged_forest.rs`: staging a
    program into a forest of trees — the runtime tree and one tree per meta
    block — with the dependencies between them and the module bindings.
  - `meta_processor.rs`: the order in which trees are evaluated (each after
    the trees it depends on) and the report of a dependency cycle.
  - `types.rs`, `type_env.rs`, `enum_registry.rs`, `type_hints.rs`,
    `type_error.rs`, `type_var_verify.rs`: types, typing environments and
    type errors.
  - `error.rs`, `source_text.rs`, `eval_error.rs`: diagnostics and how they
    are rendered.
  - `tree_formatter.rs`, `meta_tree.rs`, `staged_tree.rs`: the text drawings
    of syntax trees used by the debug dumps.
  - `value.rs`: run-time values and how they print.
- `tests/` — tests of the library on concrete inputs.
- `app/` — the file-system and terminal edges: reading sources and
  directories, printing diagnostics, writing debug dumps.
