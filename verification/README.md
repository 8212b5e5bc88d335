# wind_config

Compatibility rules for single applications of an input method, verified with Verus.

A rule corrects or overrides how the input method treats one process; a scope restricts the
initial language state of a process to some of its windows. Rules and scopes come from up to three
`compat.toml` files (the system's, the vendor's and the user's), later ones over earlier ones, and
the menus write the user's file back.

- `src/` is the library. Every function has a contract that Verus proves, down to the calls into
  the crates `toml` and `toml_edit`, which `src/toml_tree.rs` declares, and two methods of `str`,
  which `src/text.rs` declares. `src/laws.rs` states what holds across functions.
- `app/` reads and writes the files.
- `tests/` runs the library on concrete values.
