//! Compatibility rules for single applications of an input method.
//!
//! A rule corrects or overrides how the input method treats one process: where the candidate
//! window is placed, when it is first shown, which language state the process starts in. A scope
//! restricts the initial language state of a process to some of its windows. Both stand in a TOML
//! file, `compat.toml`, of which there may be three: the system's, the vendor's and the user's.
//! A rule of a later file replaces the whole rule of an earlier one for the same process, except
//! that the guard `composition_start_pair_guard` is inherited where it is not set.
//!
//! - [`mode`] and [`config`] hold the choices that a rule can make.
//! - [`rule`] holds rules and scopes, and edits rules in place.
//! - [`merge`] puts one layer over another.
//! - [`compat`] answers questions about the rules in force.
//! - [`codec`] says how rules and scopes stand in a TOML document.
//! - [`compat_file`] reads files and writes the user's.
//! - [`toml_tree`] holds the calls into `toml` and `toml_edit`, [`text`] those into `str`.
//! - [`meaning`] says of each operation what its result is, and [`laws`] what holds across them.

pub mod codec;
pub mod compat;
pub mod compat_file;
pub mod config;
pub mod laws;
pub mod meaning;
pub mod merge;
pub mod mode;
pub mod rule;
pub mod text;
pub mod toml_tree;
