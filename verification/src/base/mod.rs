//! What every tool uses apart from its picker: text made safe to print, fuzzy
//! matching, base directories, shell detection and the schema check.

pub mod completions;
pub mod fuzzy;
pub mod laws;
pub mod sanitize;
pub mod sqlite;
pub mod xdg;
