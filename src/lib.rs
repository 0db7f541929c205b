//! Searching directory trees for directories, files or file contents that
//! match a regular expression.
//!
//! Walking the filesystem and reading files happen outside this library:
//! it receives the walked entries and the bytes read from files as plain
//! values, and decides which of them are results.

pub mod pattern;
pub mod entry;
pub mod content;
pub mod search;
pub mod laws;
