//! A small PKGBUILD reader: parses the assignments, lists and shell
//! functions of a PKGBUILD manifest and expands `$pkgname`-style references.
pub mod reader;
pub mod error;
pub mod grammar;
pub mod text;
pub mod pkgbuild;
pub mod expand;
pub mod state;
pub mod sending;
pub mod progress;
pub mod args;
pub mod locality;
pub mod writing;
