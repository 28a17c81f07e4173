//! Verified core of a content-addressed file renamer.
//!
//! A file is renamed to the upper-case hexadecimal SHA-256 digest of its
//! content, keeping its extension and its directory. This crate holds the
//! decisions of such a run and proves them with Verus; reading files,
//! listing directories and the rename itself are left to the caller, who
//! hands in what was read and carries out what is decided here.
//!
//! One file goes through [`get_new_name`], then [`rename_file`] under the
//! run's [`guard::ConflictGuard`], then [`rename::Granted::finish`]. A
//! directory goes through [`process_dir`] on the run's [`walk::Walker`].

pub mod cli;
pub mod digest;
pub mod guard;
pub mod input;
pub mod name;
pub mod outcome;
pub mod rename;
pub mod report;
pub mod walk;

pub use crate::name::get_new_name;
pub use crate::rename::rename_file;
pub use crate::walk::process_dir;
