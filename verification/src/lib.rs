//! Verified core of a benchmark-evaluation harness for code-migration agents.
//!
//! The library models the on-disk task layout (one directory tree per repeat
//! of an agent run), the dispatch status machine, the validation runner's
//! discovery and outcome rules, and the metadata file format.  All
//! filesystem, process and network work is left to a thin unverified shell
//! that feeds this library plain values.

pub mod bench;
pub mod commands;
pub mod errors;
pub mod eval;
pub mod json;
pub mod parse;
pub mod text;
pub mod ui;
pub mod utils;
pub mod validate;
