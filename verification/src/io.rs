//! Errors raised when a configuration file cannot be read or parsed.
//!
//! The reading itself happens at the crate's boundary; the caller records what
//! went wrong in these types, and the synchronizers carry them through their
//! own error enums.

use vstd::prelude::*;

verus! {

/// Reading or parsing the file at `path` failed.
#[derive(Debug)]
pub struct FromFileError {
    pub path: String,
    pub kind: FromFileErrorKind,
}

/// What failed, with the underlying cause rendered as text.
#[derive(Debug)]
pub enum FromFileErrorKind {
    ReadFile(String),
    Parse(String),
}

} // verus!
