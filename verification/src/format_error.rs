//! Errors of the file format parsers.
use vstd::prelude::*;

verus! {

/// Error type for format parsing.
#[derive(Debug, Clone, PartialEq, Eq)]
pub enum FormatError {
    /// Invalid file header or magic bytes
    InvalidHeader,
    /// Unexpected end of file
    UnexpectedEof,
    /// Unsupported format version
    UnsupportedVersion,
    /// I/O error
    Io(String),
}

} // verus!
