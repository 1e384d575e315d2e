//! The library's error type.
use vstd::prelude::*;

verus! {

/// What can go wrong in the library's own computations.
#[derive(Debug, Clone, PartialEq, Eq)]
pub enum UtilesError {
    /// A quadkey held a character other than `0`, `1`, `2` or `3`; the
    /// message says so.
    InvalidQuadkeyChar(String),
    /// A filesystem path had no usable file name; the message says which part failed.
    InvalidFspath(String),
    /// A hash-type name that the library does not know.
    UnknownHashType(String),
    /// A zoom outside the range that an operation accepts.
    InvalidZoom,
}

} // verus!
