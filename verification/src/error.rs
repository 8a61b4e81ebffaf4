//! The failures the library reports.

use vstd::prelude::*;

verus! {

/// A recoverable failure.
#[derive(Debug, PartialEq, Eq)]
pub enum Error {
    /// The backing store failed; the text is the backend's own.
    Store(String),
    /// Bytes that do not have the shape of the primitive they should encode.
    Decode,
    /// A record with more fields than there are one-byte path segments.
    TooManyFields,
    /// The field declared at position `index` of a record failed with `cause`.
    Field { index: u8, cause: Box<Error> },
}

} // verus!
