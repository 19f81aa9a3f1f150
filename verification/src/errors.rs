//! The error taxonomy of the filesystem core.
//!
//! Every operation reports a failure as one of three kinds: a failed
//! filesystem call carrying the underlying cause as text, an attempt to
//! create a file over an existing entry, and bytes that could not be
//! decoded as text.

use vstd::prelude::*;

verus! {

/// An error of a single filesystem-core operation.
#[derive(Debug)]
pub enum FsError {
    /// A filesystem call failed; the payload carries the underlying cause
    /// as human-readable text supplied by the caller that made the call.
    Io(String),
    /// A file-creation request found an entry already at the path.
    AlreadyExists,
    /// Bytes read from a file were not validly decodable as text.
    Decode,
}

impl FsError {
    /// The human-readable message that crosses the system boundary.
    pub fn message(&self) -> (r: String)
        ensures
            self is Io ==> r@ == self->Io_0@,
            self is AlreadyExists ==> r@ == "File already exists"@,
            self is Decode ==> r@ == "File content is not valid text"@,
    {
        match self {
            FsError::Io(cause) => cause.clone(),
            FsError::AlreadyExists => String::from_str("File already exists"),
            FsError::Decode => String::from_str("File content is not valid text"),
        }
    }
}

} // verus!
