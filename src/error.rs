//! Errors that writing a document can meet.

use vstd::prelude::*;

verus! {

/// An error that can occur when writing PSD data.
#[derive(Debug, Clone, Copy, PartialEq, Eq, Structural)]
pub enum WriteError {
    /// The image compression is not supported.
    UnsupportedCompression,
    /// The image is invalid: a channel was asked for with no rows, or the
    /// dimensions do not agree with the data.
    InvalidImage,
    /// A length or a count does not fit the field of the format that holds it.
    WriteFailure,
}

impl WriteError {
    /// A sentence that describes the error.
    pub fn message(&self) -> (r: &'static str)
        ensures
            r@ == match *self {
                WriteError::UnsupportedCompression => "The image compression is not supported."@,
                WriteError::InvalidImage => "The image is invalid."@,
                WriteError::WriteFailure => "A length does not fit its field."@,
            },
    {
        match self {
            WriteError::UnsupportedCompression => "The image compression is not supported.",
            WriteError::InvalidImage => "The image is invalid.",
            WriteError::WriteFailure => "A length does not fit its field.",
        }
    }
}

} // verus!
