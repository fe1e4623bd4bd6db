//! The ways decoding and encoding fail.

use vstd::prelude::*;

verus! {

/// Why a frame, a header or a payload could not be handled.
#[derive(Debug, PartialEq, Eq)]
pub enum DecodeError {
    /// Fewer bytes were available than a header or a declared payload needs.
    ShortRead,
    /// A bit width of zero or of more than 24 bits.
    InvalidWidth,
    /// The byte source failed; the text is the source's own account of it.
    TransportFailure(String),
}

impl DecodeError {
    /// The error in words. A transport failure is told in the words of the
    /// byte source.
    pub fn message(&self) -> (text: String)
        ensures
            text@ == match *self {
                DecodeError::ShortRead => "short read"@,
                DecodeError::InvalidWidth => "invalid bit width"@,
                DecodeError::TransportFailure(source) => source@,
            },
    {
        match self {
            DecodeError::ShortRead => "short read".to_owned(),
            DecodeError::InvalidWidth => "invalid bit width".to_owned(),
            DecodeError::TransportFailure(source) => source.clone(),
        }
    }
}

} // verus!
