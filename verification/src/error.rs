//! The ways in which building or querying the index can fail.

use vstd::prelude::*;

verus! {

/// A failure reported by the index. None of them is recoverable at this
/// layer: the caller gets no partial result.
#[derive(Debug, Clone, Copy, PartialEq, Eq, Hash, Structural)]
pub enum IndexError {
    /// A text input does not have the expected form.
    ParseError,
    /// The directory of a class is missing or cannot be listed.
    DirectoryError,
    /// An image of a batch differs in size from the first one.
    DimensionMismatch,
    /// An image could not be read or decoded.
    DecodeError,
    /// A split does not hold the number of samples of a complete dataset.
    CountMismatch,
}

impl IndexError {
    /// A short description of the failure.
    pub fn message(&self) -> (r: &'static str)
        ensures
            r@ == self.spec_message(),
    {
        match self {
            IndexError::ParseError => "malformed text input",
            IndexError::DirectoryError => "class directory missing or unreadable",
            IndexError::DimensionMismatch => "image dimensions do not match",
            IndexError::DecodeError => "image could not be decoded",
            IndexError::CountMismatch => "unexpected number of samples",
        }
    }

    /// The text of [`IndexError::message`].
    pub open spec fn spec_message(&self) -> Seq<char> {
        match self {
            IndexError::ParseError => "malformed text input"@,
            IndexError::DirectoryError => "class directory missing or unreadable"@,
            IndexError::DimensionMismatch => "image dimensions do not match"@,
            IndexError::DecodeError => "image could not be decoded"@,
            IndexError::CountMismatch => "unexpected number of samples"@,
        }
    }
}

} // verus!
