//! The failures that query evaluation reports.
use vstd::prelude::*;

verus! {

/// Why a scorer could not be built or could not go on.
#[derive(Debug, Clone, Copy, PartialEq, Eq, Structural)]
pub enum SearchError {
    /// A penalty factor is not strictly between zero and one.
    PenaltyOutOfRange,
    /// A posting list does not give one score and one confirmation per document.
    LengthMismatch,
    /// A posting list is not strictly increasing, or holds the identifier
    /// reserved for "no more documents".
    UnorderedPostings,
    /// An iterator could not read what it iterates over. The code is the
    /// iterator's own.
    Failed(u32),
}

} // verus!
