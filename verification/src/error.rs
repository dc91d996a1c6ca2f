//! The one way an operation of this library can fail.

use vstd::prelude::*;

verus! {

/// A parameter outside the range that an operation accepts.
#[derive(Clone, Copy, Debug, PartialEq, Eq)]
pub enum RangeError {
    /// A modulus exponent above 64, the number of planes of a batch.
    ExponentTooLarge,
}

impl RangeError {
    /// What went wrong, in words.
    pub fn message(&self) -> (msg: String)
        ensures
            msg@ == "k must be <= 64 for bitsliced modulo"@,
    {
        "k must be <= 64 for bitsliced modulo".to_owned()
    }
}

} // verus!
