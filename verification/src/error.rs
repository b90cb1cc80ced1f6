//! The ways in which building a tree or asking for a proof can fail.

use vstd::prelude::*;

verus! {

/// Why a call was refused. Nothing is built or returned beside it.
#[derive(Clone, Copy, Debug, PartialEq, Eq, Structural)]
pub enum MerkleError {
    /// A tree was asked for over no leaves at all.
    EmptyInput,
    /// A proof was asked for a position at or past the number of leaves.
    IndexOutOfRange,
}

impl MerkleError {
    /// What went wrong, in words.
    pub fn message(&self) -> (text: &'static str)
        ensures
            text@ == (match *self {
                MerkleError::EmptyInput => "cannot build a Merkle tree from zero leaves"@,
                MerkleError::IndexOutOfRange => "leaf index is out of range"@,
            }),
    {
        match self {
            MerkleError::EmptyInput => "cannot build a Merkle tree from zero leaves",
            MerkleError::IndexOutOfRange => "leaf index is out of range",
        }
    }
}

} // verus!
