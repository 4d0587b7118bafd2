//! The errors a split or recover operation can report. Every failure is
//! fatal to its operation: nothing is retried and nothing is partially
//! returned.

use vstd::prelude::*;

verus! {

/// Why an operation was refused.
#[derive(Clone, Copy, Debug, PartialEq, Eq, Structural)]
pub enum SplitError {
    /// A supplied entropy bit string is not exactly 256 characters, or
    /// contains a character other than '0' or '1'.
    FormatError,
    /// A supplied phrase was rejected by the mnemonic codec (unknown word,
    /// wrong word count, bad checksum), or does not carry 256 bits of
    /// entropy. `part` says which input failed (1 or 2).
    InvalidPhrase { part: u8 },
    /// The secure random source could not supply bits.
    RandomnessFailure,
}

} // verus!
