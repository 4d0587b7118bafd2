//! A (2,2) secret-splitting library for 256-bit seed entropy carried in
//! BIP-39 mnemonic phrases.
//!
//! A secret (256 bits of entropy, shown to the user as a 24-word phrase) is
//! split into two independent phrases ("parts") whose entropies XOR back to
//! the secret's entropy. Either part alone reveals nothing; both together
//! reconstruct the secret exactly. The word-list encoding and its checksum
//! are delegated to the `bip39` crate behind a small trusted boundary; the
//! bit-string conversion and the XOR protocol are verified here.

pub mod bits;
pub mod codec;
pub mod error;
pub mod protocol;
