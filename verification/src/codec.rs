//! The trusted boundary around the mnemonic codec (the `bip39` crate).
//!
//! The codec is a black box with two operations — encode 32 bytes of
//! entropy into a 24-word phrase, and decode a phrase back into entropy,
//! rejecting unknown words, wrong word counts and bad checksums. Its word
//! list and checksum scheme are opaque here: the contracts speak of a
//! mnemonic only through the entropy it encodes.

use vstd::prelude::*;

verus! {

#[verifier::external_type_specification]
#[verifier::external_body]
pub struct ExMnemonic(bip39::Mnemonic);

#[verifier::external_type_specification]
#[verifier::external_body]
pub struct ExBip39Error(bip39::Error);

/// The entropy bytes a mnemonic encodes: what `bip39::Mnemonic::to_entropy`
/// reads back out of the word indices, a function of the mnemonic value
/// alone.
pub uninterp spec fn mnemonic_entropy(m: bip39::Mnemonic) -> Seq<u8>;

/// The entropy a phrase text decodes to under the English word list, or
/// `None` for a text the codec rejects (unknown word, wrong word count,
/// bad checksum). A function of the text alone.
pub uninterp spec fn phrase_entropy(s: Seq<char>) -> Option<Seq<u8>>;

/// Relies on `bip39::Mnemonic::to_entropy`: returns the entropy bytes the
/// mnemonic's words encode, deterministically in the mnemonic value.
#[verifier::external_body]
pub(crate) fn mnemonic_to_entropy(m: &bip39::Mnemonic) -> (r: Vec<u8>)
    ensures
        r@ == mnemonic_entropy(*m),
{
    m.to_entropy()
}

/// Relies on `bip39::Mnemonic::from_entropy`: 32 bytes are an accepted
/// entropy size (256 bits), and the mnemonic built from accepted entropy
/// encodes exactly the given bytes.
#[verifier::external_body]
pub(crate) fn mnemonic_from_entropy(bytes: &Vec<u8>) -> (r: Result<bip39::Mnemonic, bip39::Error>)
    ensures
        bytes@.len() == 32 ==> r is Ok,
        r matches Ok(m) ==> mnemonic_entropy(m) == bytes@,
{
    bip39::Mnemonic::from_entropy(bytes.as_slice())
}

/// Relies on `bip39::Mnemonic::generate`: draws 256 bits from the secure
/// random source and encodes them. Nothing is promised of which mnemonic
/// comes back, only that a successful one carries 32 bytes of entropy.
#[verifier::external_body]
pub(crate) fn mnemonic_generate() -> (r: Result<bip39::Mnemonic, bip39::Error>)
    ensures
        r matches Ok(m) ==> mnemonic_entropy(m).len() == 32,
{
    bip39::Mnemonic::generate(bip39::WordCount::Words24)
}

/// Relies on `bip39::Mnemonic::parse_in` with the English word list: it
/// accepts exactly the well-formed phrase texts, deterministically in the
/// text, and the mnemonic it returns encodes the phrase's entropy.
#[verifier::external_body]
pub(crate) fn mnemonic_parse(s: &str) -> (r: Result<bip39::Mnemonic, bip39::Error>)
    ensures
        r is Ok <==> phrase_entropy(s@) is Some,
        r matches Ok(m) ==> phrase_entropy(s@) == Some(mnemonic_entropy(m)),
{
    bip39::Mnemonic::parse_in(bip39::Language::English, s)
}

} // verus!
