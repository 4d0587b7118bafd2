//! The split/recover protocol: a (2,2) XOR split of 256-bit entropy.
//!
//! A secret's entropy `S` is split into two mnemonics whose entropies are a
//! fresh random value `R` and `S XOR R`; XOR of the two parts' entropies —
//! in either order — gives `S` back. Each call is an independent, stateless
//! transformation; every validation failure aborts its operation with no
//! partial output.

use crate::bits::{
    bits_of_bytes, bits_to_bytes, bytes_of_bits, bytes_to_bits, lemma_bits_of_bytes_binary,
    lemma_bits_of_bytes_len, lemma_bytes_of_bits_of_bytes, lemma_split_round_trip,
    lemma_xor_bits_of_bytes, lemma_xor_bytes_commutes, valid_bit_string, xor_bytes, xor_strings,
};
use crate::codec::{
    mnemonic_entropy, mnemonic_from_entropy, mnemonic_generate, mnemonic_parse,
    mnemonic_to_entropy, phrase_entropy,
};
use crate::error::SplitError;
use bip39::Mnemonic;
use vstd::prelude::*;

verus! {

/// A phrase text that can serve as a share: the codec accepts it and it
/// carries exactly 256 bits of entropy (a 24-word phrase).
pub open spec fn share_ok(s: Seq<char>) -> bool {
    phrase_entropy(s) matches Some(e) && e.len() == 32
}

/// The canonical bit string of the entropy a mnemonic encodes.
pub fn mnemonic_to_bit_string(mnemonic: &Mnemonic) -> (s: String)
    ensures
        s@ == bits_of_bytes(mnemonic_entropy(*mnemonic)),
{
    let entropy = mnemonic_to_entropy(mnemonic);
    bytes_to_bits(&entropy)
}

/// The mnemonic encoding the entropy a bit string spells out.
///
/// Accepts exactly the valid entropy strings — 256 binary digits — and
/// reports a format error on any other input.
pub fn mnemonic_from_bit_string(entropy: &str) -> (r: Result<Mnemonic, SplitError>)
    ensures
        r is Ok <==> valid_bit_string(entropy@),
        r matches Ok(m) ==> mnemonic_entropy(m) == bytes_of_bits(entropy@),
        r matches Err(e) ==> e == SplitError::FormatError,
{
    match bits_to_bytes(entropy) {
        Ok(bytes) => match mnemonic_from_entropy(&bytes) {
            Ok(m) => Ok(m),
            Err(_) => Err(SplitError::FormatError),
        },
        Err(e) => Err(e),
    }
}

/// Splits a secret into a secret mnemonic and two share mnemonics.
///
/// The secret's entropy is taken from `entropy` (a string of 256 binary
/// digits) when one is supplied, and drawn from the secure random source
/// otherwise. The first share is always fresh randomness; the second is
/// the XOR of the secret's entropy with the first share's. On success the
/// triple is (secret, share one, share two), with the split invariant
/// `entropy(share one) XOR entropy(share two) == entropy(secret)`.
pub fn generate(entropy: Option<String>) -> (r: Result<(Mnemonic, Mnemonic, Mnemonic), SplitError>)
    ensures
        ((entropy matches Some(s) && !valid_bit_string(s@)) <==> (r matches Err(e) && e
            == SplitError::FormatError)),
        r matches Err(e) ==> e == SplitError::FormatError || e == SplitError::RandomnessFailure,
        r matches Ok(t) ==> {
            &&& xor_bytes(mnemonic_entropy(t.1), mnemonic_entropy(t.2)) == mnemonic_entropy(t.0)
            &&& mnemonic_entropy(t.0).len() == 32
            &&& mnemonic_entropy(t.1).len() == 32
            &&& mnemonic_entropy(t.2).len() == 32
        },
        entropy matches Some(s) ==> (r matches Ok(t) ==> mnemonic_entropy(t.0) == bytes_of_bits(
            s@,
        )),
{
    let secret = match entropy {
        Some(s) => match mnemonic_from_bit_string(s.as_str()) {
            Ok(m) => m,
            Err(e) => {
                return Err(e);
            },
        },
        None => match mnemonic_generate() {
            Ok(m) => m,
            Err(_) => {
                return Err(SplitError::RandomnessFailure);
            },
        },
    };
    let secret_bits = mnemonic_to_bit_string(&secret);
    let part1 = match mnemonic_generate() {
        Ok(m) => m,
        Err(_) => {
            return Err(SplitError::RandomnessFailure);
        },
    };
    let part1_bits = mnemonic_to_bit_string(&part1);
    proof {
        let se = mnemonic_entropy(secret);
        let pe = mnemonic_entropy(part1);
        lemma_bits_of_bytes_len(se);
        lemma_bits_of_bytes_len(pe);
        lemma_bits_of_bytes_binary(se);
        lemma_bits_of_bytes_binary(pe);
        lemma_xor_bits_of_bytes(se, pe);
        lemma_bits_of_bytes_len(xor_bytes(se, pe));
        lemma_bits_of_bytes_binary(xor_bytes(se, pe));
        lemma_bytes_of_bits_of_bytes(xor_bytes(se, pe));
        lemma_split_round_trip(se, pe);
    }
    let part2_bits = xor_strings(secret_bits.as_str(), part1_bits.as_str());
    let part2 = match mnemonic_from_bit_string(part2_bits.as_str()) {
        Ok(m) => m,
        Err(_) => {
            return Err(SplitError::FormatError);
        },
    };
    Ok((secret, part1, part2))
}

/// Reconstructs the secret mnemonic from two share mnemonics.
///
/// Each share must carry 256 bits of entropy (be a 24-word mnemonic); a
/// share that does not is reported as an invalid phrase, naming the part.
/// On success the result's entropy is the XOR of the two shares'
/// entropies, so shares from one split give back exactly that split's
/// secret, in either argument order.
pub fn recover_mnemonics(part1: &Mnemonic, part2: &Mnemonic) -> (r: Result<Mnemonic, SplitError>)
    ensures
        (r is Ok <==> mnemonic_entropy(*part1).len() == 32 && mnemonic_entropy(*part2).len()
            == 32),
        r matches Ok(m) ==> mnemonic_entropy(m) == xor_bytes(
            mnemonic_entropy(*part1),
            mnemonic_entropy(*part2),
        ),
        (mnemonic_entropy(*part1).len() != 32 <==> (r matches Err(e) && e == (SplitError::InvalidPhrase {
            part: 1,
        }))),
        ((mnemonic_entropy(*part1).len() == 32 && mnemonic_entropy(*part2).len() != 32) <==> (
        r matches Err(e) && e == (SplitError::InvalidPhrase { part: 2 }))),
{
    let e1 = mnemonic_to_entropy(part1);
    if e1.len() != 32 {
        return Err(SplitError::InvalidPhrase { part: 1 });
    }
    let e2 = mnemonic_to_entropy(part2);
    if e2.len() != 32 {
        return Err(SplitError::InvalidPhrase { part: 2 });
    }
    let bits1 = bytes_to_bits(&e1);
    let bits2 = bytes_to_bits(&e2);
    proof {
        let a = mnemonic_entropy(*part1);
        let b = mnemonic_entropy(*part2);
        lemma_bits_of_bytes_len(a);
        lemma_bits_of_bytes_len(b);
        lemma_bits_of_bytes_binary(a);
        lemma_bits_of_bytes_binary(b);
        lemma_xor_bits_of_bytes(a, b);
        lemma_bits_of_bytes_len(xor_bytes(a, b));
        lemma_bits_of_bytes_binary(xor_bytes(a, b));
        lemma_bytes_of_bits_of_bytes(xor_bytes(a, b));
    }
    let secret_bits = xor_strings(bits1.as_str(), bits2.as_str());
    match mnemonic_from_bit_string(secret_bits.as_str()) {
        Ok(m) => Ok(m),
        Err(_) => Err(SplitError::FormatError),
    }
}

/// Reconstructs the secret mnemonic from two share phrase texts.
///
/// Each text is decoded by the codec; a rejected text, or one that does
/// not carry 256 bits of entropy, aborts the operation naming the failing
/// part — the first part is validated in full before the second is looked
/// at. On success the result's entropy is the XOR of the two decoded
/// entropies.
pub fn recover(part1: &str, part2: &str) -> (r: Result<Mnemonic, SplitError>)
    ensures
        (r is Ok <==> share_ok(part1@) && share_ok(part2@)),
        r matches Ok(m) ==> (phrase_entropy(part1@) matches Some(e1) && phrase_entropy(part2@)
            matches Some(e2) && mnemonic_entropy(m) == xor_bytes(e1, e2)),
        (!share_ok(part1@) <==> (r matches Err(e) && e == (SplitError::InvalidPhrase { part: 1 }))),
        ((share_ok(part1@) && !share_ok(part2@)) <==> (r matches Err(e) && e
            == (SplitError::InvalidPhrase { part: 2 }))),
{
    let m1 = match mnemonic_parse(part1) {
        Ok(m) => m,
        Err(_) => {
            return Err(SplitError::InvalidPhrase { part: 1 });
        },
    };
    let e1 = mnemonic_to_entropy(&m1);
    if e1.len() != 32 {
        return Err(SplitError::InvalidPhrase { part: 1 });
    }
    let m2 = match mnemonic_parse(part2) {
        Ok(m) => m,
        Err(_) => {
            return Err(SplitError::InvalidPhrase { part: 2 });
        },
    };
    let e2 = mnemonic_to_entropy(&m2);
    if e2.len() != 32 {
        return Err(SplitError::InvalidPhrase { part: 2 });
    }
    recover_mnemonics(&m1, &m2)
}

/// Law: round trip of the protocol. A split returns parts whose entropies
/// satisfy `part two == secret XOR part one` — as `generate` ensures — and
/// then XOR of the two parts, in either argument order, is exactly the
/// secret's entropy: `recover` on the two parts of a split returns the
/// split's secret.
pub proof fn lemma_split_recover_round_trip(secret_e: Seq<u8>, part1_e: Seq<u8>, part2_e: Seq<u8>)
    requires
        part1_e.len() == secret_e.len(),
        part2_e == xor_bytes(secret_e, part1_e),
    ensures
        xor_bytes(part1_e, part2_e) == secret_e,
        xor_bytes(part2_e, part1_e) == secret_e,
{
    lemma_split_round_trip(secret_e, part1_e);
}

/// Law: recover is commutative. The XOR of two shares' entropies does not
/// depend on the order of the shares, so `recover(a, b)` and
/// `recover(b, a)` return mnemonics with the same entropy.
pub proof fn lemma_recover_commutes(a: Seq<u8>, b: Seq<u8>)
    ensures
        xor_bytes(a, b) == xor_bytes(b, a),
{
    lemma_xor_bytes_commutes(a, b);
}

} // verus!
