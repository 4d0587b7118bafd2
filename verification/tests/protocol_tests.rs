use bip39::Mnemonic;
use seed_split::error::SplitError;
use seed_split::protocol::{
    generate, mnemonic_from_bit_string, mnemonic_to_bit_string, recover, recover_mnemonics,
};

fn zero_bits() -> String {
    "0".repeat(256)
}

fn xor_entropies(a: &[u8], b: &[u8]) -> Vec<u8> {
    a.iter().zip(b.iter()).map(|(x, y)| x ^ y).collect()
}

#[test]
fn length_validation() {
    let r = generate(Some("0".repeat(255)));
    assert!(matches!(r, Err(SplitError::FormatError)));
    let r = generate(Some("0".repeat(257)));
    assert!(matches!(r, Err(SplitError::FormatError)));
}

#[test]
fn character_validation() {
    let mut s = zero_bits();
    s.replace_range(5..6, "2");
    let r = generate(Some(s));
    assert!(matches!(r, Err(SplitError::FormatError)));
}

#[test]
fn explicit_entropy_split_and_recover() {
    let (secret, part1, part2) = generate(Some(zero_bits())).unwrap();
    let canonical = Mnemonic::from_entropy(&[0u8; 32]).unwrap();
    assert_eq!(secret, canonical);
    assert_eq!(
        xor_entropies(&part1.to_entropy(), &part2.to_entropy()),
        vec![0u8; 32]
    );
    let recovered = recover(&part1.to_string(), &part2.to_string()).unwrap();
    assert_eq!(recovered.to_string(), canonical.to_string());
}

#[test]
fn round_trip_generated_secret() {
    let (secret, part1, part2) = generate(None).unwrap();
    assert_eq!(secret.word_count(), 24);
    assert_eq!(part1.word_count(), 24);
    assert_eq!(part2.word_count(), 24);
    let recovered = recover(&part1.to_string(), &part2.to_string()).unwrap();
    assert_eq!(recovered, secret);
}

#[test]
fn recover_is_commutative() {
    let (secret, part1, part2) = generate(None).unwrap();
    let ab = recover(&part1.to_string(), &part2.to_string()).unwrap();
    let ba = recover(&part2.to_string(), &part1.to_string()).unwrap();
    assert_eq!(ab, ba);
    assert_eq!(ab, secret);
}

#[test]
fn randomness_independence() {
    let bits = "01".repeat(128);
    let (secret_a, a1, a2) = generate(Some(bits.clone())).unwrap();
    let (secret_b, b1, b2) = generate(Some(bits.clone())).unwrap();
    assert_eq!(secret_a, secret_b);
    // Fresh randomness: the two splits give different share pairs.
    assert_ne!(a1, b1);
    assert_ne!(a2, b2);
    // Both pairs still recover the same secret.
    let ra = recover(&a1.to_string(), &a2.to_string()).unwrap();
    let rb = recover(&b1.to_string(), &b2.to_string()).unwrap();
    assert_eq!(ra, secret_a);
    assert_eq!(rb, secret_a);
}

#[test]
fn bad_phrase_rejection() {
    let valid = Mnemonic::from_entropy(&[0u8; 32]).unwrap().to_string();
    let mut words: Vec<&str> = valid.split_whitespace().collect();
    words[3] = "notaword";
    let bad = words.join(" ");
    let r = recover(&bad, &valid);
    assert_eq!(r, Err(SplitError::InvalidPhrase { part: 1 }));
    let r = recover(&valid, &bad);
    assert_eq!(r, Err(SplitError::InvalidPhrase { part: 2 }));
}

#[test]
fn short_phrase_rejection() {
    // A well-formed 12-word mnemonic is still not a valid share: a share
    // must carry 256 bits of entropy.
    let twelve = Mnemonic::from_entropy(&[0u8; 16]).unwrap().to_string();
    let valid = Mnemonic::from_entropy(&[0u8; 32]).unwrap().to_string();
    let r = recover(&twelve, &valid);
    assert_eq!(r, Err(SplitError::InvalidPhrase { part: 1 }));
    let r = recover(&valid, &twelve);
    assert_eq!(r, Err(SplitError::InvalidPhrase { part: 2 }));
}

#[test]
fn recover_mnemonics_direct() {
    let (secret, part1, part2) = generate(None).unwrap();
    let recovered = recover_mnemonics(&part1, &part2).unwrap();
    assert_eq!(recovered, secret);
    let twelve = Mnemonic::from_entropy(&[0u8; 16]).unwrap();
    assert_eq!(
        recover_mnemonics(&twelve, &part2),
        Err(SplitError::InvalidPhrase { part: 1 })
    );
    assert_eq!(
        recover_mnemonics(&part1, &twelve),
        Err(SplitError::InvalidPhrase { part: 2 })
    );
}

#[test]
fn bit_string_round_trip_through_mnemonic() {
    let bits = "01".repeat(128);
    let m = mnemonic_from_bit_string(&bits).unwrap();
    assert_eq!(m.to_entropy(), vec![0x55u8; 32]);
    assert_eq!(mnemonic_to_bit_string(&m), bits);
}

#[test]
fn mnemonic_from_bit_string_rejects_bad_input() {
    assert!(matches!(
        mnemonic_from_bit_string(&"1".repeat(200)),
        Err(SplitError::FormatError)
    ));
    let mut s = zero_bits();
    s.replace_range(100..101, "x");
    assert!(matches!(
        mnemonic_from_bit_string(&s),
        Err(SplitError::FormatError)
    ));
}

#[test]
fn unrelated_shares_give_a_valid_phrase() {
    // Two shares that never came from one split still recover to some
    // syntactically valid phrase; the protocol cannot and must not detect
    // this.
    let a = Mnemonic::from_entropy(&[0x11u8; 32]).unwrap();
    let b = Mnemonic::from_entropy(&[0x33u8; 32]).unwrap();
    let m = recover(&a.to_string(), &b.to_string()).unwrap();
    assert_eq!(m.to_entropy(), vec![0x22u8; 32]);
}
