use seed_split::bits::{bits_to_bytes, bytes_to_bits, xor_strings};
use seed_split::error::SplitError;

#[test]
fn xor_strings_concrete() {
    assert_eq!(xor_strings("0011", "0101"), "0110");
    assert_eq!(xor_strings("1111", "1111"), "0000");
    assert_eq!(xor_strings("", ""), "");
}

#[test]
fn xor_strings_self_inverse_concrete() {
    let a = "01101001";
    let b = "11001010";
    assert_eq!(xor_strings(&xor_strings(a, b), b), a);
}

#[test]
fn xor_strings_commutes_concrete() {
    let a = "01101001";
    let b = "11001010";
    assert_eq!(xor_strings(a, b), xor_strings(b, a));
}

#[test]
fn bytes_to_bits_concrete() {
    assert_eq!(bytes_to_bits(&vec![]), "");
    assert_eq!(bytes_to_bits(&vec![0x00]), "00000000");
    assert_eq!(bytes_to_bits(&vec![0x05]), "00000101");
    assert_eq!(bytes_to_bits(&vec![0xFF, 0x80]), "1111111110000000");
    assert_eq!(bytes_to_bits(&vec![0xA5]), "10100101");
}

#[test]
fn bits_to_bytes_concrete() {
    let mut s = String::from("00000101");
    s.push_str(&"0".repeat(248));
    let bytes = bits_to_bytes(&s).unwrap();
    assert_eq!(bytes.len(), 32);
    assert_eq!(bytes[0], 5);
    assert!(bytes[1..].iter().all(|&b| b == 0));
}

#[test]
fn bits_to_bytes_round_trip() {
    let s = "01".repeat(128);
    let bytes = bits_to_bytes(&s).unwrap();
    assert_eq!(bytes, vec![0x55u8; 32]);
    assert_eq!(bytes_to_bits(&bytes), s);
}

#[test]
fn bits_to_bytes_rejects_wrong_length() {
    assert_eq!(bits_to_bytes(&"0".repeat(255)), Err(SplitError::FormatError));
    assert_eq!(bits_to_bytes(&"0".repeat(257)), Err(SplitError::FormatError));
    assert_eq!(bits_to_bytes(""), Err(SplitError::FormatError));
}

#[test]
fn bits_to_bytes_rejects_non_binary() {
    let mut s = "0".repeat(256);
    s.replace_range(5..6, "2");
    assert_eq!(bits_to_bytes(&s), Err(SplitError::FormatError));
}
