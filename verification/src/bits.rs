//! Conversion between byte sequences and their canonical textual bit
//! representation (one '0'/'1' character per bit, most-significant bit first
//! within each byte, bytes in order), and position-wise XOR on such strings.

use crate::error::SplitError;
use vstd::arithmetic::div_mod::{lemma_fundamental_div_mod, lemma_mod_division_less_than_divisor};
use vstd::prelude::*;

verus! {

/// A character that may appear in a bit string.
pub open spec fn is_bit_char(c: char) -> bool {
    c == '0' || c == '1'
}

/// Every character of `s` is a binary digit.
pub open spec fn all_bit_chars(s: Seq<char>) -> bool {
    forall|i: int| 0 <= i < s.len() ==> is_bit_char(#[trigger] s[i])
}

/// The character for a single bit value.
pub open spec fn bit_char(v: u8) -> char {
    if v == 1 {
        '1'
    } else {
        '0'
    }
}

/// The bit value of a binary digit character.
pub open spec fn char_bit(c: char) -> u8 {
    if c == '1' {
        1
    } else {
        0
    }
}

/// XOR of two binary digit characters.
pub open spec fn xor_char(a: char, b: char) -> char {
    if a == b {
        '0'
    } else {
        '1'
    }
}

/// Position-wise XOR of two bit strings, over the positions both have.
pub open spec fn xor_bits(a: Seq<char>, b: Seq<char>) -> Seq<char> {
    Seq::new(if a.len() <= b.len() { a.len() } else { b.len() }, |i: int| xor_char(a[i], b[i]))
}

/// Position-wise XOR of two byte sequences, over the positions both have.
pub open spec fn xor_bytes(a: Seq<u8>, b: Seq<u8>) -> Seq<u8> {
    Seq::new(if a.len() <= b.len() { a.len() } else { b.len() }, |i: int| a[i] ^ b[i])
}

/// The eight binary digit characters of a byte, most-significant first.
pub open spec fn bits_of_byte(b: u8) -> Seq<char> {
    seq![
        bit_char((b >> 7) & 1),
        bit_char((b >> 6) & 1),
        bit_char((b >> 5) & 1),
        bit_char((b >> 4) & 1),
        bit_char((b >> 3) & 1),
        bit_char((b >> 2) & 1),
        bit_char((b >> 1) & 1),
        bit_char(b & 1),
    ]
}

/// The byte encoded by eight binary digit characters, most-significant first.
pub open spec fn byte_of_bits(s: Seq<char>) -> u8
    recommends
        s.len() == 8,
{
    (char_bit(s[0]) << 7) | (char_bit(s[1]) << 6) | (char_bit(s[2]) << 5) | (char_bit(s[3]) << 4)
        | (char_bit(s[4]) << 3) | (char_bit(s[5]) << 2) | (char_bit(s[6]) << 1) | char_bit(s[7])
}

/// The canonical bit string of a byte sequence: each byte's eight digits,
/// in byte order.
pub open spec fn bits_of_bytes(bs: Seq<u8>) -> Seq<char>
    decreases bs.len(),
{
    if bs.len() == 0 {
        Seq::empty()
    } else {
        bits_of_bytes(bs.drop_last()) + bits_of_byte(bs.last())
    }
}

/// The byte sequence encoded by a bit string whose length is a multiple
/// of eight: successive chunks of eight digits, each read as one byte.
pub open spec fn bytes_of_bits(s: Seq<char>) -> Seq<u8>
    recommends
        s.len() % 8 == 0,
{
    Seq::new(s.len() / 8, |i: int| byte_of_bits(s.subrange(8 * i, 8 * i + 8)))
}

/// A valid entropy bit string for this scheme: exactly 256 binary digits.
pub open spec fn valid_bit_string(s: Seq<char>) -> bool {
    s.len() == 256 && all_bit_chars(s)
}

/// Position-wise XOR of two bit strings, as the protocol computes it.
///
/// The result covers the positions both arguments have; for the protocol the
/// arguments always have equal length.
pub fn xor_strings(s1: &str, s2: &str) -> (r: String)
    requires
        all_bit_chars(s1@),
        all_bit_chars(s2@),
    ensures
        r@ == xor_bits(s1@, s2@),
{
    let n1 = s1.unicode_len();
    let n2 = s2.unicode_len();
    let n = if n1 <= n2 {
        n1
    } else {
        n2
    };
    let mut r = String::new();
    let mut i: usize = 0;
    while i < n
        invariant
            n == if s1@.len() <= s2@.len() {
                s1@.len()
            } else {
                s2@.len()
            },
            i <= n,
            all_bit_chars(s1@),
            all_bit_chars(s2@),
            r@ =~= xor_bits(s1@, s2@).subrange(0, i as int),
        decreases n - i,
    {
        let c1 = s1.get_char(i);
        let c2 = s2.get_char(i);
        if c1 == c2 {
            r.append("0");
        } else {
            r.append("1");
        }
        proof {
            reveal_strlit("0");
            reveal_strlit("1");
            assert(r@ =~= xor_bits(s1@, s2@).subrange(0, i + 1));
        }
        i = i + 1;
    }
    proof {
        assert(r@ =~= xor_bits(s1@, s2@));
    }
    r
}

/// Law: XOR is its own inverse. Applying a mask twice gives the original
/// string back, for equal-length binary strings.
pub proof fn lemma_xor_self_inverse(a: Seq<char>, b: Seq<char>)
    requires
        a.len() == b.len(),
        all_bit_chars(a),
        all_bit_chars(b),
    ensures
        xor_bits(xor_bits(a, b), b) == a,
{
    assert(xor_bits(xor_bits(a, b), b) =~= a);
}

/// Law: XOR of bit strings is commutative: the order of the two arguments
/// does not change the result.
pub proof fn lemma_xor_commutes(a: Seq<char>, b: Seq<char>)
    ensures
        xor_bits(a, b) == xor_bits(b, a),
{
    assert(xor_bits(a, b) =~= xor_bits(b, a));
}

/// Law: XOR of byte sequences is commutative.
pub proof fn lemma_xor_bytes_commutes(a: Seq<u8>, b: Seq<u8>)
    ensures
        xor_bytes(a, b) == xor_bytes(b, a),
{
    assert forall|i: int| 0 <= i < a.len() && i < b.len() implies a[i] ^ b[i] == b[i] ^ a[i] by {
        let x = a[i];
        let y = b[i];
        assert(x ^ y == y ^ x) by (bit_vector);
    }
    assert(xor_bytes(a, b) =~= xor_bytes(b, a));
}

/// Law: round trip of the split. If a part's entropy is the XOR of the
/// secret's entropy with a mask of the same length, then XOR of mask and
/// part — in either order — recovers the secret's entropy exactly.
pub proof fn lemma_split_round_trip(secret: Seq<u8>, mask: Seq<u8>)
    requires
        secret.len() == mask.len(),
    ensures
        xor_bytes(mask, xor_bytes(secret, mask)) == secret,
        xor_bytes(xor_bytes(secret, mask), mask) == secret,
{
    assert forall|i: int| 0 <= i < secret.len() implies mask[i] ^ (secret[i] ^ mask[i])
        == secret[i] && (secret[i] ^ mask[i]) ^ mask[i] == secret[i] by {
        let s = secret[i];
        let m = mask[i];
        assert(m ^ (s ^ m) == s && (s ^ m) ^ m == s) by (bit_vector);
    }
    assert(xor_bytes(mask, xor_bytes(secret, mask)) =~= secret);
    assert(xor_bytes(xor_bytes(secret, mask), mask) =~= secret);
}

/// Law: round trip of the split, as bit strings. If a part's bit string is
/// the XOR of the secret's bit string with an equal-length binary mask,
/// then XOR of mask and part — in either order — recovers the secret's bit
/// string exactly.
pub proof fn lemma_xor_mask_recovers(s: Seq<char>, m: Seq<char>)
    requires
        s.len() == m.len(),
        all_bit_chars(s),
        all_bit_chars(m),
    ensures
        xor_bits(m, xor_bits(s, m)) == s,
        xor_bits(xor_bits(s, m), m) == s,
{
    lemma_xor_commutes(m, xor_bits(s, m));
    lemma_xor_self_inverse(s, m);
}

/// The eight digits of a byte are all binary.
pub proof fn lemma_bits_of_byte_binary(b: u8)
    ensures
        bits_of_byte(b).len() == 8,
        all_bit_chars(bits_of_byte(b)),
{
    let s = bits_of_byte(b);
    assert(is_bit_char(s[0]) && is_bit_char(s[1]) && is_bit_char(s[2]) && is_bit_char(s[3])
        && is_bit_char(s[4]) && is_bit_char(s[5]) && is_bit_char(s[6]) && is_bit_char(s[7]));
}

/// Reading back the eight digits of a byte gives the byte.
pub proof fn lemma_byte_of_bits_of_byte(b: u8)
    ensures
        byte_of_bits(bits_of_byte(b)) == b,
{
    assert((b >> 7) & 1 <= 1 && (b >> 6) & 1 <= 1 && (b >> 5) & 1 <= 1 && (b >> 4) & 1 <= 1 && (b
        >> 3) & 1 <= 1 && (b >> 2) & 1 <= 1 && (b >> 1) & 1 <= 1 && b & 1 <= 1) by (bit_vector);
    assert(((((b >> 7) & 1) << 7) | (((b >> 6) & 1) << 6) | (((b >> 5) & 1) << 5) | (((b >> 4) & 1)
        << 4) | (((b >> 3) & 1) << 3) | (((b >> 2) & 1) << 2) | (((b >> 1) & 1) << 1) | (b & 1))
        == b) by (bit_vector);
}

/// Writing out the byte read from eight binary digits gives the digits back.
pub proof fn lemma_bits_of_byte_of_bits(s: Seq<char>)
    requires
        s.len() == 8,
        all_bit_chars(s),
    ensures
        bits_of_byte(byte_of_bits(s)) == s,
{
    let v0 = char_bit(s[0]);
    let v1 = char_bit(s[1]);
    let v2 = char_bit(s[2]);
    let v3 = char_bit(s[3]);
    let v4 = char_bit(s[4]);
    let v5 = char_bit(s[5]);
    let v6 = char_bit(s[6]);
    let v7 = char_bit(s[7]);
    let x = byte_of_bits(s);
    assert(((x >> 7) & 1 == v0) && ((x >> 6) & 1 == v1) && ((x >> 5) & 1 == v2) && ((x >> 4) & 1
        == v3) && ((x >> 3) & 1 == v4) && ((x >> 2) & 1 == v5) && ((x >> 1) & 1 == v6) && (x & 1
        == v7)) by (bit_vector)
        requires
            x == (v0 << 7) | (v1 << 6) | (v2 << 5) | (v3 << 4) | (v4 << 3) | (v5 << 2) | (v6 << 1)
                | v7,
            v0 <= 1,
            v1 <= 1,
            v2 <= 1,
            v3 <= 1,
            v4 <= 1,
            v5 <= 1,
            v6 <= 1,
            v7 <= 1,
    ;
    assert(bits_of_byte(x) =~= s);
}

/// XOR of the digits of two bytes spells out the digits of their XOR.
pub proof fn lemma_xor_bits_of_byte(x: u8, y: u8)
    ensures
        xor_bits(bits_of_byte(x), bits_of_byte(y)) == bits_of_byte(x ^ y),
{
    let z = x ^ y;
    assert((((x >> 7) & 1 == (y >> 7) & 1) <==> ((z >> 7) & 1 == 0)) && (((x >> 6) & 1 == (y >> 6)
        & 1) <==> ((z >> 6) & 1 == 0)) && (((x >> 5) & 1 == (y >> 5) & 1) <==> ((z >> 5) & 1 == 0))
        && (((x >> 4) & 1 == (y >> 4) & 1) <==> ((z >> 4) & 1 == 0)) && (((x >> 3) & 1 == (y >> 3)
        & 1) <==> ((z >> 3) & 1 == 0)) && (((x >> 2) & 1 == (y >> 2) & 1) <==> ((z >> 2) & 1 == 0))
        && (((x >> 1) & 1 == (y >> 1) & 1) <==> ((z >> 1) & 1 == 0)) && ((x & 1 == y & 1) <==> (z
        & 1 == 0))) by (bit_vector)
        requires
            z == x ^ y,
    ;
    assert((x >> 7) & 1 <= 1 && (x >> 6) & 1 <= 1 && (x >> 5) & 1 <= 1 && (x >> 4) & 1 <= 1 && (x
        >> 3) & 1 <= 1 && (x >> 2) & 1 <= 1 && (x >> 1) & 1 <= 1 && x & 1 <= 1) by (bit_vector);
    assert((y >> 7) & 1 <= 1 && (y >> 6) & 1 <= 1 && (y >> 5) & 1 <= 1 && (y >> 4) & 1 <= 1 && (y
        >> 3) & 1 <= 1 && (y >> 2) & 1 <= 1 && (y >> 1) & 1 <= 1 && y & 1 <= 1) by (bit_vector);
    assert((z >> 7) & 1 <= 1 && (z >> 6) & 1 <= 1 && (z >> 5) & 1 <= 1 && (z >> 4) & 1 <= 1 && (z
        >> 3) & 1 <= 1 && (z >> 2) & 1 <= 1 && (z >> 1) & 1 <= 1 && z & 1 <= 1) by (bit_vector);
    assert(xor_bits(bits_of_byte(x), bits_of_byte(y)) =~= bits_of_byte(z));
}

/// A byte sequence's bit string has eight digits per byte.
pub proof fn lemma_bits_of_bytes_len(bs: Seq<u8>)
    ensures
        bits_of_bytes(bs).len() == 8 * bs.len(),
    decreases bs.len(),
{
    if bs.len() > 0 {
        lemma_bits_of_bytes_len(bs.drop_last());
    }
}

/// Digit `8 i + j` of a byte sequence's bit string is digit `j` of byte `i`.
pub proof fn lemma_bits_of_bytes_index(bs: Seq<u8>, i: int, j: int)
    requires
        0 <= i < bs.len(),
        0 <= j < 8,
    ensures
        bits_of_bytes(bs)[8 * i + j] == bits_of_byte(bs[i])[j],
    decreases bs.len(),
{
    lemma_bits_of_bytes_len(bs);
    lemma_bits_of_bytes_len(bs.drop_last());
    if i < bs.len() - 1 {
        lemma_bits_of_bytes_index(bs.drop_last(), i, j);
        assert(bs.drop_last()[i] == bs[i]);
    }
}

/// A byte sequence's bit string holds binary digits only.
pub proof fn lemma_bits_of_bytes_binary(bs: Seq<u8>)
    ensures
        all_bit_chars(bits_of_bytes(bs)),
{
    lemma_bits_of_bytes_len(bs);
    assert forall|k: int| 0 <= k < bits_of_bytes(bs).len() implies is_bit_char(
        #[trigger] bits_of_bytes(bs)[k],
    ) by {
        lemma_fundamental_div_mod(k, 8);
        lemma_mod_division_less_than_divisor(k, 8);
        let i: int = k / 8;
        let j: int = k % 8;
        lemma_bits_of_bytes_index(bs, i, j);
        lemma_bits_of_byte_binary(bs[i]);
    }
}

/// Round trip: reading bytes back out of a byte sequence's bit string gives
/// the original bytes.
pub proof fn lemma_bytes_of_bits_of_bytes(bs: Seq<u8>)
    ensures
        bytes_of_bits(bits_of_bytes(bs)) == bs,
{
    lemma_bits_of_bytes_len(bs);
    let bits = bits_of_bytes(bs);
    assert(bits.len() / 8 == bs.len() && bits.len() % 8 == 0) by (nonlinear_arith)
        requires
            bits.len() == 8 * bs.len(),
    ;
    assert forall|i: int| 0 <= i < bs.len() implies bytes_of_bits(bits)[i] == bs[i] by {
        assert forall|j: int| 0 <= j < 8 implies bits.subrange(8 * i, 8 * i + 8)[j]
            == bits_of_byte(bs[i])[j] by {
            lemma_bits_of_bytes_index(bs, i, j);
        }
        lemma_bits_of_byte_binary(bs[i]);
        assert(bits.subrange(8 * i, 8 * i + 8) =~= bits_of_byte(bs[i]));
        lemma_byte_of_bits_of_byte(bs[i]);
    }
    assert(bytes_of_bits(bits) =~= bs);
}

/// Round trip: spelling out the bytes read from a binary string of full
/// bytes gives the original string.
pub proof fn lemma_bits_of_bytes_of_bits(s: Seq<char>)
    requires
        s.len() % 8 == 0,
        all_bit_chars(s),
    ensures
        bits_of_bytes(bytes_of_bits(s)) == s,
{
    let bytes = bytes_of_bits(s);
    lemma_fundamental_div_mod(s.len() as int, 8);
    lemma_bits_of_bytes_len(bytes);
    assert forall|k: int| 0 <= k < s.len() implies bits_of_bytes(bytes)[k] == s[k] by {
        lemma_fundamental_div_mod(k, 8);
        lemma_mod_division_less_than_divisor(k, 8);
        let i: int = k / 8;
        let j: int = k % 8;
        lemma_bits_of_bytes_index(bytes, i, j);
        let chunk = s.subrange(8 * i, 8 * i + 8);
        assert forall|t: int| 0 <= t < 8 implies is_bit_char(#[trigger] chunk[t]) by {
            assert(chunk[t] == s[8 * i + t]);
        }
        lemma_bits_of_byte_of_bits(chunk);
    }
    assert(bits_of_bytes(bytes) =~= s);
}

/// XOR of two byte sequences' bit strings spells out the bit string of
/// their byte-wise XOR.
pub proof fn lemma_xor_bits_of_bytes(a: Seq<u8>, b: Seq<u8>)
    requires
        a.len() == b.len(),
    ensures
        xor_bits(bits_of_bytes(a), bits_of_bytes(b)) == bits_of_bytes(xor_bytes(a, b)),
{
    lemma_bits_of_bytes_len(a);
    lemma_bits_of_bytes_len(b);
    let z = xor_bytes(a, b);
    lemma_bits_of_bytes_len(z);
    assert forall|k: int| 0 <= k < 8 * a.len() implies xor_bits(bits_of_bytes(a), bits_of_bytes(b))[k]
        == bits_of_bytes(z)[k] by {
        lemma_fundamental_div_mod(k, 8);
        lemma_mod_division_less_than_divisor(k, 8);
        let i: int = k / 8;
        let j: int = k % 8;
        lemma_bits_of_bytes_index(a, i, j);
        lemma_bits_of_bytes_index(b, i, j);
        lemma_bits_of_bytes_index(z, i, j);
        lemma_xor_bits_of_byte(a[i], b[i]);
        assert(xor_bits(bits_of_byte(a[i]), bits_of_byte(b[i]))[j] == bits_of_byte(z[i])[j]);
    }
    assert(xor_bits(bits_of_bytes(a), bits_of_bytes(b)) =~= bits_of_bytes(z));
}

/// The bit value a binary digit character stands for.
fn char_bit_val(c: char) -> (v: u8)
    ensures
        v == char_bit(c),
{
    if c == '1' {
        1
    } else {
        0
    }
}

/// Appends the character for one bit value.
fn push_bit(s: &mut String, v: u8)
    ensures
        final(s)@ == old(s)@.push(bit_char(v)),
{
    if v == 1 {
        s.append("1");
    } else {
        s.append("0");
    }
    proof {
        reveal_strlit("0");
        reveal_strlit("1");
        assert(s@ =~= old(s)@.push(bit_char(v)));
    }
}

/// Appends the eight digits of one byte, most-significant first.
fn append_bits_of_byte(s: &mut String, b: u8)
    ensures
        final(s)@ == old(s)@ + bits_of_byte(b),
{
    push_bit(s, (b >> 7) & 1);
    push_bit(s, (b >> 6) & 1);
    push_bit(s, (b >> 5) & 1);
    push_bit(s, (b >> 4) & 1);
    push_bit(s, (b >> 3) & 1);
    push_bit(s, (b >> 2) & 1);
    push_bit(s, (b >> 1) & 1);
    push_bit(s, b & 1);
    proof {
        assert(s@ =~= old(s)@ + bits_of_byte(b));
    }
}

/// The canonical bit string of a byte sequence: for each byte, in input
/// order, its eight binary digits, most-significant bit first.
pub fn bytes_to_bits(bytes: &Vec<u8>) -> (s: String)
    ensures
        s@ == bits_of_bytes(bytes@),
        s@.len() == 8 * bytes@.len(),
        all_bit_chars(s@),
{
    let mut s = String::new();
    let mut i: usize = 0;
    while i < bytes.len()
        invariant
            i <= bytes@.len(),
            s@ =~= bits_of_bytes(bytes@.subrange(0, i as int)),
        decreases bytes@.len() - i,
    {
        append_bits_of_byte(&mut s, bytes[i]);
        proof {
            let cur = bytes@.subrange(0, i + 1);
            assert(cur.drop_last() =~= bytes@.subrange(0, i as int));
            assert(cur.last() == bytes@[i as int]);
            assert(s@ =~= bits_of_bytes(cur));
        }
        i = i + 1;
    }
    proof {
        assert(bytes@.subrange(0, bytes@.len() as int) =~= bytes@);
        lemma_bits_of_bytes_len(bytes@);
        lemma_bits_of_bytes_binary(bytes@);
    }
    s
}

/// The byte sequence encoded by an entropy bit string: groups of eight
/// digits, each read as one byte, most-significant bit first.
///
/// Accepts exactly the valid entropy strings of this scheme — 256 binary
/// digits — and reports a format error on any other input.
pub fn bits_to_bytes(s: &str) -> (r: Result<Vec<u8>, SplitError>)
    ensures
        r is Ok <==> valid_bit_string(s@),
        r matches Ok(v) ==> v@ == bytes_of_bits(s@) && v@.len() == 32,
        r matches Err(e) ==> e == SplitError::FormatError,
{
    if s.unicode_len() != 256 {
        return Err(SplitError::FormatError);
    }
    let mut out: Vec<u8> = Vec::new();
    let mut i: usize = 0;
    while i < 32
        invariant
            s@.len() == 256,
            i <= 32,
            out@.len() == i,
            forall|k: int|
                0 <= k < i ==> #[trigger] out@[k] == byte_of_bits(s@.subrange(8 * k, 8 * k + 8)),
            forall|k: int| 0 <= k < 8 * i ==> is_bit_char(#[trigger] s@[k]),
        decreases 32 - i,
    {
        let c0 = s.get_char(8 * i);
        let c1 = s.get_char(8 * i + 1);
        let c2 = s.get_char(8 * i + 2);
        let c3 = s.get_char(8 * i + 3);
        let c4 = s.get_char(8 * i + 4);
        let c5 = s.get_char(8 * i + 5);
        let c6 = s.get_char(8 * i + 6);
        let c7 = s.get_char(8 * i + 7);
        if !((c0 == '0' || c0 == '1') && (c1 == '0' || c1 == '1') && (c2 == '0' || c2 == '1') && (
        c3 == '0' || c3 == '1') && (c4 == '0' || c4 == '1') && (c5 == '0' || c5 == '1') && (c6
            == '0' || c6 == '1') && (c7 == '0' || c7 == '1')) {
            proof {
                if valid_bit_string(s@) {
                    assert(is_bit_char(s@[8 * (i as int)]));
                    assert(is_bit_char(s@[8 * (i as int) + 1]));
                    assert(is_bit_char(s@[8 * (i as int) + 2]));
                    assert(is_bit_char(s@[8 * (i as int) + 3]));
                    assert(is_bit_char(s@[8 * (i as int) + 4]));
                    assert(is_bit_char(s@[8 * (i as int) + 5]));
                    assert(is_bit_char(s@[8 * (i as int) + 6]));
                    assert(is_bit_char(s@[8 * (i as int) + 7]));
                }
            }
            return Err(SplitError::FormatError);
        }
        let v = (char_bit_val(c0) << 7) | (char_bit_val(c1) << 6) | (char_bit_val(c2) << 5) | (
        char_bit_val(c3) << 4) | (char_bit_val(c4) << 3) | (char_bit_val(c5) << 2) | (char_bit_val(
            c6,
        ) << 1) | char_bit_val(c7);
        out.push(v);
        proof {
            let chunk = s@.subrange(8 * (i as int), 8 * (i as int) + 8);
            assert(chunk[0] == c0 && chunk[1] == c1 && chunk[2] == c2 && chunk[3] == c3 && chunk[4]
                == c4 && chunk[5] == c5 && chunk[6] == c6 && chunk[7] == c7);
            assert(v == byte_of_bits(chunk));
        }
        i = i + 1;
    }
    proof {
        assert(valid_bit_string(s@));
        assert(out@ =~= bytes_of_bits(s@));
    }
    Ok(out)
}

} // verus!

