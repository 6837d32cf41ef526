//! Hex encoding and decoding of byte strings, as the `hex` crate does it.

use vstd::prelude::*;
use vstd::utf8::{encode_utf8, is_ascii_chars, is_ascii_chars_encode_utf8};

verus! {

/// The lower-case hex digit of a nibble (`0..16`).
pub open spec fn hex_char(n: int) -> char {
    if n == 0 { '0' } else if n == 1 { '1' } else if n == 2 { '2' } else if n == 3 { '3' }
    else if n == 4 { '4' } else if n == 5 { '5' } else if n == 6 { '6' } else if n == 7 { '7' }
    else if n == 8 { '8' } else if n == 9 { '9' } else if n == 10 { 'a' } else if n == 11 { 'b' }
    else if n == 12 { 'c' } else if n == 13 { 'd' } else if n == 14 { 'e' } else { 'f' }
}

/// Lower-case hex encoding: two digits per byte, high nibble first.
pub open spec fn hex_encoded(data: Seq<u8>) -> Seq<char> {
    Seq::new(
        (2 * data.len()) as nat,
        |i: int| if i % 2 == 0 { hex_char(data[i / 2] as int / 16) } else { hex_char(data[i / 2] as int % 16) },
    )
}

/// Encodes `data` as a lower-case hex string.
///
/// Trusted: calls `hex::encode`, which the `hex` crate implements by
/// emitting, for each byte, the digit of its high nibble and then the digit
/// of its low nibble, from the table `0123456789abcdef`.
#[verifier::external_body]
pub(crate) fn encode_hex(data: &[u8]) -> (s: String)
    ensures
        s@ == hex_encoded(data@),
{
    hex::encode(data)
}

/// Whether `b` is an ASCII hex digit, in either case.
pub open spec fn is_hex_digit(b: u8) -> bool {
    (48 <= b <= 57) || (65 <= b <= 70) || (97 <= b <= 102)
}

/// The value of an ASCII hex digit.
pub open spec fn hex_digit_value(b: u8) -> int {
    if 48 <= b <= 57 {
        b - 48
    } else if 65 <= b <= 70 {
        b - 55
    } else {
        b - 87
    }
}

/// Whether every byte of `text` is a hex digit.
pub open spec fn all_hex_digits(text: Seq<u8>) -> bool {
    forall|i: int| 0 <= i < text.len() ==> is_hex_digit(#[trigger] text[i])
}

/// The bytes that an even-length string of hex digits stands for.
pub open spec fn hex_decoded(text: Seq<u8>) -> Seq<u8> {
    Seq::new(
        text.len() / 2,
        |i: int| (16 * hex_digit_value(text[2 * i]) + hex_digit_value(text[2 * i + 1])) as u8,
    )
}

/// Whether `text` is an even number of hex digits, which decoding accepts.
pub fn is_hex_text(text: &[u8]) -> (ok: bool)
    ensures
        ok == (text@.len() % 2 == 0 && all_hex_digits(text@)),
{
    if text.len() % 2 != 0 {
        return false;
    }
    let mut i: usize = 0;
    while i < text.len()
        invariant
            i <= text@.len(),
            text@.len() % 2 == 0,
            forall|j: int| 0 <= j < i ==> is_hex_digit(#[trigger] text@[j]),
        decreases text@.len() - i,
    {
        let b = text[i];
        if !((48 <= b && b <= 57) || (65 <= b && b <= 70) || (97 <= b && b <= 102)) {
            assert(!is_hex_digit(text@[i as int]));
            return false;
        }
        i = i + 1;
    }
    true
}

/// Why a string of bytes is not a hex encoding.
#[derive(Debug, Clone, Copy, PartialEq, Eq)]
pub enum HexError {
    /// The byte at `index`, read as the character `c`, is not a hex digit.
    InvalidHexCharacter { c: char, index: usize },
    /// The string has an odd number of digits.
    OddLength,
    /// The string does not fit the size of the output.
    InvalidStringLength,
}

/// What decoding `text` gives: `Ok` with the bytes when `text` is an even
/// number of hex digits; `OddLength` when its length is odd; otherwise the
/// first byte that is not a hex digit, with its position.
pub open spec fn hex_decode_result(text: Seq<u8>, r: Result<Seq<u8>, HexError>) -> bool {
    match r {
        Ok(bytes) => text.len() % 2 == 0 && all_hex_digits(text) && bytes == hex_decoded(text),
        Err(HexError::OddLength) => text.len() % 2 == 1,
        Err(HexError::InvalidHexCharacter { c, index }) => {
            &&& text.len() % 2 == 0
            &&& index < text.len()
            &&& !is_hex_digit(text[index as int])
            &&& forall|j: int| 0 <= j < index ==> is_hex_digit(#[trigger] text[j])
            &&& c == text[index as int] as char
        },
        Err(HexError::InvalidStringLength) => false,
    }
}

/// The result of a decoding, with the bytes taken by their view.
pub open spec fn decoded_view(r: Result<Vec<u8>, HexError>) -> Result<Seq<u8>, HexError> {
    match r {
        Ok(v) => Ok(v@),
        Err(e) => Err(e),
    }
}

/// Decodes a string of hex digits, upper or lower case, into bytes.
///
/// Trusted: calls `hex::decode`, which the `hex` crate implements by
/// failing with `OddLength` on an odd length, and otherwise reading the
/// digits pair by pair, high digit first, and failing with
/// `InvalidHexCharacter` at the first byte that is not in `0-9`, `a-f` or
/// `A-F`; it never fails with `InvalidStringLength`. The arms below only
/// carry each error variant over to the library's own type.
#[verifier::external_body]
pub(crate) fn decode_hex(text: &[u8]) -> (r: Result<Vec<u8>, HexError>)
    ensures
        hex_decode_result(text@, decoded_view(r)),
{
    match hex::decode(text) {
        Ok(bytes) => Ok(bytes),
        Err(hex::FromHexError::InvalidHexCharacter { c, index }) => Err(
            HexError::InvalidHexCharacter { c, index },
        ),
        Err(hex::FromHexError::OddLength) => Err(HexError::OddLength),
        Err(hex::FromHexError::InvalidStringLength) => Err(HexError::InvalidStringLength),
    }
}

/// Distinct nibbles have distinct digits.
proof fn lemma_hex_char_injective(m: int, n: int)
    requires
        0 <= m < 16,
        0 <= n < 16,
        hex_char(m) == hex_char(n),
    ensures
        m == n,
{
}

/// Distinct byte strings have distinct hex encodings.
pub proof fn lemma_hex_encoded_injective(a: Seq<u8>, b: Seq<u8>)
    requires
        hex_encoded(a) == hex_encoded(b),
    ensures
        a == b,
{
    assert(hex_encoded(a).len() == 2 * a.len());
    assert(hex_encoded(b).len() == 2 * b.len());
    assert forall|i: int| 0 <= i < a.len() implies a[i] == b[i] by {
        assert(hex_encoded(a)[2 * i] == hex_encoded(b)[2 * i]);
        assert(hex_encoded(a)[2 * i + 1] == hex_encoded(b)[2 * i + 1]);
        assert((2 * i) / 2 == i && (2 * i) % 2 == 0);
        assert((2 * i + 1) / 2 == i && (2 * i + 1) % 2 == 1);
        let (x, y) = (a[i] as int, b[i] as int);
        assert(hex_encoded(a)[2 * i] == hex_char(x / 16));
        assert(hex_encoded(b)[2 * i] == hex_char(y / 16));
        assert(hex_encoded(a)[2 * i + 1] == hex_char(x % 16));
        assert(hex_encoded(b)[2 * i + 1] == hex_char(y % 16));
        lemma_hex_char_injective(x / 16, y / 16);
        lemma_hex_char_injective(x % 16, y % 16);
        assert(x == 16 * (x / 16) + x % 16);
        assert(y == 16 * (y / 16) + y % 16);
    }
    assert(a =~= b);
}

/// Each digit is an ASCII hex digit whose value is the nibble it stands for.
proof fn lemma_hex_char_digit(n: int)
    requires
        0 <= n < 16,
    ensures
        hex_char(n) <= '\u{7f}',
        is_hex_digit(hex_char(n) as u8),
        hex_digit_value(hex_char(n) as u8) == n,
{
}

/// Decoding the bytes of the hex encoding of `data` succeeds and gives
/// `data` back.
pub proof fn lemma_hex_roundtrip(data: Seq<u8>)
    ensures
        encode_utf8(hex_encoded(data)).len() == 2 * data.len(),
        all_hex_digits(encode_utf8(hex_encoded(data))),
        hex_decoded(encode_utf8(hex_encoded(data))) == data,
{
    let chars = hex_encoded(data);
    assert forall|i: int| 0 <= i < chars.len() implies '\0' <= #[trigger] chars[i] <= '\u{7f}' by {
        lemma_hex_char_digit(data[i / 2] as int / 16);
        lemma_hex_char_digit(data[i / 2] as int % 16);
    }
    assert(is_ascii_chars(chars));
    is_ascii_chars_encode_utf8(chars);
    let bytes = encode_utf8(chars);
    assert forall|i: int| 0 <= i < bytes.len() implies is_hex_digit(#[trigger] bytes[i]) by {
        assert(bytes[i] == chars[i] as u8);
        lemma_hex_char_digit(data[i / 2] as int / 16);
        lemma_hex_char_digit(data[i / 2] as int % 16);
    }
    assert forall|i: int| 0 <= i < data.len() implies #[trigger] hex_decoded(bytes)[i] == data[i] by {
        let x = data[i] as int;
        assert(bytes[2 * i] == chars[2 * i] as u8);
        assert(bytes[2 * i + 1] == chars[2 * i + 1] as u8);
        assert((2 * i) / 2 == i && (2 * i) % 2 == 0);
        assert((2 * i + 1) / 2 == i && (2 * i + 1) % 2 == 1);
        assert(chars[2 * i] == hex_char(x / 16));
        assert(chars[2 * i + 1] == hex_char(x % 16));
        lemma_hex_char_digit(x / 16);
        lemma_hex_char_digit(x % 16);
        assert(x == 16 * (x / 16) + x % 16);
    }
    assert(hex_decoded(bytes) =~= data);
}

} // verus!
