//! Encodings that other crates decode: base64, percent-encoding, UTF-8, digests.

use vstd::prelude::*;
use vstd::utf8;

verus! {

/// The bytes that a text in padded base64 stands for, if it is one.
pub uninterp spec fn base64_padded(text: Seq<char>) -> Option<Seq<u8>>;

/// The bytes that a text in base64 without padding stands for, if it is one.
pub uninterp spec fn base64_unpadded(text: Seq<char>) -> Option<Seq<u8>>;

/// The text of some bytes that are not all UTF-8, with a replacement character for what is none.
pub uninterp spec fn utf8_repaired(bytes: Seq<u8>) -> Seq<char>;

/// The text of some bytes: what they encode where they are UTF-8, else with a replacement character
/// for what is none.
pub open spec fn utf8_lossy(bytes: Seq<u8>) -> Seq<char> {
    if utf8::valid_utf8(bytes) {
        utf8::decode_utf8(bytes)
    } else {
        utf8_repaired(bytes)
    }
}

/// The SHA-256 digest of some bytes.
pub uninterp spec fn sha256(bytes: Seq<u8>) -> Seq<u8>;

/// The bytes behind an optional vector.
pub open spec fn bytes_in(found: Option<Vec<u8>>) -> Option<Seq<u8>> {
    match found {
        Some(bytes) => Some(bytes@),
        None => None,
    }
}

/// Calls `base64::Engine::decode` of the engine `STANDARD`, which wants padding.
#[verifier::external_body]
pub(crate) fn decode_padded(text: &str) -> (r: Option<Vec<u8>>)
    ensures
        bytes_in(r) == base64_padded(text@),
{
    base64::Engine::decode(&base64::engine::general_purpose::STANDARD, text).ok()
}

/// Calls `base64::Engine::decode` of the engine `STANDARD_NO_PAD`, which wants no padding.
#[verifier::external_body]
pub(crate) fn decode_unpadded(text: &str) -> (r: Option<Vec<u8>>)
    ensures
        bytes_in(r) == base64_unpadded(text@),
{
    base64::Engine::decode(&base64::engine::general_purpose::STANDARD_NO_PAD, text).ok()
}

/// Calls `String::from_utf8_lossy`: of bytes that are UTF-8 it gives the text they encode, of any
/// others a function of the bytes.
#[verifier::external_body]
pub(crate) fn text_lossy(bytes: &[u8]) -> (r: String)
    ensures
        utf8::valid_utf8(bytes@) ==> r@ == utf8::decode_utf8(bytes@),
        !utf8::valid_utf8(bytes@) ==> r@ == utf8_repaired(bytes@),
{
    String::from_utf8_lossy(bytes).into_owned()
}

/// Calls `sha2::Digest::digest` of `sha2::Sha256`: a digest is always 32 bytes.
#[verifier::external_body]
pub(crate) fn digest(bytes: &[u8]) -> (r: Vec<u8>)
    ensures
        r@ == sha256(bytes@),
        r.len() == 32,
{
    <sha2::Sha256 as sha2::Digest>::digest(bytes).to_vec()
}

/// The hexadecimal digit for a number below sixteen.
pub open spec fn hex_digit(n: int) -> char {
    if n < 10 {
        ((48 + n) as u32) as char
    } else {
        ((87 + n) as u32) as char
    }
}

/// Some bytes as two lower-case hexadecimal digits each.
pub open spec fn hex_text(bytes: Seq<u8>) -> Seq<char> {
    Seq::new(
        2 * bytes.len(),
        |i: int|
            if i % 2 == 0 {
                hex_digit(bytes[i / 2] as int / 16)
            } else {
                hex_digit(bytes[i / 2] as int % 16)
            },
    )
}

/// Calls `hex::encode`, which writes each byte as two lower-case hexadecimal digits.
#[verifier::external_body]
pub(crate) fn hex_encode(bytes: &[u8]) -> (r: String)
    ensures
        r@ == hex_text(bytes@),
{
    hex::encode(bytes)
}

/// The value of a byte that is a hexadecimal digit.
pub open spec fn hex_value(b: u8) -> Option<int> {
    if 48 <= b <= 57 {
        Some(b - 48)
    } else if 65 <= b <= 70 {
        Some(b - 55)
    } else if 97 <= b <= 102 {
        Some(b - 87)
    } else {
        None
    }
}

/// The byte that the percent sign at `i` and two hexadecimal digits after it stand for.
pub open spec fn percent_at(bytes: Seq<u8>, i: int) -> Option<u8> {
    if 0 <= i && i + 2 < bytes.len() && bytes[i] == 37 {
        match (hex_value(bytes[i + 1]), hex_value(bytes[i + 2])) {
            (Some(high), Some(low)) => Some((high * 16 + low) as u8),
            _ => None,
        }
    } else {
        None
    }
}

/// The bytes from `i` on with percent-encoded ones decoded. A percent sign that two hexadecimal
/// digits do not follow stands for itself.
pub open spec fn percent_bytes(bytes: Seq<u8>, i: int) -> Seq<u8>
    decreases bytes.len() - i,
{
    if i < 0 || i >= bytes.len() {
        Seq::empty()
    } else {
        match percent_at(bytes, i) {
            Some(b) => seq![b] + percent_bytes(bytes, i + 3),
            None => seq![bytes[i]] + percent_bytes(bytes, i + 1),
        }
    }
}

/// A text with its percent-encoding decoded.
pub open spec fn percent_decoded(text: Seq<char>) -> Seq<char> {
    utf8_lossy(percent_bytes(utf8::encode_utf8(text), 0))
}

/// Calls `percent_encoding::percent_decode_str`, which gives the bytes of the text with each
/// percent sign that two hexadecimal digits follow, and those, replaced by the byte they stand
/// for.
#[verifier::external_body]
fn percent_decode(text: &str) -> (r: Vec<u8>)
    ensures
        r@ == percent_bytes(utf8::encode_utf8(text@), 0),
{
    percent_encoding::percent_decode_str(text).collect()
}

/// A text with its percent-encoding decoded.
pub fn percent_decoded_text(text: &str) -> (r: String)
    ensures
        r@ == percent_decoded(text@),
        utf8::valid_utf8(percent_bytes(utf8::encode_utf8(text@), 0)) ==> r@ == utf8::decode_utf8(
            percent_bytes(utf8::encode_utf8(text@), 0),
        ),
{
    text_lossy(&percent_decode(text))
}

} // verus!
