//! Text encodings: unpadded base32 and base64, and UTF-8.
use data_encoding::{BASE32_NOPAD, BASE64_NOPAD};
use vstd::prelude::*;

verus! {

/// What unpadded base32 decoding makes of a string of bytes, when it accepts it.
pub uninterp spec fn base32_decoding_of(s: Seq<u8>) -> Option<Seq<u8>>;

/// The unpadded base64 encoding of a byte string.
pub uninterp spec fn base64_encoding_of(b: Seq<u8>) -> Seq<u8>;

/// What unpadded base64 decoding makes of a string of bytes, when it accepts it.
pub uninterp spec fn base64_decoding_of(s: Seq<u8>) -> Option<Seq<u8>>;

/// The symbols of the base64 alphabet: `A-Z`, `a-z`, `0-9`, `+` and `/`.
pub open spec fn is_base64_symbol(c: u8) -> bool {
    (65 <= c <= 90) || (97 <= c <= 122) || (48 <= c <= 57) || c == 43 || c == 47
}

/// Relies on `data_encoding::BASE32_NOPAD.decode`, which depends on its input
/// alone, to turn a base32 secret into key bytes.
#[verifier::external_body]
pub(crate) fn base32_decode(s: &[u8]) -> (r: Result<Vec<u8>, data_encoding::DecodeError>)
    ensures
        r is Ok <==> base32_decoding_of(s@) is Some,
        r is Ok ==> base32_decoding_of(s@) == Some(r->Ok_0@),
{
    BASE32_NOPAD.decode(s)
}

/// Relies on `data_encoding::BASE64_NOPAD.encode`: its output is drawn from the
/// base64 alphabet, and decoding it gives the input back (the crate documents
/// its encodings as correct: encoding followed by decoding gives the data).
#[verifier::external_body]
pub(crate) fn base64_encode(b: &[u8]) -> (r: Vec<u8>)
    ensures
        r@ == base64_encoding_of(b@),
        forall|i: int| 0 <= i < r@.len() ==> is_base64_symbol(#[trigger] r@[i]),
        base64_decoding_of(r@) == Some(b@),
{
    BASE64_NOPAD.encode(b).into_bytes()
}

/// Relies on `data_encoding::BASE64_NOPAD.decode`, which depends on its input alone.
#[verifier::external_body]
pub(crate) fn base64_decode(s: &[u8]) -> (r: Option<Vec<u8>>)
    ensures
        r is Some <==> base64_decoding_of(s@) is Some,
        r is Some ==> base64_decoding_of(s@) == Some(r->Some_0@),
{
    BASE64_NOPAD.decode(s).ok()
}

/// Relies on `String::from_utf8`: it accepts exactly the valid UTF-8 byte
/// strings, and the string it returns holds the characters they encode.
#[verifier::external_body]
pub(crate) fn utf8_string(b: Vec<u8>) -> (r: Option<String>)
    ensures
        r is Some <==> vstd::utf8::valid_utf8(b@),
        r is Some ==> r->Some_0@ == vstd::utf8::decode_utf8(b@),
{
    String::from_utf8(b).ok()
}

/// The characters that stand for a string of ASCII bytes.
pub open spec fn ascii_chars(b: Seq<u8>) -> Seq<char> {
    b.map_values(|x: u8| x as char)
}

/// An ASCII byte string is valid UTF-8 and encodes the characters that stand
/// for its bytes one by one.
pub proof fn lemma_ascii_utf8(b: Seq<u8>)
    requires
        forall|i: int| 0 <= i < b.len() ==> b[i] < 128,
    ensures
        vstd::utf8::valid_utf8(b),
        vstd::utf8::decode_utf8(b) == ascii_chars(b),
        vstd::utf8::encode_utf8(ascii_chars(b)) == b,
{
    let c = ascii_chars(b);
    assert(vstd::utf8::is_ascii_chars(c));
    vstd::utf8::is_ascii_chars_encode_utf8(c);
    assert(vstd::utf8::encode_utf8(c) =~= b);
    vstd::utf8::encode_utf8_valid_utf8(c);
    vstd::utf8::encode_utf8_decode_utf8(c);
}

} // verus!
