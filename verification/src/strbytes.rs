//! Conversions between owned byte vectors and UTF-8 strings, stated over
//! `encode_utf8` of the string's character view so that every codec
//! contract can speak in `Seq<u8>` alone.

use vstd::prelude::*;
use vstd::utf8::{encode_utf8, valid_utf8};

verus! {

/// The bytes of a string, as a spec-level sequence.
pub open spec fn str_bytes(s: &str) -> Seq<u8> {
    encode_utf8(s@)
}

/// The bytes of an owned string, as a spec-level sequence.
pub open spec fn string_bytes(s: &String) -> Seq<u8> {
    encode_utf8(s@)
}

/// Relies on `String::from_utf8`: it returns `Ok` exactly on valid UTF-8
/// input, and the resulting string holds exactly the input bytes.
#[verifier::external_body]
pub fn bytes_to_string(v: Vec<u8>) -> (r: Result<String, crate::ChatError>)
    ensures
        r is Ok <==> valid_utf8(v@),
        r matches Ok(s) ==> string_bytes(&s) == v@,
        r matches Err(e) ==> e == crate::ChatError::FormatError,
{
    match String::from_utf8(v) {
        Ok(s) => Ok(s),
        Err(_) => Err(crate::ChatError::FormatError),
    }
}

/// UTF-8 encoding is injective: strings with the same bytes have the
/// same characters, so byte-level round trips carry over to strings.
pub proof fn lemma_same_bytes_same_chars(a: Seq<char>, b: Seq<char>)
    requires
        encode_utf8(a) == encode_utf8(b),
    ensures
        a == b,
{
    vstd::utf8::encode_utf8_decode_utf8(a);
    vstd::utf8::encode_utf8_decode_utf8(b);
}

/// The bytes of a string, as an owned vector.
pub fn str_to_bytes(s: &str) -> (r: Vec<u8>)
    ensures
        r@ == str_bytes(s),
{
    s.as_bytes_vec()
}

} // verus!
