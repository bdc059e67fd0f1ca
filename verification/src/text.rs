use vstd::prelude::*;
use vstd::utf8::{decode_utf8, encode_utf8, valid_utf8};

use crate::wire::put_slice;

verus! {

/// The bytes of a text in UTF-8.
pub open spec fn text_bytes(s: Seq<char>) -> Seq<u8> {
    encode_utf8(s)
}

/// Makes a `String` of `bytes` with `std::string::String::from_utf8`, which
/// documents that it succeeds exactly when the bytes are valid UTF-8 and that
/// the string then holds those bytes. The error value is dropped.
#[verifier::external_body]
pub(crate) fn utf8_string(bytes: Vec<u8>) -> (r: Option<String>)
    ensures
        r is Some <==> valid_utf8(bytes@),
        r matches Some(s) ==> s@ == decode_utf8(bytes@),
{
    String::from_utf8(bytes).ok()
}

/// The UTF-8 bytes of a string, as a vector.
pub fn string_bytes(s: &String) -> (r: Vec<u8>)
    ensures
        r@ == text_bytes(s@),
{
    let mut r: Vec<u8> = Vec::new();
    put_slice(&mut r, s.as_str().as_bytes());
    r
}

} // verus!
