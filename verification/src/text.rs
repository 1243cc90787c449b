//! Turning the bytes of a line into text.

use vstd::prelude::*;
use vstd::utf8::decode_utf8;
use vstd::utf8::valid_utf8;

verus! {

/// Decodes `bytes` as UTF-8 text by `String::from_utf8`.
///
/// Taken on trust from the standard library's documentation: the call
/// succeeds exactly when the bytes are well-formed UTF-8, and the string it
/// returns then holds the characters that these bytes encode.
#[verifier::external_body]
pub(crate) fn text_of_bytes(bytes: Vec<u8>) -> (text: Option<String>)
    ensures
        text is Some <==> valid_utf8(bytes@),
        text matches Some(decoded) ==> decoded@ == decode_utf8(bytes@),
{
    match String::from_utf8(bytes) {
        Ok(decoded) => Some(decoded),
        Err(_) => None,
    }
}

} // verus!
