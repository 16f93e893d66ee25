//! Text and its UTF-8 octets.

use vstd::prelude::*;
use vstd::string::{StrSliceExecFns, StringSliceAdditionalSpecFns};
use vstd::utf8::{decode_utf8, encode_utf8, valid_utf8};

verus! {

/// `std::string::FromUtf8Error` of the standard library: why octets are no
/// UTF-8. Nothing is said of what it holds.
#[verifier::external_type_specification]
#[verifier::external_body]
pub struct ExFromUtf8Error(std::string::FromUtf8Error);

/// `String::from_utf8` of the standard library: it succeeds exactly on
/// well-formed UTF-8, and the text then holds the characters that the octets
/// encode.
pub assume_specification[ String::from_utf8 ](vec: Vec<u8>) -> (r: Result<
    String,
    std::string::FromUtf8Error,
>)
    ensures
        r.is_ok() == valid_utf8(vec@),
        r matches Ok(s) ==> s@ == decode_utf8(vec@),
;

/// The text that octets encode, if they are well-formed UTF-8.
pub open spec fn text_of(octets: Seq<u8>) -> Option<Seq<char>> {
    if valid_utf8(octets) {
        Some(decode_utf8(octets))
    } else {
        None
    }
}

/// Reads octets as UTF-8 text.
pub fn utf8_string(octets: Vec<u8>) -> (r: Option<String>)
    ensures
        match text_of(octets@) {
            Some(text) => r matches Some(s) && s@ == text,
            None => r.is_none(),
        },
{
    match String::from_utf8(octets) {
        Ok(s) => Some(s),
        Err(_) => None,
    }
}

/// The UTF-8 octets of a text.
pub fn string_octets(text: &str) -> (r: Vec<u8>)
    ensures
        r@ == encode_utf8(text@),
{
    text.as_bytes_vec()
}

/// Text that was written as UTF-8 is read back unchanged.
pub proof fn lemma_text_round_trip(text: Seq<char>)
    ensures
        text_of(encode_utf8(text)) == Some(text),
{
    vstd::utf8::encode_utf8_valid_utf8(text);
    vstd::utf8::encode_utf8_decode_utf8(text);
}

} // verus!
