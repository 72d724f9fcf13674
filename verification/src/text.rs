//! Decoding of UTF-8 text.
use vstd::prelude::*;
use vstd::utf8::{decode_utf8, valid_utf8};

verus! {

#[verifier::external_type_specification]
#[verifier::external_body]
pub struct ExFromUtf8Error(std::string::FromUtf8Error);

#[verifier::external_type_specification]
#[verifier::external_body]
pub struct ExUtf8Error(std::str::Utf8Error);

/// `FromUtf8Error::utf8_error` (std) gives the error that describes where the
/// decoding failed; what it holds has no counterpart here and is not stated.
pub assume_specification[ std::string::FromUtf8Error::utf8_error ](e: &std::string::FromUtf8Error) -> std::str::Utf8Error;

/// `String::from_utf8` (std) accepts exactly the valid UTF-8 byte sequences
/// and returns the text that they encode.
pub assume_specification[ String::from_utf8 ](vec: Vec<u8>) -> (r: Result<String, std::string::FromUtf8Error>)
    ensures
        r is Ok <==> valid_utf8(vec@),
        r matches Ok(s) ==> s@ == decode_utf8(vec@),
;

} // verus!
