//! Conversions between byte buffers and strings.
//!
//! UTF-8 itself is modelled by `vstd::utf8`: `valid_utf8`, `encode_utf8`
//! and `decode_utf8`. Building an owned `String` from decoded bytes goes
//! through the standard library, behind trusted wrappers whose contracts
//! are stated over that model.
use vstd::prelude::*;
use vstd::utf8::{decode_utf8, valid_utf8};

verus! {

#[verifier::external_type_specification]
#[verifier::external_body]
pub struct ExFromUtf8Error(std::string::FromUtf8Error);

/// What a byte buffer decodes to when invalid sequences are replaced with
/// the replacement character: the result depends on the bytes alone.
pub uninterp spec fn lossy_utf8(bytes: Seq<u8>) -> Seq<char>;

/// Relies on `String::from_utf8`: returns the string the bytes encode when
/// they are valid UTF-8, and the encoding error otherwise.
#[verifier::external_body]
pub fn string_from_utf8(bytes: Vec<u8>) -> (r: Result<String, std::string::FromUtf8Error>)
    ensures
        r is Ok <==> valid_utf8(bytes@),
        r matches Ok(s) ==> s@ == decode_utf8(bytes@),
{
    String::from_utf8(bytes)
}

/// Relies on `String::from_utf8_lossy`: decodes the bytes, replacing
/// invalid sequences; on valid UTF-8 it is exactly the decoding.
#[verifier::external_body]
pub fn string_from_utf8_lossy(bytes: &[u8]) -> (r: String)
    ensures
        r@ == lossy_utf8(bytes@),
        valid_utf8(bytes@) ==> r@ == decode_utf8(bytes@),
{
    String::from_utf8_lossy(bytes).into_owned()
}

/// Relies on `String::push`: appends one character.
#[verifier::external_body]
pub fn push_char(s: &mut String, c: char)
    ensures
        final(s)@ == old(s)@.push(c),
{
    s.push(c);
}

} // verus!
