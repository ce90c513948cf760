//! NUL-terminated text fields.

use crate::error::DecodeError;
use crate::format::{is_terminator, lemma_text_by_terminator, parse_text};
use crate::reader::ByteReader;
use std::string::FromUtf8Error;
use vstd::prelude::*;
use vstd::utf8::{decode_utf8, valid_utf8};

verus! {

/// The error of `String::from_utf8`. Nothing is read out of it.
#[verifier::external_type_specification]
#[verifier::external_body]
pub struct ExFromUtf8Error(FromUtf8Error);

/// `String::from_utf8` succeeds exactly on the byte vectors that are valid
/// UTF-8, and the string it then returns consists of the characters that
/// those bytes encode. Not proved: this is what the standard library
/// documents of the function.
pub assume_specification[ String::from_utf8 ](bytes: Vec<u8>) -> (r: Result<String, FromUtf8Error>)
    ensures
        r is Ok <==> valid_utf8(bytes@),
        r matches Ok(text) ==> text@ == decode_utf8(bytes@),
;

/// Reads a text field: bytes up to the next zero byte, which is consumed
/// but is not part of the text, decoded as UTF-8.
///
/// The result is `TruncatedHeader` where no zero byte is left to read, and
/// `InvalidText` where the bytes in front of it are not valid UTF-8. An
/// empty field gives the empty string. No limit is put on the length of
/// the text: a caller that needs one hands in a reader over a bounded
/// slice.
pub fn read_c_utf8_str(reader: &mut ByteReader) -> (r: Result<String, DecodeError>)
    ensures
        match r {
            Ok(text) => {
                &&& parse_text(old(reader)@) matches Ok((expected, len))
                &&& text@ == expected
                &&& final(reader)@ == old(reader)@.skip(len as int)
            },
            Err(e) => parse_text(old(reader)@) == Err::<(Seq<char>, nat), DecodeError>(e),
        },
{
    let mut chars: Vec<u8> = Vec::new();
    loop
        invariant_except_break
            chars@.len() <= old(reader)@.len(),
            chars@ == old(reader)@.take(chars@.len() as int),
            reader@ == old(reader)@.skip(chars@.len() as int),
            forall|j: int| 0 <= j < chars@.len() ==> old(reader)@[j] != 0,
        ensures
            is_terminator(old(reader)@, chars@.len() as int),
            chars@ == old(reader)@.take(chars@.len() as int),
            reader@ == old(reader)@.skip(chars@.len() as int + 1),
        decreases reader@.len(),
    {
        match reader.read_byte() {
            None => {
                return Err(DecodeError::TruncatedHeader);
            },
            Some(c) => {
                if c == 0 {
                    break ;
                }
                chars.push(c);
            },
        }
    }
    proof {
        lemma_text_by_terminator(old(reader)@, chars@.len() as int);
    }
    match String::from_utf8(chars) {
        Ok(text) => Ok(text),
        Err(_) => Err(DecodeError::InvalidText),
    }
}

} // verus!
