//! The wire format of a gzip member header, stated as mathematics.
//!
//! Each section of the header is described by a function from the bytes
//! that start at the section to either the section's value together with
//! the number of bytes the section occupies, or the reason why no such
//! section starts there. The decoder's contracts are stated over these
//! functions.
//!
//! ```text
//! offset  size  field
//!      0     1  ID1, must be 0x1F
//!      1     1  ID2, must be 0x8B
//!      2     1  compression method
//!      3     1  flags
//!      4     4  modification time, little-endian
//!      8     1  extra flags
//!      9     1  operating system
//!     10     …  extra field            (only if FEXTRA is set)
//!      …     …  file name, NUL-ended   (only if FNAME is set)
//!      …     …  comment, NUL-ended     (only if FCOMMENT is set)
//!      …     2  header CRC16, l.-e.    (only if FHCRC is set)
//! ```

use crate::error::DecodeError;
use crate::reader::{le_u16, le_u32};
use vstd::prelude::*;
use vstd::utf8::{decode_utf8, valid_utf8};

verus! {

/// First signature byte.
pub const ID1: u8 = 0x1f;

/// Second signature byte.
pub const ID2: u8 = 0x8b;

/// Flag bit: the payload is probably text. It announces no section.
pub const FTEXT: u8 = 0x01;

/// Flag bit: a CRC16 of the header closes the header.
pub const FHCRC: u8 = 0x02;

/// Flag bit: an extra field follows the fixed prefix.
pub const FEXTRA: u8 = 0x04;

/// Flag bit: a NUL-terminated file name is present.
pub const FNAME: u8 = 0x08;

/// Flag bit: a NUL-terminated comment is present.
pub const FCOMMENT: u8 = 0x10;

/// Length of the fixed prefix that every header starts with.
pub const FIXED_LEN: usize = 10;

/// Length of the tag and the length field that open every subfield.
pub const SUBFIELD_HEAD_LEN: u16 = 4;

/// What the bytes at the start of a section decode to: the section's value
/// and the number of bytes it occupies, or why there is no such section.
pub type Parsed<T> = Result<(T, nat), DecodeError>;

/// Whether `bit` is set in `flags`.
pub open spec fn flag_set(flags: u8, bit: u8) -> bool {
    flags & bit != 0
}

/// Whether `flags` announces none of the optional sections. `FTEXT` and
/// the reserved bits do not count: they announce nothing.
pub open spec fn no_optional_section(flags: u8) -> bool {
    &&& !flag_set(flags, FEXTRA)
    &&& !flag_set(flags, FNAME)
    &&& !flag_set(flags, FCOMMENT)
    &&& !flag_set(flags, FHCRC)
}

/// A decoded header, as a mathematical value.
pub struct HeaderModel {
    pub method: u8,
    pub flags: u8,
    pub mtime: u32,
    pub extra_flags: u8,
    pub os: u8,
    pub extra_subfield_count: nat,
    pub name: Option<Seq<char>>,
    pub comment: Option<Seq<char>>,
    pub header_crc: Option<u16>,
}

impl HeaderModel {
    /// The optional parts are present exactly when their flag bit is set,
    /// and no subfields are counted without an extra field.
    pub open spec fn consistent(self) -> bool {
        &&& !flag_set(self.flags, FEXTRA) ==> self.extra_subfield_count == 0
        &&& self.name is Some <==> flag_set(self.flags, FNAME)
        &&& self.comment is Some <==> flag_set(self.flags, FCOMMENT)
        &&& self.header_crc is Some <==> flag_set(self.flags, FHCRC)
    }
}

/// The number of subfields in a subfield list that starts at `s` and is
/// declared to be `budget` bytes long.
///
/// A subfield is a two-byte tag, a little-endian 16-bit payload length and
/// the payload. The list is well formed when its subfields fill the budget
/// exactly: a remainder of one to three bytes cannot hold another subfield,
/// and a payload may not reach past the budget. Both are `MalformedExtra`,
/// and are noticed before the bytes in question are asked for.
pub open spec fn parse_subfields(s: Seq<u8>, budget: nat) -> Result<nat, DecodeError>
    decreases budget,
{
    if budget == 0 {
        Ok(0)
    } else if budget < SUBFIELD_HEAD_LEN {
        Err(DecodeError::MalformedExtra)
    } else if s.len() < SUBFIELD_HEAD_LEN {
        Err(DecodeError::TruncatedHeader)
    } else {
        let payload_len = le_u16(s.skip(2)) as nat;
        let subfield_len = SUBFIELD_HEAD_LEN + payload_len;
        if subfield_len > budget {
            Err(DecodeError::MalformedExtra)
        } else if s.len() < subfield_len {
            Err(DecodeError::TruncatedHeader)
        } else {
            match parse_subfields(s.skip(subfield_len as int), (budget - subfield_len) as nat) {
                Ok(count) => Ok(count + 1),
                Err(e) => Err(e),
            }
        }
    }
}

/// The extra field that starts at `s`: a little-endian 16-bit length and a
/// subfield list of that length. Its value is the number of subfields.
pub open spec fn parse_extra(s: Seq<u8>) -> Parsed<nat> {
    if s.len() < 2 {
        Err(DecodeError::TruncatedHeader)
    } else {
        match parse_subfields(s.skip(2), le_u16(s) as nat) {
            Ok(count) => Ok((count, (2 + le_u16(s)) as nat)),
            Err(e) => Err(e),
        }
    }
}

/// Whether the first zero byte of `s` is at index `i`.
pub open spec fn is_terminator(s: Seq<u8>, i: int) -> bool {
    &&& 0 <= i < s.len()
    &&& s[i] == 0
    &&& forall|j: int| 0 <= j < i ==> s[j] != 0
}

/// The text field that starts at `s`: the bytes in front of the first zero
/// byte, read as UTF-8. The zero byte belongs to the field but not to the
/// text.
pub open spec fn parse_text(s: Seq<u8>) -> Parsed<Seq<char>> {
    if exists|i: int| is_terminator(s, i) {
        let end = choose|i: int| is_terminator(s, i);
        if valid_utf8(s.take(end)) {
            Ok((decode_utf8(s.take(end)), (end + 1) as nat))
        } else {
            Err(DecodeError::InvalidText)
        }
    } else {
        Err(DecodeError::TruncatedHeader)
    }
}

/// A subfield list that decodes lies wholly inside the bytes it was read
/// from, and each of its subfields takes at least its four leading bytes.
pub proof fn lemma_subfields_within(s: Seq<u8>, budget: nat)
    ensures
        parse_subfields(s, budget) matches Ok(count) ==> budget <= s.len() && SUBFIELD_HEAD_LEN
            * count <= budget,
    decreases budget,
{
    if budget >= SUBFIELD_HEAD_LEN && s.len() >= SUBFIELD_HEAD_LEN {
        let subfield_len = SUBFIELD_HEAD_LEN + le_u16(s.skip(2)) as nat;
        if subfield_len <= budget && subfield_len <= s.len() {
            lemma_subfields_within(s.skip(subfield_len as int), (budget - subfield_len) as nat);
        }
    }
}

/// An extra field that decodes occupies its two length bytes and exactly
/// as many bytes as they declare, all of them inside `s`.
pub proof fn lemma_extra_within(s: Seq<u8>)
    ensures
        parse_extra(s) matches Ok((count, len)) ==> {
            &&& len == 2 + le_u16(s)
            &&& len <= s.len()
            &&& SUBFIELD_HEAD_LEN * count <= le_u16(s)
        },
{
    if s.len() >= 2 {
        lemma_subfields_within(s.skip(2), le_u16(s) as nat);
    }
}

/// The first zero byte of a sequence is at one index only.
pub proof fn lemma_terminator_unique(s: Seq<u8>, i: int, j: int)
    requires
        is_terminator(s, i),
        is_terminator(s, j),
    ensures
        i == j,
{
}

/// A text field that decodes ends with the first zero byte of `s`, and its
/// text is what the bytes in front of that byte spell in UTF-8.
pub proof fn lemma_text_within(s: Seq<u8>)
    ensures
        parse_text(s) matches Ok((text, len)) ==> {
            &&& 1 <= len <= s.len()
            &&& is_terminator(s, len - 1)
            &&& valid_utf8(s.take(len - 1))
            &&& text == decode_utf8(s.take(len - 1))
        },
{
}

/// What a text field decodes to, given where its zero byte is.
pub proof fn lemma_text_by_terminator(s: Seq<u8>, end: int)
    requires
        is_terminator(s, end),
    ensures
        parse_text(s) == (if valid_utf8(s.take(end)) {
            Ok::<(Seq<char>, nat), DecodeError>((decode_utf8(s.take(end)), (end + 1) as nat))
        } else {
            Err::<(Seq<char>, nat), DecodeError>(DecodeError::InvalidText)
        }),
{
    lemma_terminator_unique(s, end, choose|i: int| is_terminator(s, i));
}

/// The extra field at `s` if `flags` announces one, else nothing.
pub open spec fn parse_optional_extra(flags: u8, s: Seq<u8>) -> Parsed<nat> {
    if flag_set(flags, FEXTRA) {
        parse_extra(s)
    } else {
        Ok((0, 0))
    }
}

/// The text field at `s` if `flags` announces it by `bit`, else nothing.
pub open spec fn parse_optional_text(flags: u8, bit: u8, s: Seq<u8>) -> Parsed<Option<Seq<char>>> {
    if flag_set(flags, bit) {
        match parse_text(s) {
            Ok((text, len)) => Ok((Some(text), len)),
            Err(e) => Err(e),
        }
    } else {
        Ok((None, 0))
    }
}

/// The header CRC at `s` if `flags` announces one, else nothing.
pub open spec fn parse_optional_crc(flags: u8, s: Seq<u8>) -> Parsed<Option<u16>> {
    if flag_set(flags, FHCRC) {
        if s.len() < 2 {
            Err(DecodeError::TruncatedHeader)
        } else {
            Ok((Some(le_u16(s)), 2))
        }
    } else {
        Ok((None, 0))
    }
}

/// The header that starts at `s`.
///
/// The signature is judged as soon as its two bytes are there, so a wrong
/// signature is `MagicMismatch` however short the input is beyond it. The
/// optional sections follow the fixed prefix in the order extra field,
/// name, comment, CRC, each starting where the one before it ends.
pub open spec fn parse_header(s: Seq<u8>) -> Parsed<HeaderModel> {
    if s.len() < 2 {
        Err(DecodeError::TruncatedHeader)
    } else if s[0] != ID1 || s[1] != ID2 {
        Err(DecodeError::MagicMismatch)
    } else if s.len() < FIXED_LEN {
        Err(DecodeError::TruncatedHeader)
    } else {
        let flags = s[3];
        let after_fixed = s.skip(FIXED_LEN as int);
        match parse_optional_extra(flags, after_fixed) {
            Err(e) => Err(e),
            Ok((extra_subfield_count, extra_len)) => {
                let after_extra = after_fixed.skip(extra_len as int);
                match parse_optional_text(flags, FNAME, after_extra) {
                    Err(e) => Err(e),
                    Ok((name, name_len)) => {
                        let after_name = after_extra.skip(name_len as int);
                        match parse_optional_text(flags, FCOMMENT, after_name) {
                            Err(e) => Err(e),
                            Ok((comment, comment_len)) => {
                                let after_comment = after_name.skip(comment_len as int);
                                match parse_optional_crc(flags, after_comment) {
                                    Err(e) => Err(e),
                                    Ok((header_crc, crc_len)) => Ok(
                                        (
                                            HeaderModel {
                                                method: s[2],
                                                flags,
                                                mtime: le_u32(s.skip(4)),
                                                extra_flags: s[8],
                                                os: s[9],
                                                extra_subfield_count,
                                                name,
                                                comment,
                                                header_crc,
                                            },
                                            (FIXED_LEN + extra_len + name_len + comment_len
                                                + crc_len) as nat,
                                        ),
                                    ),
                                }
                            },
                        }
                    },
                }
            },
        }
    }
}

/// A header is its fixed prefix and the four optional sections, each read
/// where the one before it ends.
pub proof fn lemma_header_by_sections(
    s: Seq<u8>,
    extra: (nat, nat),
    name: (Option<Seq<char>>, nat),
    comment: (Option<Seq<char>>, nat),
    crc: (Option<u16>, nat),
)
    requires
        s.len() >= FIXED_LEN,
        s[0] == ID1,
        s[1] == ID2,
        parse_optional_extra(s[3], s.skip(FIXED_LEN as int)) == Ok::<(nat, nat), DecodeError>(
            extra,
        ),
        parse_optional_text(s[3], FNAME, s.skip(FIXED_LEN as int).skip(extra.1 as int)) == Ok::<
            (Option<Seq<char>>, nat),
            DecodeError,
        >(name),
        parse_optional_text(
            s[3],
            FCOMMENT,
            s.skip(FIXED_LEN as int).skip(extra.1 as int).skip(name.1 as int),
        ) == Ok::<(Option<Seq<char>>, nat), DecodeError>(comment),
        parse_optional_crc(
            s[3],
            s.skip(FIXED_LEN as int).skip(extra.1 as int).skip(name.1 as int).skip(
                comment.1 as int,
            ),
        ) == Ok::<(Option<u16>, nat), DecodeError>(crc),
    ensures
        parse_header(s) == Ok::<(HeaderModel, nat), DecodeError>(
            (
                HeaderModel {
                    method: s[2],
                    flags: s[3],
                    mtime: le_u32(s.skip(4)),
                    extra_flags: s[8],
                    os: s[9],
                    extra_subfield_count: extra.0,
                    name: name.0,
                    comment: comment.0,
                    header_crc: crc.0,
                },
                (FIXED_LEN + extra.1 + name.1 + comment.1 + crc.1) as nat,
            ),
        ),
{
}

} // verus!
