//! The bytes that a header is written as, and the law that decoding gives
//! back what they were written from.
//!
//! Nothing here runs: the crate reads headers and writes none. The
//! functions describe, for the sake of the law, the bytes that a writer
//! would produce for a header without an extra field.

use crate::error::DecodeError;
use crate::format::{
    flag_set, is_terminator, lemma_header_by_sections, lemma_text_by_terminator, parse_header,
    parse_optional_crc, parse_optional_text, HeaderModel, FCOMMENT, FEXTRA, FHCRC, FIXED_LEN,
    FNAME, ID1, ID2,
};
use crate::reader::{le_u16, le_u32};
use vstd::prelude::*;
use vstd::utf8::{decode_utf8, valid_utf8};

verus! {

/// The two bytes that spell `v`, low byte first.
pub open spec fn le_bytes_u16(v: u16) -> Seq<u8> {
    seq![(v % 0x100) as u8, (v / 0x100) as u8]
}

/// The four bytes that spell `v`, low byte first.
pub open spec fn le_bytes_u32(v: u32) -> Seq<u8> {
    seq![
        (v % 0x100) as u8,
        (v / 0x100 % 0x100) as u8,
        (v / 0x1_0000 % 0x100) as u8,
        (v / 0x100_0000) as u8,
    ]
}

/// Whether `bytes` can stand in a text field: valid UTF-8 without a zero
/// byte.
pub open spec fn is_text(bytes: Seq<u8>) -> bool {
    &&& valid_utf8(bytes)
    &&& forall|i: int| 0 <= i < bytes.len() ==> bytes[i] != 0
}

/// The bytes of an optional text field: the text and a zero byte, or
/// nothing.
pub open spec fn text_field_bytes(text: Option<Seq<u8>>) -> Seq<u8> {
    match text {
        Some(bytes) => bytes.push(0),
        None => Seq::empty(),
    }
}

/// The bytes of an optional header CRC.
pub open spec fn crc_bytes(header_crc: Option<u16>) -> Seq<u8> {
    match header_crc {
        Some(crc) => le_bytes_u16(crc),
        None => Seq::empty(),
    }
}

/// The characters of an optional text.
pub open spec fn decoded(text: Option<Seq<u8>>) -> Option<Seq<char>> {
    match text {
        Some(bytes) => Some(decode_utf8(bytes)),
        None => None,
    }
}

/// The ten bytes of the fixed prefix.
pub open spec fn fixed_bytes(method: u8, flags: u8, mtime: u32, extra_flags: u8, os: u8) -> Seq<
    u8,
> {
    seq![ID1, ID2, method, flags] + le_bytes_u32(mtime) + seq![extra_flags, os]
}

/// The bytes of a header without an extra field.
pub open spec fn header_bytes(
    method: u8,
    flags: u8,
    mtime: u32,
    extra_flags: u8,
    os: u8,
    name: Option<Seq<u8>>,
    comment: Option<Seq<u8>>,
    header_crc: Option<u16>,
) -> Seq<u8> {
    fixed_bytes(method, flags, mtime, extra_flags, os) + text_field_bytes(name)
        + text_field_bytes(comment) + crc_bytes(header_crc)
}

/// Joining sequences does not depend on where the brackets stand.
proof fn lemma_concat_assoc(a: Seq<u8>, b: Seq<u8>, c: Seq<u8>)
    ensures
        (a + b) + c == a + (b + c),
{
}

/// Reading little-endian undoes writing little-endian.
pub proof fn lemma_le_round_trip(v16: u16, v32: u32, rest: Seq<u8>)
    ensures
        le_u16(le_bytes_u16(v16) + rest) == v16,
        le_u32(le_bytes_u32(v32) + rest) == v32,
{
    let b16 = le_bytes_u16(v16) + rest;
    assert(b16[0] == (v16 % 0x100) as u8 && b16[1] == (v16 / 0x100) as u8);
    let b32 = le_bytes_u32(v32) + rest;
    assert(b32[0] == (v32 % 0x100) as u8 && b32[1] == (v32 / 0x100 % 0x100) as u8);
    assert(b32[2] == (v32 / 0x1_0000 % 0x100) as u8 && b32[3] == (v32 / 0x100_0000) as u8);
}

/// The fixed prefix is read back as it was written.
pub proof fn lemma_fixed_round_trip(
    method: u8,
    flags: u8,
    mtime: u32,
    extra_flags: u8,
    os: u8,
    rest: Seq<u8>,
)
    ensures
        ({
            let s = fixed_bytes(method, flags, mtime, extra_flags, os) + rest;
            &&& fixed_bytes(method, flags, mtime, extra_flags, os).len() == FIXED_LEN
            &&& s[0] == ID1
            &&& s[1] == ID2
            &&& s[2] == method
            &&& s[3] == flags
            &&& le_u32(s.skip(4)) == mtime
            &&& s[8] == extra_flags
            &&& s[9] == os
            &&& s.skip(FIXED_LEN as int) == rest
        }),
{
    let fixed = fixed_bytes(method, flags, mtime, extra_flags, os);
    let s = fixed + rest;
    assert(s.skip(4) == le_bytes_u32(mtime) + (seq![extra_flags, os] + rest));
    lemma_le_round_trip(0, mtime, seq![extra_flags, os] + rest);
}

/// A text field that is written and read again gives the characters that
/// its bytes encode, and occupies those bytes and the zero byte.
pub proof fn lemma_text_round_trip(flags: u8, bit: u8, text: Option<Seq<u8>>, rest: Seq<u8>)
    requires
        text is Some <==> flag_set(flags, bit),
        text matches Some(bytes) ==> is_text(bytes),
    ensures
        parse_optional_text(flags, bit, text_field_bytes(text) + rest) == Ok::<
            (Option<Seq<char>>, nat),
            DecodeError,
        >((decoded(text), text_field_bytes(text).len())),
        (text_field_bytes(text) + rest).skip(text_field_bytes(text).len() as int) == rest,
{
    let field = text_field_bytes(text);
    let s = field + rest;
    assert(s.skip(field.len() as int) == rest);
    if let Some(bytes) = text {
        let end = bytes.len() as int;
        assert(is_terminator(s, end)) by {
            assert(s[end] == field[end]);
            assert forall|j: int| 0 <= j < end implies s[j] != 0 by {
                assert(s[j] == bytes[j]);
            }
        }
        assert(s.take(end) == bytes);
        lemma_text_by_terminator(s, end);
    }
}

/// Round trip: a header without an extra field that is written with flags
/// that match its optional parts, and read again, gives the values it was
/// written from and occupies the bytes that were written, whatever
/// follows them.
pub proof fn lemma_header_round_trip(
    method: u8,
    flags: u8,
    mtime: u32,
    extra_flags: u8,
    os: u8,
    name: Option<Seq<u8>>,
    comment: Option<Seq<u8>>,
    header_crc: Option<u16>,
    rest: Seq<u8>,
)
    requires
        !flag_set(flags, FEXTRA),
        name is Some <==> flag_set(flags, FNAME),
        comment is Some <==> flag_set(flags, FCOMMENT),
        header_crc is Some <==> flag_set(flags, FHCRC),
        name matches Some(bytes) ==> is_text(bytes),
        comment matches Some(bytes) ==> is_text(bytes),
    ensures
        parse_header(
            header_bytes(method, flags, mtime, extra_flags, os, name, comment, header_crc) + rest,
        ) == Ok::<(HeaderModel, nat), DecodeError>(
            (
                HeaderModel {
                    method,
                    flags,
                    mtime,
                    extra_flags,
                    os,
                    extra_subfield_count: 0,
                    name: decoded(name),
                    comment: decoded(comment),
                    header_crc,
                },
                header_bytes(method, flags, mtime, extra_flags, os, name, comment, header_crc).len(),
            ),
        ),
{
    let fixed = fixed_bytes(method, flags, mtime, extra_flags, os);
    let name_field = text_field_bytes(name);
    let comment_field = text_field_bytes(comment);
    let crc_field = crc_bytes(header_crc);
    let after_comment = crc_field + rest;
    let after_name = comment_field + after_comment;
    let after_fixed = name_field + after_name;
    let s = fixed + after_fixed;
    assert(header_bytes(method, flags, mtime, extra_flags, os, name, comment, header_crc) + rest
        == s) by {
        lemma_concat_assoc(fixed + name_field + comment_field, crc_field, rest);
        lemma_concat_assoc(fixed + name_field, comment_field, after_comment);
        lemma_concat_assoc(fixed, name_field, after_name);
    }
    lemma_fixed_round_trip(method, flags, mtime, extra_flags, os, after_fixed);
    assert(s.skip(FIXED_LEN as int).skip(0) == after_fixed);
    lemma_text_round_trip(flags, FNAME, name, after_name);
    lemma_text_round_trip(flags, FCOMMENT, comment, after_comment);
    assert(parse_optional_crc(flags, after_comment) == Ok::<(Option<u16>, nat), DecodeError>(
        (header_crc, crc_field.len()),
    )) by {
        if let Some(crc) = header_crc {
            lemma_le_round_trip(crc, 0, rest);
        }
    }
    lemma_header_by_sections(
        s,
        (0, 0),
        (decoded(name), name_field.len()),
        (decoded(comment), comment_field.len()),
        (header_crc, crc_field.len()),
    );
}

} // verus!
