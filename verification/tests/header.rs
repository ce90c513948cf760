use gzip_header::decoder::GzipReader;
use gzip_header::error::DecodeError;
use gzip_header::format::{FCOMMENT, FEXTRA, FHCRC, FNAME, FTEXT};
use gzip_header::header::GzipHeader;
use gzip_header::reader::ByteReader;

/// Decodes `data` and says how many bytes were left unread.
fn decode(data: &[u8]) -> (Result<GzipHeader, DecodeError>, usize) {
    let mut reader = ByteReader::new(data);
    let result = GzipReader::new(&mut reader).read_gzip_header();
    (result, reader.remaining())
}

fn error_of(data: &[u8]) -> DecodeError {
    decode(data).0.unwrap_err()
}

/// The fixed prefix with the given flags, and method 8, mtime 0x04030201,
/// extra flags 2 and operating system 3.
fn prefix(flags: u8) -> Vec<u8> {
    vec![0x1f, 0x8b, 8, flags, 0x01, 0x02, 0x03, 0x04, 2, 3]
}

/// A small encoder: writes the sections that the values call for, in the
/// order of the format, with the flags that match them.
fn encode(
    method: u8,
    text: bool,
    mtime: u32,
    extra_flags: u8,
    os: u8,
    empty_subfields: Option<u16>,
    name: Option<&str>,
    comment: Option<&str>,
    header_crc: Option<u16>,
) -> Vec<u8> {
    let mut flags = 0;
    if text {
        flags |= FTEXT;
    }
    if empty_subfields.is_some() {
        flags |= FEXTRA;
    }
    if name.is_some() {
        flags |= FNAME;
    }
    if comment.is_some() {
        flags |= FCOMMENT;
    }
    if header_crc.is_some() {
        flags |= FHCRC;
    }
    let mut out = vec![0x1f, 0x8b, method, flags];
    out.extend(mtime.to_le_bytes());
    out.push(extra_flags);
    out.push(os);
    if let Some(count) = empty_subfields {
        out.extend((count * 4).to_le_bytes());
        for _ in 0..count {
            out.extend([b'e', b's', 0, 0]);
        }
    }
    if let Some(name) = name {
        out.extend(name.as_bytes());
        out.push(0);
    }
    if let Some(comment) = comment {
        out.extend(comment.as_bytes());
        out.push(0);
    }
    if let Some(crc) = header_crc {
        out.extend(crc.to_le_bytes());
    }
    out
}

#[test]
fn plain_header_is_ten_bytes() {
    // Every flags byte that announces no section: FTEXT and the three
    // reserved bits in all combinations.
    for flags in [0x00u8, 0x01, 0x20, 0x40, 0x80, 0x21, 0xe0, 0xe1] {
        let mut data = vec![0x1f, 0x8b, 8, flags, 0x78, 0x56, 0x34, 0x12, 4, 255];
        data.extend([0xde, 0xad, 0xbe, 0xef]);
        let (result, left) = decode(&data);
        let header = result.unwrap();
        assert_eq!(left, 4);
        assert_eq!(header.method(), 8);
        assert_eq!(header.flags(), flags);
        assert_eq!(header.mtime(), 0x1234_5678);
        assert_eq!(header.extra_flags(), 4);
        assert_eq!(header.os(), 255);
        assert_eq!(header.extra_subfield_count(), 0);
        assert_eq!(header.name(), None);
        assert_eq!(header.comment(), None);
        assert_eq!(header.header_crc(), None);
    }
}

#[test]
fn plain_header_of_exactly_ten_bytes() {
    let (result, left) = decode(&prefix(0));
    assert!(result.is_ok());
    assert_eq!(left, 0);
}

#[test]
fn any_method_is_accepted() {
    for method in [0u8, 7, 8, 9, 255] {
        let data = [0x1f, 0x8b, method, 0, 0, 0, 0, 0, 0, 0];
        assert_eq!(decode(&data).0.unwrap().method(), method);
    }
}

#[test]
fn wrong_signature_is_a_magic_mismatch() {
    assert_eq!(error_of(&[0x00, 0x00]), DecodeError::MagicMismatch);
    assert_eq!(error_of(&[0x1f, 0x8c]), DecodeError::MagicMismatch);
    assert_eq!(error_of(&[0x1e, 0x8b]), DecodeError::MagicMismatch);
    assert_eq!(error_of(&[0x8b, 0x1f]), DecodeError::MagicMismatch);
    assert_eq!(error_of(&[0x50, 0x4b, 3, 4, 0, 0, 0, 0, 0, 0, 0, 0]), DecodeError::MagicMismatch);
}

#[test]
fn wrong_signature_wins_over_a_short_prefix() {
    for len in 2..10 {
        let data = vec![0x42; len];
        assert_eq!(error_of(&data), DecodeError::MagicMismatch);
    }
}

#[test]
fn fewer_than_two_bytes_are_truncated() {
    assert_eq!(error_of(&[]), DecodeError::TruncatedHeader);
    assert_eq!(error_of(&[0x1f]), DecodeError::TruncatedHeader);
    assert_eq!(error_of(&[0x00]), DecodeError::TruncatedHeader);
}

#[test]
fn short_prefix_is_truncated() {
    let whole = prefix(0);
    for len in 2..10 {
        assert_eq!(error_of(&whole[..len]), DecodeError::TruncatedHeader);
    }
}

#[test]
fn round_trip_of_a_named_header() {
    let data = encode(8, false, 1_700_000_000, 2, 3, None, Some("x"), None, None);
    let (result, left) = decode(&data);
    let header = result.unwrap();
    assert_eq!(left, 0);
    assert_eq!(header.method(), 8);
    assert_eq!(header.flags(), FNAME);
    assert_eq!(header.mtime(), 1_700_000_000);
    assert_eq!(header.extra_flags(), 2);
    assert_eq!(header.os(), 3);
    assert_eq!(header.extra_subfield_count(), 0);
    assert_eq!(header.name(), Some("x"));
    assert_eq!(header.comment(), None);
    assert_eq!(header.header_crc(), None);
}

#[test]
fn round_trip_of_every_combination_of_sections() {
    for bits in 0u8..32 {
        let text = bits & 1 != 0;
        let subfields = if bits & 2 != 0 { Some(3u16) } else { None };
        let name = if bits & 4 != 0 { Some("file.txt") } else { None };
        let comment = if bits & 8 != 0 { Some("caf\u{e9}") } else { None };
        let crc = if bits & 16 != 0 { Some(0xbeefu16) } else { None };
        let mut data = encode(8, text, 0xffff_fffe, 0, 11, subfields, name, comment, crc);
        let header_len = data.len();
        data.extend([1, 2, 3]);
        let (result, left) = decode(&data);
        let header = result.unwrap();
        assert_eq!(left, 3);
        assert_eq!(header.flags(), data[3]);
        assert_eq!(header.mtime(), 0xffff_fffe);
        assert_eq!(header.os(), 11);
        assert_eq!(header.extra_subfield_count(), usize::from(subfields.unwrap_or(0)));
        assert_eq!(header.name(), name);
        assert_eq!(header.comment(), comment);
        assert_eq!(header.header_crc(), crc);
        // Nothing but the bytes of the header decides the result.
        assert!(decode(&data[..header_len]).0.is_ok());
        assert_eq!(error_of(&data[..header_len - 1]), DecodeError::TruncatedHeader);
    }
}

#[test]
fn header_with_one_empty_subfield() {
    for tag in [[0u8, 0], [b'A', b'p'], [0xff, 0xff]] {
        let mut data = prefix(FEXTRA);
        data.extend([0x04, 0x00, tag[0], tag[1], 0x00, 0x00]);
        data.extend([0x77, 0x77]);
        let (result, left) = decode(&data);
        let header = result.unwrap();
        assert_eq!(header.extra_subfield_count(), 1);
        assert_eq!(left, 2);
    }
}

#[test]
fn header_with_empty_extra_field() {
    let mut data = prefix(FEXTRA);
    data.extend([0x00, 0x00]);
    let (result, left) = decode(&data);
    assert_eq!(result.unwrap().extra_subfield_count(), 0);
    assert_eq!(left, 0);
}

#[test]
fn header_with_extra_length_three_is_malformed() {
    let mut data = prefix(FEXTRA);
    data.extend([0x03, 0x00, 1, 2, 3]);
    assert_eq!(error_of(&data), DecodeError::MalformedExtra);
}

#[test]
fn header_with_overrunning_subfield_is_malformed() {
    let mut data = prefix(FEXTRA);
    data.extend([0x0a, 0x00, b'a', b'b', 0x14, 0x00]);
    data.extend([0u8; 20]);
    assert_eq!(error_of(&data), DecodeError::MalformedExtra);
}

#[test]
fn header_with_name() {
    let mut data = prefix(FNAME);
    data.extend([0x61, 0x62, 0x00]);
    let (result, left) = decode(&data);
    assert_eq!(result.unwrap().name(), Some("ab"));
    assert_eq!(left, 0);
}

#[test]
fn header_with_empty_name() {
    let mut data = prefix(FNAME);
    data.push(0x00);
    let (result, left) = decode(&data);
    let header = result.unwrap();
    assert_eq!(header.name(), Some(""));
    assert_eq!(header.comment(), None);
    assert_eq!(left, 0);
}

#[test]
fn header_with_empty_comment() {
    let mut data = prefix(FCOMMENT);
    data.push(0x00);
    let header = decode(&data).0.unwrap();
    assert_eq!(header.name(), None);
    assert_eq!(header.comment(), Some(""));
}

#[test]
fn header_with_invalid_name() {
    let mut data = prefix(FNAME);
    data.extend([0xff, 0x00]);
    assert_eq!(error_of(&data), DecodeError::InvalidText);
}

#[test]
fn header_with_invalid_comment() {
    let mut data = prefix(FNAME | FCOMMENT);
    data.extend([b'n', 0x00, 0xc0, 0x80, 0x00]);
    assert_eq!(error_of(&data), DecodeError::InvalidText);
}

#[test]
fn header_with_unterminated_name_is_truncated() {
    let mut data = prefix(FNAME);
    data.extend([0x61, 0x62]);
    assert_eq!(error_of(&data), DecodeError::TruncatedHeader);
}

#[test]
fn name_comes_before_comment() {
    let mut data = prefix(FNAME | FCOMMENT);
    data.extend(b"first\0second\0");
    let header = decode(&data).0.unwrap();
    assert_eq!(header.name(), Some("first"));
    assert_eq!(header.comment(), Some("second"));
}

#[test]
fn header_crc_is_little_endian_and_unchecked() {
    let mut data = prefix(FHCRC);
    data.extend([0x34, 0x12, 0xaa]);
    let (result, left) = decode(&data);
    assert_eq!(result.unwrap().header_crc(), Some(0x1234));
    assert_eq!(left, 1);
}

#[test]
fn header_with_half_a_crc_is_truncated() {
    let mut data = prefix(FHCRC);
    data.push(0x34);
    assert_eq!(error_of(&data), DecodeError::TruncatedHeader);
}

#[test]
fn mtime_is_little_endian() {
    let header = decode(&prefix(0)).0.unwrap();
    assert_eq!(header.mtime(), 0x0403_0201);
    assert_eq!(header.extra_flags(), 2);
    assert_eq!(header.os(), 3);
}

#[test]
fn earlier_section_fails_first() {
    // A malformed extra field in front of a name that is not UTF-8.
    let mut data = prefix(FEXTRA | FNAME);
    data.extend([0x01, 0x00, 0xff, 0x00]);
    assert_eq!(error_of(&data), DecodeError::MalformedExtra);
}

#[test]
fn gzip_file_with_name() {
    let data = [
        0x1f, 0x8b, 0x08, 0x08, 0x00, 0x00, 0x00, 0x00, 0x00, 0x03, 0x61, 0x2e, 0x74, 0x78,
        0x74, 0x00,
    ];
    let (result, left) = decode(&data);
    let header = result.unwrap();
    assert_eq!(left, 0);
    assert_eq!(header.method(), 8);
    assert_eq!(header.flags(), 0x08);
    assert_eq!(header.mtime(), 0);
    assert_eq!(header.extra_flags(), 0);
    assert_eq!(header.os(), 3);
    assert_eq!(header.name(), Some("a.txt"));
    assert_eq!(header.comment(), None);
    assert_eq!(header.header_crc(), None);
    assert_eq!(header.extra_subfield_count(), 0);
}

#[test]
fn reader_stands_at_the_payload_after_decoding() {
    let mut data = encode(8, true, 1, 0, 3, Some(2), Some("n"), Some("c"), Some(7));
    data.extend([0xca, 0xfe]);
    let mut reader = ByteReader::new(&data);
    let mut decoder = GzipReader::new(&mut reader);
    assert!(decoder.read_gzip_header().is_ok());
    assert_eq!(reader.read_byte(), Some(0xca));
    assert_eq!(reader.read_byte(), Some(0xfe));
    assert_eq!(reader.read_byte(), None);
}

#[test]
fn two_members_are_decoded_one_after_the_other() {
    let mut data = encode(8, false, 1, 0, 3, None, Some("one"), None, None);
    data.extend(encode(8, false, 2, 0, 3, None, None, Some("two"), None));
    let mut reader = ByteReader::new(&data);
    let first = GzipReader::new(&mut reader).read_gzip_header().unwrap();
    let second = GzipReader::new(&mut reader).read_gzip_header().unwrap();
    assert_eq!(first.name(), Some("one"));
    assert_eq!(second.comment(), Some("two"));
    assert_eq!(reader.remaining(), 0);
}
