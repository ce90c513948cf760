use gzip_header::error::DecodeError;
use gzip_header::reader::ByteReader;
use gzip_header::text::read_c_utf8_str;

#[test]
fn text_stops_at_the_first_zero_byte() {
    let data = [0x61u8, 0x62, 0x00, 0x63, 0x00];
    let mut reader = ByteReader::new(&data);
    assert_eq!(read_c_utf8_str(&mut reader), Ok(String::from("ab")));
    assert_eq!(reader.remaining(), 2);
    assert_eq!(read_c_utf8_str(&mut reader), Ok(String::from("c")));
    assert_eq!(reader.remaining(), 0);
}

#[test]
fn empty_text_is_the_empty_string() {
    let data = [0x00u8, 0x41];
    let mut reader = ByteReader::new(&data);
    assert_eq!(read_c_utf8_str(&mut reader), Ok(String::new()));
    assert_eq!(reader.remaining(), 1);
}

#[test]
fn text_without_terminator_is_truncated() {
    let data = [0x61u8, 0x62];
    let mut reader = ByteReader::new(&data);
    assert_eq!(read_c_utf8_str(&mut reader), Err(DecodeError::TruncatedHeader));
}

#[test]
fn text_on_empty_input_is_truncated() {
    let data: [u8; 0] = [];
    let mut reader = ByteReader::new(&data);
    assert_eq!(read_c_utf8_str(&mut reader), Err(DecodeError::TruncatedHeader));
}

#[test]
fn text_that_is_not_utf8_is_invalid() {
    let data = [0xffu8, 0x00];
    let mut reader = ByteReader::new(&data);
    assert_eq!(read_c_utf8_str(&mut reader), Err(DecodeError::InvalidText));
}

#[test]
fn text_with_a_cut_off_sequence_is_invalid() {
    // The first two bytes of the three-byte encoding of U+20AC.
    let data = [0xe2u8, 0x82, 0x00];
    let mut reader = ByteReader::new(&data);
    assert_eq!(read_c_utf8_str(&mut reader), Err(DecodeError::InvalidText));
}

#[test]
fn invalid_bytes_without_terminator_are_truncated() {
    let data = [0xffu8, 0xfe];
    let mut reader = ByteReader::new(&data);
    assert_eq!(read_c_utf8_str(&mut reader), Err(DecodeError::TruncatedHeader));
}

#[test]
fn text_of_several_bytes_per_character_is_decoded() {
    // "é€" followed by the terminator.
    let data = [0xc3u8, 0xa9, 0xe2, 0x82, 0xac, 0x00];
    let mut reader = ByteReader::new(&data);
    assert_eq!(read_c_utf8_str(&mut reader), Ok(String::from("\u{e9}\u{20ac}")));
    assert_eq!(reader.remaining(), 0);
}

#[test]
fn long_text_is_read_whole() {
    let mut data = vec![b'x'; 100_000];
    data.push(0);
    let mut reader = ByteReader::new(&data);
    let text = read_c_utf8_str(&mut reader).unwrap();
    assert_eq!(text.len(), 100_000);
    assert!(text.bytes().all(|b| b == b'x'));
    assert_eq!(reader.remaining(), 0);
}
