use gzip_header::decoder::GzipReader;
use gzip_header::error::DecodeError;
use gzip_header::reader::ByteReader;

fn fextra(data: &[u8]) -> (Result<usize, DecodeError>, usize) {
    let mut reader = ByteReader::new(data);
    let result = GzipReader::new(&mut reader).handle_fextra();
    (result, reader.remaining())
}

#[test]
fn empty_extra_field_has_no_subfields() {
    assert_eq!(fextra(&[0x00, 0x00, 0xaa]), (Ok(0), 1));
}

#[test]
fn one_subfield_with_empty_payload() {
    for tag in [[0x00u8, 0x00], [0x41, 0x70], [0xff, 0xff]] {
        let data = [0x04, 0x00, tag[0], tag[1], 0x00, 0x00, 0xaa, 0xbb];
        assert_eq!(fextra(&data), (Ok(1), 2));
    }
}

#[test]
fn one_subfield_with_payload() {
    let data = [0x07, 0x00, b'A', b'p', 0x03, 0x00, 1, 2, 3, 0xaa];
    assert_eq!(fextra(&data), (Ok(1), 1));
}

#[test]
fn several_subfields_are_counted() {
    let data = [
        0x0e, 0x00, // fourteen bytes of subfields
        b'a', b'a', 0x02, 0x00, 9, 9, // 4 + 2
        b'b', b'b', 0x00, 0x00, // 4 + 0
        b'c', b'c', 0x00, 0x00, // 4 + 0
        0xaa,
    ];
    assert_eq!(fextra(&data), (Ok(3), 1));
}

#[test]
fn payload_length_is_little_endian() {
    let mut data = vec![0x04, 0x02, b'x', b'y', 0x00, 0x02];
    data.extend(std::iter::repeat(0x55).take(0x200));
    data.push(0xaa);
    assert_eq!(fextra(&data), (Ok(1), 1));
}

#[test]
fn largest_extra_field_of_empty_subfields() {
    // 65532 bytes hold 16383 subfields of four bytes each.
    let mut data = vec![0xfc, 0xff];
    for _ in 0..16383 {
        data.extend([b'z', b'z', 0x00, 0x00]);
    }
    assert_eq!(fextra(&data), (Ok(16383), 0));
}

#[test]
fn largest_extra_field_in_one_subfield() {
    let mut data = vec![0xff, 0xff, b'z', b'z', 0xfb, 0xff];
    data.extend(std::iter::repeat(0).take(0xfffb));
    assert_eq!(fextra(&data), (Ok(1), 0));
}

#[test]
fn declared_length_under_four_is_malformed() {
    for xlen in 1u8..4 {
        let data = [xlen, 0x00, 1, 2, 3, 4, 5, 6];
        assert_eq!(fextra(&data).0, Err(DecodeError::MalformedExtra));
    }
}

#[test]
fn declared_length_of_three_without_more_bytes_is_malformed() {
    assert_eq!(fextra(&[0x03, 0x00]).0, Err(DecodeError::MalformedExtra));
}

#[test]
fn remainder_under_four_is_malformed() {
    // One empty subfield, then two bytes that cannot hold another.
    let data = [0x06, 0x00, b'a', b'a', 0x00, 0x00, 1, 2, 3, 4];
    assert_eq!(fextra(&data).0, Err(DecodeError::MalformedExtra));
}

#[test]
fn payload_past_the_declared_length_is_malformed() {
    let mut data = vec![0x0a, 0x00, b'a', b'a', 0x14, 0x00];
    data.extend(std::iter::repeat(0).take(20));
    assert_eq!(fextra(&data).0, Err(DecodeError::MalformedExtra));
}

#[test]
fn payload_past_the_declared_length_is_malformed_even_if_absent() {
    let data = [0x0a, 0x00, b'a', b'a', 0x14, 0x00];
    assert_eq!(fextra(&data).0, Err(DecodeError::MalformedExtra));
}

#[test]
fn payload_one_past_the_declared_length_is_malformed() {
    let data = [0x04, 0x00, b'a', b'a', 0x01, 0x00, 0x55];
    assert_eq!(fextra(&data).0, Err(DecodeError::MalformedExtra));
}

#[test]
fn missing_length_is_truncated() {
    assert_eq!(fextra(&[]).0, Err(DecodeError::TruncatedHeader));
    assert_eq!(fextra(&[0x04]).0, Err(DecodeError::TruncatedHeader));
}

#[test]
fn missing_subfield_head_is_truncated() {
    for have in 0..4 {
        let mut data = vec![0x04, 0x00];
        data.extend([b'a', b'a', 0x00, 0x00].iter().take(have));
        assert_eq!(fextra(&data).0, Err(DecodeError::TruncatedHeader));
    }
}

#[test]
fn missing_payload_is_truncated() {
    let data = [0x07, 0x00, b'a', b'a', 0x03, 0x00, 1, 2];
    assert_eq!(fextra(&data).0, Err(DecodeError::TruncatedHeader));
}

#[test]
fn missing_second_subfield_is_truncated() {
    let data = [0x08, 0x00, b'a', b'a', 0x00, 0x00];
    assert_eq!(fextra(&data).0, Err(DecodeError::TruncatedHeader));
}
