//! The header decoder.

use crate::error::DecodeError;
use crate::format::{
    lemma_extra_within, lemma_header_by_sections, lemma_text_within, no_optional_section,
    parse_extra, parse_header, parse_optional_crc, parse_optional_extra, parse_optional_text,
    parse_subfields, HeaderModel, FCOMMENT, FEXTRA, FHCRC, FIXED_LEN, FNAME, ID1, ID2,
    SUBFIELD_HEAD_LEN,
};
use crate::header::{text_view, GzipHeader};
use crate::laws::{lemma_plain_header, lemma_signature_first};
use crate::reader::{le_u16, ByteReader};
use crate::text::read_c_utf8_str;
use vstd::prelude::*;
use vstd::seq_lib::lemma_seq_skip_of_skip;

verus! {

/// The count of a subfield list of which `seen` subfields were already
/// read and the rest decodes to `rest`.
spec fn count_with(seen: nat, rest: Result<nat, DecodeError>) -> Result<nat, DecodeError> {
    match rest {
        Ok(count) => Ok(seen + count),
        Err(e) => Err(e),
    }
}

/// Decodes one gzip member header from the reader it borrows.
///
/// The decoder reads forward, each byte once, and takes no byte beyond the
/// header. After a success the reader stands at the first byte behind the
/// header. After a failure its position says nothing, and decoding must
/// not be tried again on the same reader.
pub struct GzipReader<'a, 'b> {
    /// The reader that the decoder borrows. The field is public so that a
    /// caller's proof can follow the borrow: what the decoder leaves in
    /// the reader is what the caller finds there afterwards.
    pub reader: &'a mut ByteReader<'b>,
}

impl<'a, 'b> GzipReader<'a, 'b> {
    /// A decoder that reads from `reader`, starting where `reader` stands.
    pub fn new(reader: &'a mut ByteReader<'b>) -> (decoder: Self)
        ensures
            *decoder.reader == *old(reader),
            *final(decoder.reader) == *final(reader),
    {
        GzipReader { reader }
    }

    /// Reads an extra field and returns the number of its subfields.
    ///
    /// The field is a little-endian 16-bit length and a list of subfields
    /// that must fill that length exactly. Tags and payloads are read and
    /// dropped. On success the reader has moved past the whole field.
    pub fn handle_fextra(&mut self) -> (r: Result<usize, DecodeError>)
        ensures
            *final(final(self).reader) == *final(old(self).reader),
            match r {
                Ok(count) => {
                    &&& parse_extra(old(self).reader@) matches Ok((expected, len))
                    &&& count == expected
                    &&& final(self).reader@ == old(self).reader@.skip(len as int)
                },
                Err(e) => parse_extra(old(self).reader@) == Err::<(nat, nat), DecodeError>(e),
            },
    {
        let ghost start = self.reader@;
        let mut xlen: u16 = match self.reader.read_le_u16() {
            None => return Err(DecodeError::TruncatedHeader),
            Some(v) => v,
        };
        let ghost total = xlen;
        let mut fextra_count: usize = 0;
        while xlen > 0
            invariant
                *final(self.reader) == *final(old(self).reader),
                start == old(self).reader@,
                start.len() >= 2,
                total == le_u16(start),
                xlen <= total,
                2 + total - xlen <= start.len(),
                SUBFIELD_HEAD_LEN * fextra_count <= total - xlen,
                self.reader@ == start.skip(2 + total - xlen),
                parse_subfields(start.skip(2), total as nat) == count_with(
                    fextra_count as nat,
                    parse_subfields(self.reader@, xlen as nat),
                ),
            decreases xlen,
        {
            if xlen < SUBFIELD_HEAD_LEN {
                return Err(DecodeError::MalformedExtra);
            }
            let ghost list = self.reader@;
            let ghost list_at = 2 + total - xlen;
            match self.reader.read_byte() {
                None => return Err(DecodeError::TruncatedHeader),
                Some(_) => (),
            };
            match self.reader.read_byte() {
                None => return Err(DecodeError::TruncatedHeader),
                Some(_) => (),
            };
            let len: u16 = match self.reader.read_le_u16() {
                None => return Err(DecodeError::TruncatedHeader),
                Some(b) => b,
            };
            assert(list.skip(1).skip(1) == list.skip(2));
            xlen = xlen - SUBFIELD_HEAD_LEN;
            if xlen < len {
                return Err(DecodeError::MalformedExtra);
            }
            match self.reader.read_exact(len as usize) {
                None => return Err(DecodeError::TruncatedHeader),
                Some(_) => (),
            };
            assert(list.skip(2).skip(2).skip(len as int) == list.skip(4 + len));
            xlen = xlen - len;
            fextra_count = fextra_count + 1;
            assert(self.reader@ == start.skip(2 + total - xlen)) by {
                lemma_seq_skip_of_skip(start, list_at, 4 + len);
            }
        }
        Ok(fextra_count)
    }

    /// Decodes the header that starts where the reader stands.
    ///
    /// The result is the header that [`parse_header`] describes for the
    /// unread bytes, or the error that it gives for them. On success the
    /// reader has moved past the header and not further.
    pub fn read_gzip_header(&mut self) -> (r: Result<GzipHeader, DecodeError>)
        ensures
            *final(final(self).reader) == *final(old(self).reader),
            match r {
                Ok(header) => {
                    &&& parse_header(old(self).reader@) matches Ok((expected, len))
                    &&& header@ == expected
                    &&& final(self).reader@ == old(self).reader@.skip(len as int)
                },
                Err(e) => parse_header(old(self).reader@) == Err::<(HeaderModel, nat), DecodeError>(
                    e,
                ),
            },
            old(self).reader@.len() < 2 ==> r matches Err(DecodeError::TruncatedHeader),
            old(self).reader@.len() >= 2 && (old(self).reader@[0] != ID1 || old(self).reader@[1]
                != ID2) ==> r matches Err(DecodeError::MagicMismatch),
            r matches Err(DecodeError::MagicMismatch) ==> old(self).reader@.len() >= 2 && (old(
                self,
            ).reader@[0] != ID1 || old(self).reader@[1] != ID2),
            old(self).reader@.len() >= FIXED_LEN && old(self).reader@[0] == ID1 && old(
                self,
            ).reader@[1] == ID2 && no_optional_section(old(self).reader@[3]) ==> {
                &&& r matches Ok(header)
                &&& header@.extra_subfield_count == 0
                &&& header@.name is None
                &&& header@.comment is None
                &&& header@.header_crc is None
                &&& final(self).reader@ == old(self).reader@.skip(FIXED_LEN as int)
            },
    {
        let ghost start = self.reader@;
        proof {
            lemma_signature_first(start);
            if start.len() >= FIXED_LEN && start[0] == ID1 && start[1] == ID2
                && no_optional_section(start[3]) {
                lemma_plain_header(start);
            }
        }
        let m1: u8 = match self.reader.read_byte() {
            None => return Err(DecodeError::TruncatedHeader),
            Some(b) => b,
        };
        let m2: u8 = match self.reader.read_byte() {
            None => return Err(DecodeError::TruncatedHeader),
            Some(b) => b,
        };
        if m1 != ID1 || m2 != ID2 {
            return Err(DecodeError::MagicMismatch);
        }
        assert(self.reader@ == start.skip(2));
        let method: u8 = match self.reader.read_byte() {
            None => return Err(DecodeError::TruncatedHeader),
            Some(b) => b,
        };
        let flg: u8 = match self.reader.read_byte() {
            None => return Err(DecodeError::TruncatedHeader),
            Some(b) => b,
        };
        let mtime: u32 = match self.reader.read_le_u32() {
            None => return Err(DecodeError::TruncatedHeader),
            Some(v) => v,
        };
        let xfl: u8 = match self.reader.read_byte() {
            None => return Err(DecodeError::TruncatedHeader),
            Some(b) => b,
        };
        let os: u8 = match self.reader.read_byte() {
            None => return Err(DecodeError::TruncatedHeader),
            Some(b) => b,
        };
        let ghost after_fixed = self.reader@;
        assert(after_fixed == start.skip(FIXED_LEN as int));

        let fextra_count: usize = if flg & FEXTRA != 0 {
            match self.handle_fextra() {
                Err(e) => return Err(e),
                Ok(count) => count,
            }
        } else {
            assert(after_fixed.skip(0) == after_fixed);
            0
        };
        let ghost after_extra = self.reader@;
        let ghost extra_len = parse_optional_extra(flg, after_fixed)->Ok_0.1;
        assert(after_extra == after_fixed.skip(extra_len as int) && extra_len
            <= after_fixed.len()) by {
            lemma_extra_within(after_fixed);
        }

        let fname: Option<String> = if flg & FNAME != 0 {
            match read_c_utf8_str(self.reader) {
                Err(e) => return Err(e),
                Ok(text) => Some(text),
            }
        } else {
            assert(after_extra.skip(0) == after_extra);
            None
        };
        let ghost after_name = self.reader@;
        let ghost name_len = parse_optional_text(flg, FNAME, after_extra)->Ok_0.1;
        assert(after_name == after_extra.skip(name_len as int) && name_len <= after_extra.len())
            by {
            lemma_text_within(after_extra);
        }

        let fcomment: Option<String> = if flg & FCOMMENT != 0 {
            match read_c_utf8_str(self.reader) {
                Err(e) => return Err(e),
                Ok(text) => Some(text),
            }
        } else {
            assert(after_name.skip(0) == after_name);
            None
        };
        let ghost after_comment = self.reader@;
        let ghost comment_len = parse_optional_text(flg, FCOMMENT, after_name)->Ok_0.1;
        assert(after_comment == after_name.skip(comment_len as int) && comment_len
            <= after_name.len()) by {
            lemma_text_within(after_name);
        }

        let fhcrc: Option<u16> = if flg & FHCRC != 0 {
            match self.reader.read_le_u16() {
                None => return Err(DecodeError::TruncatedHeader),
                Some(v) => Some(v),
            }
        } else {
            assert(after_comment.skip(0) == after_comment);
            None
        };
        let ghost crc_len = parse_optional_crc(flg, after_comment)->Ok_0.1;
        assert(parse_optional_crc(flg, after_comment) == Ok::<(Option<u16>, nat), DecodeError>(
            (fhcrc, crc_len),
        ));
        proof {
            lemma_header_by_sections(
                start,
                (fextra_count as nat, extra_len),
                (text_view(fname), name_len),
                (text_view(fcomment), comment_len),
                (fhcrc, crc_len),
            );
        }
        assert(self.reader@ == start.skip(
            FIXED_LEN + extra_len + name_len + comment_len + crc_len,
        )) by {
            lemma_seq_skip_of_skip(start, FIXED_LEN as int, extra_len as int);
            lemma_seq_skip_of_skip(start, FIXED_LEN + extra_len, name_len as int);
            lemma_seq_skip_of_skip(start, FIXED_LEN + extra_len + name_len, comment_len as int);
            lemma_seq_skip_of_skip(
                start,
                FIXED_LEN + extra_len + name_len + comment_len,
                crc_len as int,
            );
        }

        Ok(GzipHeader::assemble(method, flg, mtime, xfl, os, fextra_count, fname, fcomment, fhcrc))
    }
}

} // verus!
