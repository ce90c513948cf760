//! The decoded header.

use crate::format::{flag_set, HeaderModel, FCOMMENT, FEXTRA, FHCRC, FNAME};
use vstd::prelude::*;

verus! {

/// The view of an optional string: its characters, if it is there.
pub open spec fn text_view(text: Option<String>) -> Option<Seq<char>> {
    match text {
        Some(s) => Some(s@),
        None => None,
    }
}

/// The fields of one gzip member header.
///
/// A header comes out of the decoder and is not changed afterwards. Which
/// of its optional parts are present is decided by its flags byte alone:
/// every value of this type is consistent in the sense of
/// [`HeaderModel::consistent`], and each accessor says so.
#[derive(Debug)]
pub struct GzipHeader {
    method: u8,
    flags: u8,
    mtime: u32,
    extra_flags: u8,
    os: u8,
    extra_subfield_count: usize,
    name: Option<String>,
    comment: Option<String>,
    header_crc: Option<u16>,
}

impl View for GzipHeader {
    type V = HeaderModel;

    closed spec fn view(&self) -> HeaderModel {
        HeaderModel {
            method: self.method,
            flags: self.flags,
            mtime: self.mtime,
            extra_flags: self.extra_flags,
            os: self.os,
            extra_subfield_count: self.extra_subfield_count as nat,
            name: text_view(self.name),
            comment: text_view(self.comment),
            header_crc: self.header_crc,
        }
    }
}

impl GzipHeader {
    #[verifier::type_invariant]
    spec fn flags_decide_presence(self) -> bool {
        self@.consistent()
    }

    /// Puts a header together from its decoded parts.
    pub(crate) fn assemble(
        method: u8,
        flags: u8,
        mtime: u32,
        extra_flags: u8,
        os: u8,
        extra_subfield_count: usize,
        name: Option<String>,
        comment: Option<String>,
        header_crc: Option<u16>,
    ) -> (header: Self)
        requires
            !flag_set(flags, FEXTRA) ==> extra_subfield_count == 0,
            name is Some <==> flag_set(flags, FNAME),
            comment is Some <==> flag_set(flags, FCOMMENT),
            header_crc is Some <==> flag_set(flags, FHCRC),
        ensures
            header@ == (HeaderModel {
                method,
                flags,
                mtime,
                extra_flags,
                os,
                extra_subfield_count: extra_subfield_count as nat,
                name: text_view(name),
                comment: text_view(comment),
                header_crc,
            }),
    {
        GzipHeader {
            method,
            flags,
            mtime,
            extra_flags,
            os,
            extra_subfield_count,
            name,
            comment,
            header_crc,
        }
    }

    /// The compression method, as found in the header. No value is refused.
    pub fn method(&self) -> (method: u8)
        ensures
            method == self@.method,
            self@.consistent(),
    {
        proof {
            use_type_invariant(self);
        }
        self.method
    }

    /// The flags byte, kept verbatim.
    pub fn flags(&self) -> (flags: u8)
        ensures
            flags == self@.flags,
            self@.consistent(),
    {
        proof {
            use_type_invariant(self);
        }
        self.flags
    }

    /// The modification time in seconds since the Unix epoch.
    pub fn mtime(&self) -> (mtime: u32)
        ensures
            mtime == self@.mtime,
            self@.consistent(),
    {
        proof {
            use_type_invariant(self);
        }
        self.mtime
    }

    /// The flags of the compressor, kept verbatim.
    pub fn extra_flags(&self) -> (extra_flags: u8)
        ensures
            extra_flags == self@.extra_flags,
            self@.consistent(),
    {
        proof {
            use_type_invariant(self);
        }
        self.extra_flags
    }

    /// The identifier of the operating system, kept verbatim.
    pub fn os(&self) -> (os: u8)
        ensures
            os == self@.os,
            self@.consistent(),
    {
        proof {
            use_type_invariant(self);
        }
        self.os
    }

    /// The number of subfields in the extra field; zero where the header
    /// has no extra field.
    pub fn extra_subfield_count(&self) -> (count: usize)
        ensures
            count == self@.extra_subfield_count,
            !flag_set(self@.flags, FEXTRA) ==> count == 0,
            self@.consistent(),
    {
        proof {
            use_type_invariant(self);
        }
        self.extra_subfield_count
    }

    /// The file name; present exactly when `FNAME` is set.
    pub fn name(&self) -> (name: Option<&str>)
        ensures
            match name {
                Some(text) => self@.name == Some(text@),
                None => self@.name is None,
            },
            name is Some <==> flag_set(self@.flags, FNAME),
            self@.consistent(),
    {
        proof {
            use_type_invariant(self);
        }
        match &self.name {
            Some(text) => Some(text.as_str()),
            None => None,
        }
    }

    /// The comment; present exactly when `FCOMMENT` is set.
    pub fn comment(&self) -> (comment: Option<&str>)
        ensures
            match comment {
                Some(text) => self@.comment == Some(text@),
                None => self@.comment is None,
            },
            comment is Some <==> flag_set(self@.flags, FCOMMENT),
            self@.consistent(),
    {
        proof {
            use_type_invariant(self);
        }
        match &self.comment {
            Some(text) => Some(text.as_str()),
            None => None,
        }
    }

    /// The CRC16 that closes the header; present exactly when `FHCRC` is
    /// set. The value is handed out as read: no checksum is computed.
    pub fn header_crc(&self) -> (header_crc: Option<u16>)
        ensures
            header_crc == self@.header_crc,
            header_crc is Some <==> flag_set(self@.flags, FHCRC),
            self@.consistent(),
    {
        proof {
            use_type_invariant(self);
        }
        self.header_crc
    }
}

} // verus!
