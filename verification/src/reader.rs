//! A forward-only cursor over bytes held in memory.
//!
//! The decoder asks four things of its byte source: one byte, a fixed
//! count of bytes, and little-endian 16-bit and 32-bit integers. Each read
//! either delivers and moves the cursor past what it delivered, or finds
//! too few bytes left, reports `None` and leaves the cursor where it was.

use vstd::prelude::*;
use vstd::slice::slice_subrange;

verus! {

/// The 16-bit value that the first two bytes of `s` spell, low byte first.
pub open spec fn le_u16(s: Seq<u8>) -> u16
    recommends
        s.len() >= 2,
{
    (s[0] + 0x100 * s[1]) as u16
}

/// The 32-bit value that the first four bytes of `s` spell, low byte first.
pub open spec fn le_u32(s: Seq<u8>) -> u32
    recommends
        s.len() >= 4,
{
    (s[0] + 0x100 * s[1] + 0x1_0000 * s[2] + 0x100_0000 * s[3]) as u32
}

/// A cursor over a borrowed byte slice. Its view is the sequence of bytes
/// that have not been read yet.
pub struct ByteReader<'a> {
    data: &'a [u8],
    pos: usize,
}

impl<'a> View for ByteReader<'a> {
    type V = Seq<u8>;

    closed spec fn view(&self) -> Seq<u8> {
        self.data@.skip(self.pos as int)
    }
}

impl<'a> ByteReader<'a> {
    #[verifier::type_invariant]
    spec fn within_bounds(self) -> bool {
        self.pos <= self.data@.len()
    }

    /// A reader positioned in front of the first byte of `data`.
    pub fn new(data: &'a [u8]) -> (reader: Self)
        ensures
            reader@ == data@,
    {
        ByteReader { data, pos: 0 }
    }

    /// How many bytes are still unread.
    pub fn remaining(&self) -> (n: usize)
        ensures
            n == self@.len(),
    {
        proof {
            use_type_invariant(self);
        }
        self.data.len() - self.pos
    }

    /// Reads one byte.
    pub fn read_byte(&mut self) -> (r: Option<u8>)
        ensures
            match r {
                Some(b) => {
                    &&& old(self)@.len() >= 1
                    &&& b == old(self)@[0]
                    &&& final(self)@ == old(self)@.skip(1)
                },
                None => old(self)@.len() == 0 && final(self)@ == old(self)@,
            },
    {
        proof {
            use_type_invariant(&*self);
        }
        if self.pos < self.data.len() {
            let b = self.data[self.pos];
            self.pos = self.pos + 1;
            Some(b)
        } else {
            None
        }
    }

    /// Reads exactly `n` bytes and hands them out as a slice of the
    /// underlying data.
    pub fn read_exact(&mut self, n: usize) -> (r: Option<&'a [u8]>)
        ensures
            match r {
                Some(bytes) => {
                    &&& old(self)@.len() >= n
                    &&& bytes@ == old(self)@.take(n as int)
                    &&& final(self)@ == old(self)@.skip(n as int)
                },
                None => old(self)@.len() < n && final(self)@ == old(self)@,
            },
    {
        proof {
            use_type_invariant(&*self);
        }
        if n <= self.data.len() - self.pos {
            let bytes = slice_subrange(self.data, self.pos, self.pos + n);
            self.pos = self.pos + n;
            Some(bytes)
        } else {
            None
        }
    }

    /// Reads a little-endian unsigned 16-bit integer.
    pub fn read_le_u16(&mut self) -> (r: Option<u16>)
        ensures
            match r {
                Some(v) => {
                    &&& old(self)@.len() >= 2
                    &&& v == le_u16(old(self)@)
                    &&& final(self)@ == old(self)@.skip(2)
                },
                None => old(self)@.len() < 2 && final(self)@ == old(self)@,
            },
    {
        match self.read_exact(2) {
            Some(bytes) => Some(bytes[0] as u16 + 0x100 * (bytes[1] as u16)),
            None => None,
        }
    }

    /// Reads a little-endian unsigned 32-bit integer.
    pub fn read_le_u32(&mut self) -> (r: Option<u32>)
        ensures
            match r {
                Some(v) => {
                    &&& old(self)@.len() >= 4
                    &&& v == le_u32(old(self)@)
                    &&& final(self)@ == old(self)@.skip(4)
                },
                None => old(self)@.len() < 4 && final(self)@ == old(self)@,
            },
    {
        match self.read_exact(4) {
            Some(bytes) => Some(
                bytes[0] as u32 + 0x100 * (bytes[1] as u32) + 0x1_0000 * (bytes[2] as u32)
                    + 0x100_0000 * (bytes[3] as u32),
            ),
            None => None,
        }
    }
}

} // verus!
