//! The ways in which decoding a header can fail.

use vstd::prelude::*;

verus! {

/// Why a header could not be decoded. Every kind is terminal: the decoder
/// stops at the first failure and hands back no partial header.
#[derive(Clone, Copy, Debug, PartialEq, Eq, Structural)]
pub enum DecodeError {
    /// The input ended before a required field was complete.
    TruncatedHeader,
    /// The first two bytes are not the gzip signature `0x1F 0x8B`.
    MagicMismatch,
    /// The lengths declared inside the extra field contradict each other.
    MalformedExtra,
    /// A name or comment is not valid UTF-8.
    InvalidText,
}

} // verus!
