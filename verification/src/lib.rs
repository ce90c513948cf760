//! Decoder for the header that opens every gzip member.
//!
//! The crate reads metadata only: it validates the two signature bytes,
//! decodes the fixed ten-byte prefix and the optional sections that the
//! flags byte announces, and stops in front of the compressed payload.
//! Every function is verified against a mathematical description of the
//! wire format, which lives in [`format`].

pub mod decoder;
pub mod encoding;
pub mod error;
pub mod format;
pub mod header;
pub mod laws;
pub mod reader;
pub mod text;
