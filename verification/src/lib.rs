//! A length-prefixed, type-tagged, checksum-protected binary chunk container
//! format, laid out like the PNG chunk stream: an 8-byte magic header followed
//! by records of `length ++ type ++ payload ++ CRC-32 checksum`, all integers
//! big-endian.
//!
//! The library provides the three layers of the codec:
//! - [`chunk_type`]: validation and bit-flag classification of 4-letter tags;
//! - [`chunk`]: encoding and decoding of a single checksummed record;
//! - [`png`]: the container: header check, the decode loop, and an ordered
//!   in-memory chunk list with append, lookup and removal by type.

pub mod byte_order;
pub mod checksum;
pub mod chunk;
pub mod chunk_type;
pub mod error;
pub mod png;
pub mod text;
