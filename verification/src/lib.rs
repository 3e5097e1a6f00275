//! A chunked binary image-container codec.
//!
//! A container is a fixed 8-byte magic header followed by a sequence of
//! self-describing chunks; each chunk carries a big-endian declared length,
//! a 4-letter type tag, the payload bytes, and a trailing 32-bit checksum.
//! The crate parses and validates that layout byte-exactly, classifies the
//! semantics encoded in a tag's letter casing, and serializes containers
//! back to bytes losslessly.
//!
//! Integrity runs in both directions by design: freshly built chunks get
//! their checksum computed over tag and payload, and the chunk decoder
//! rejects a window whose stored checksum does not match that computation.

pub mod chunk;
pub mod chunk_type;
pub mod crc;
pub mod png;
pub mod text;
pub mod wire;
