//! Chunk-level reading and writing of PNG files.
//!
//! A PNG file is an eight-byte signature followed by chunks. Each chunk is a
//! length, a four-letter type tag, a payload, and a CRC-32 over tag and
//! payload. This crate decodes such a byte stream into its chunks, lets
//! chunks be appended, found and removed by type, and encodes the result back
//! into bytes, with every step specified and proved.

pub mod error;
pub mod text;
pub mod endian;
pub mod checksum;
pub mod chunk_type;
pub mod chunk;
pub mod png;
pub mod commands;
