//! Embedding, reading and removing message chunks in PNG byte buffers.
//!
//! A buffer is the eight signature bytes followed by chunks; each chunk is a
//! big-endian length, a four-letter type, the data and a CRC-32 over type and
//! data. Every function is stated against the byte-level model in [`chunk`]
//! and [`layout`], where the laws of reading and writing are proved.
pub mod args;
pub mod checksum;
pub mod chunk;
pub mod chunk_type;
pub mod commands;
pub mod error;
pub mod layout;
pub mod png;
pub mod text;
