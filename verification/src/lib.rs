//! A verified codec for a chunked binary container format: a fixed 8-byte
//! signature followed by length-prefixed, type-tagged, CRC-checked records.
//!
//! The library parses a complete byte buffer into an ordered sequence of
//! records, supports targeted mutation (append a record, remove the first
//! record of a given type, look one up), and serializes back to bytes.
//! Every operation carries a contract tying it to the mathematical model
//! in [`codec`].

pub mod checksum;
pub mod codec;
pub mod commands;
pub mod container;
pub mod cors;
pub mod error;
pub mod record;
mod text;
pub mod type_code;
