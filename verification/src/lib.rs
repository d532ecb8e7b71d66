//! A codec for a PNG-style container: a fixed signature followed by
//! length-prefixed, typed, checksummed chunks.
//!
//! Every executable function carries a contract over a mathematical model
//! of the wire format, and the contracts are machine-checked.

pub mod error;
pub mod text;
pub mod checksum;
pub mod chunk_type;
pub mod wire;
pub mod chunk;
pub mod png;
pub mod commands;
