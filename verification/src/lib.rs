//! Reading, editing and writing PNG-style containers: an eight-byte signature
//! followed by length-prefixed, type-tagged, checksummed chunks.

pub mod checksum;
pub mod chunk;
pub mod chunk_type;
pub mod commands;
pub mod endian;
pub mod error;
pub mod png;
pub mod text;

pub use error::Error;
