//! Reading, editing and writing PNG files at the level of their chunks.

pub mod endian;
pub mod error;
pub mod chunk_type;
pub mod text;
pub mod chunk;
pub mod png;
