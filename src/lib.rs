//! Reading, editing and writing the chunk stream of a PNG file.

pub mod bytes;
pub mod chunk;
pub mod commands;
pub mod chunk_type;
pub mod error;
pub mod png;
pub mod text;
