pub mod be32;
pub mod chunk;
pub mod chunk_type;
pub mod commands;
pub mod crc32;
pub mod error;
pub mod png;
pub mod text;
