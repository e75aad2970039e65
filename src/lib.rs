//! Reading, editing and writing PNG files at the level of their chunks.

pub mod chunk_type;
pub mod chunk;
pub mod png;
