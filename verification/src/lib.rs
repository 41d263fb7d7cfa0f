pub mod chunk;
pub mod chunk_type;
pub mod codec;
pub mod error;
pub mod png;
