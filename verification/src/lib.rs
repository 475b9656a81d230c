//! PNG chunk manipulation: parse a PNG byte stream into its chunks, validate
//! each chunk's checksum and type tag, insert or remove message-carrying
//! chunks, and serialize the chunk sequence back into a valid byte stream.

pub mod chunk;
pub mod chunk_type;
pub mod codec;
pub mod error;
pub mod png;
