//! Cursor-addressed packet buffers with byte-level and bit-level encodings,
//! and message kinds as data.

pub mod packet;
pub mod schema;
