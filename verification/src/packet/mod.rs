//! The packet buffer, its bit-level views and its error type.

pub mod alt;
pub mod bitbuf;
pub mod bitmodel;
pub mod bits;
pub mod bytes;
pub mod cipher;
pub mod error;
pub mod fixed;
pub mod laws;
pub mod rsa;
pub mod smart;
pub mod text;
pub mod wire;
