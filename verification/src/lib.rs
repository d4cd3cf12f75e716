//! A codec for Smile, the binary data format of the Jackson family.
//!
//! The crate reads and writes Smile octet streams. Decoding turns the bytes of a document into
//! events or into a [`value::Value`] tree; encoding turns events or a tree into bytes. Every
//! executable function carries a contract over a mathematical description of the wire format,
//! which the modules under [`wire`] hold.
pub mod de;
mod error;
pub mod ser;
pub mod value;
pub mod wire;

pub use error::{Error, ErrorKind};
