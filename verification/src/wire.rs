//! The wire format, stated over sequences of bytes.
//!
//! Each module describes one layer of the format as specification functions and proves the laws
//! that relate encoding and decoding at that layer.
pub mod bytes;
pub mod cache;
pub mod decode;
pub mod encode;
pub mod header;
pub mod number;
pub mod round_trip;
pub mod septet;
pub mod text;
pub mod tree;
pub mod vint;
pub mod zigzag;
