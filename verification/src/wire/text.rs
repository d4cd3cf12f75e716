//! Strings on the wire: the bytes of their UTF-8 form behind a lead byte that tells their
//! length, or between a lead byte and the end mark `0xFC`.
use vstd::prelude::*;
use vstd::utf8::*;

verus! {

/// The byte that ends a long string. It occurs in no UTF-8 text.
pub const END_OF_STRING: u8 = 0xfc;

/// The bytes of a string.
pub open spec fn bytes_of(s: Seq<char>) -> Seq<u8> {
    encode_utf8(s)
}

/// The token of a string value that is written out and is not empty: for up to 64 bytes a lead
/// byte that holds the length, from a range that says whether the text is ASCII; beyond that a
/// lead byte, the bytes and the end mark.
pub open spec fn string_literal(s: Seq<char>) -> Seq<u8> {
    let b = bytes_of(s);
    let n = b.len() as int;
    if is_ascii_chars(s) {
        if n <= 32 {
            seq![(0x40 + n - 1) as u8] + b
        } else if n <= 64 {
            seq![(0x60 + n - 33) as u8] + b
        } else {
            seq![0xe0u8] + b + seq![END_OF_STRING]
        }
    } else {
        if n <= 33 {
            seq![(0x80 + n - 2) as u8] + b
        } else if n <= 64 {
            seq![(0xa0 + n - 34) as u8] + b
        } else {
            seq![0xe4u8] + b + seq![END_OF_STRING]
        }
    }
}

/// The token that stands for the string value at `index` of the cache: one byte for the first
/// 31 indices, else two.
pub open spec fn string_reference(index: u16) -> Seq<u8> {
    if index <= 30 {
        seq![(index + 1) as u8]
    } else {
        seq![0xecu8 | ((index >> 8) as u8), index as u8]
    }
}

/// The token of a map key that is written out and is not empty: for ASCII keys of up to 64
/// bytes and other keys of up to 56 bytes a lead byte that holds the length; else a lead byte,
/// the bytes and the end mark.
pub open spec fn key_literal(s: Seq<char>) -> Seq<u8> {
    let b = bytes_of(s);
    let n = b.len() as int;
    if n <= 64 && is_ascii_chars(s) {
        seq![(0x80 + n - 1) as u8] + b
    } else if n < 57 {
        seq![(0xc0 + n - 2) as u8] + b
    } else {
        seq![0x34u8] + b + seq![END_OF_STRING]
    }
}

/// The token that stands for the key at `index` of the cache: one byte for the first 64
/// indices, else two.
pub open spec fn key_reference(index: u16) -> Seq<u8> {
    if index <= 63 {
        seq![(0x40 + index) as u8]
    } else {
        seq![0x30u8 | ((index >> 8) as u8), index as u8]
    }
}

} // verus!
