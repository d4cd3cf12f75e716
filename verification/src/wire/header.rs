//! The four bytes that open a document: the signature `:)\n` and a byte of flags, whose high
//! half is the version, zero, and whose low half says which optional features the writer uses.
use crate::error::ErrorKind;
use vstd::prelude::*;

verus! {

/// The features that a header announces.
pub struct Features {
    /// Binary data is written as it is, not packed into seven bits.
    pub raw_binary: bool,
    /// String values may be back-references.
    pub shared_strings: bool,
    /// Map keys may be back-references.
    pub shared_properties: bool,
}

/// The flags byte of a header with these features.
pub open spec fn flags(f: Features) -> u8 {
    ((if f.raw_binary {
        4int
    } else {
        0
    }) + (if f.shared_strings {
        2int
    } else {
        0
    }) + (if f.shared_properties {
        1int
    } else {
        0
    })) as u8
}

/// The header of a document with these features.
pub open spec fn header(f: Features) -> Seq<u8> {
    seq![0x3au8, 0x29u8, 0x0au8, flags(f)]
}

/// The features that a flags byte of version zero announces.
pub open spec fn features_of(info: u8) -> Features {
    Features {
        raw_binary: (info / 4) % 2 == 1,
        shared_strings: (info / 2) % 2 == 1,
        shared_properties: info % 2 == 1,
    }
}

/// What the start of a document announces: `EofWhileParsingHeader` where fewer than four bytes
/// are there, `InvalidHeader` where the first three are not the signature,
/// `UnsupportedVersion` where the high half of the fourth is not zero.
pub open spec fn parse(input: Seq<u8>) -> Result<Features, ErrorKind> {
    if input.len() < 4 {
        Err(ErrorKind::EofWhileParsingHeader)
    } else if input[0] != 0x3a || input[1] != 0x29 || input[2] != 0x0a {
        Err(ErrorKind::InvalidHeader)
    } else if input[3] >= 16 {
        Err(ErrorKind::UnsupportedVersion)
    } else {
        Ok(features_of(input[3]))
    }
}

/// The bit tests on a flags byte say what [`parse`] and [`features_of`] say.
pub proof fn lemma_flag_bits(info: u8)
    ensures
        (info & 0xf0 != 0) <==> info >= 16,
        (info & 0x04 != 0) <==> (info / 4) % 2 == 1,
        (info & 0x02 != 0) <==> (info / 2) % 2 == 1,
        (info & 0x01 != 0) <==> info % 2 == 1,
{
    assert(((info & 0xf0 != 0) <==> info >= 16) && ((info & 0x04 != 0) <==> (info / 4) % 2 == 1)
        && ((info & 0x02 != 0) <==> (info / 2) % 2 == 1) && ((info & 0x01 != 0) <==> info % 2
        == 1)) by (bit_vector);
}

/// A header is read back as the features it was written with, whatever follows it.
pub proof fn lemma_parse_header(f: Features, rest: Seq<u8>)
    ensures
        parse(header(f) + rest) == Ok::<Features, ErrorKind>(f),
{
}

/// A fourth byte with a high half other than zero is an unsupported version, and any other
/// first three bytes are an invalid header.
pub proof fn lemma_reject(input: Seq<u8>)
    requires
        input.len() >= 4,
    ensures
        (input[0] != 0x3a || input[1] != 0x29 || input[2] != 0x0a) ==> parse(input) == Err::<
            Features,
            ErrorKind,
        >(ErrorKind::InvalidHeader),
        (input[0] == 0x3a && input[1] == 0x29 && input[2] == 0x0a && input[3] >= 16) ==> parse(
            input,
        ) == Err::<Features, ErrorKind>(ErrorKind::UnsupportedVersion),
{
}

} // verus!
