//! What a serializer writes, as a function from its state to its state.
use crate::wire::cache::{add_entry, eligible};
use crate::wire::header::{header, Features};
use crate::wire::number::{be_bytes, double_septets, float_septets, int_token, long_token};
use crate::wire::septet::pack;
use crate::wire::text::{key_literal, key_reference, string_literal, string_reference};
use crate::wire::tree::Tree;
use crate::wire::vint;
use crate::wire::zigzag::zigzag;
use vstd::prelude::*;

verus! {

/// The state of a serializer.
pub struct Writer {
    /// The bytes written so far.
    pub out: Seq<u8>,
    /// The header, as long as it is not written.
    pub header: Option<Seq<u8>>,
    /// Whether binary data is written raw.
    pub raw_binary: bool,
    /// The cache of string values, where they are shared.
    pub strings: Option<Map<Seq<char>, u16>>,
    /// The cache of map keys, where they are shared.
    pub properties: Option<Map<Seq<char>, u16>>,
}

/// The token of binary data: raw behind its length, or packed into seven bits behind its
/// length.
pub open spec fn binary_token(raw: bool, bytes: Seq<u8>) -> Seq<u8> {
    if raw {
        seq![0xfdu8] + vint::encode(bytes.len() as u64) + bytes
    } else {
        seq![0xe8u8] + packed(bytes)
    }
}

/// Binary data packed into seven bits, behind its length.
pub open spec fn packed(bytes: Seq<u8>) -> Seq<u8> {
    vint::encode(bytes.len() as u64) + pack(bytes)
}

/// The token of a big integer, given as its two's complement bytes.
pub open spec fn big_integer_token(bytes: Seq<u8>) -> Seq<u8> {
    seq![0x26u8] + packed(bytes)
}

/// The token of a big decimal, given as its scale and the two's complement bytes of its
/// unscaled value.
pub open spec fn big_decimal_token(scale: i32, bytes: Seq<u8>) -> Seq<u8> {
    seq![0x2au8] + vint::encode(zigzag(scale as int) as u64) + packed(bytes)
}

/// The token of a 32-bit floating-point value, given as its bit pattern.
pub open spec fn float_token(bits: u32) -> Seq<u8> {
    seq![0x28u8] + float_septets(bits)
}

/// The token of a 64-bit floating-point value, given as its bit pattern.
pub open spec fn double_token(bits: u64) -> Seq<u8> {
    seq![0x29u8] + double_septets(bits)
}

/// The token of a signed 128-bit integer: that of the 64-bit integer where it is one, else a
/// big integer of sixteen bytes.
pub open spec fn i128_token(v: i128) -> Seq<u8> {
    if i64::MIN <= v <= i64::MAX {
        long_token(v as i64)
    } else {
        big_integer_token(be_bytes(v as u128, 16))
    }
}

/// The token of an unsigned 64-bit integer: that of the signed one where it is one, else a big
/// integer of nine bytes, the first of them zero.
pub open spec fn u64_token(v: u64) -> Seq<u8> {
    if v <= i64::MAX {
        long_token(v as i64)
    } else {
        big_integer_token(seq![0u8] + be_bytes(v as u128, 8))
    }
}

/// The token of an unsigned 128-bit integer: that of the signed one where it is one, else a
/// big integer of seventeen bytes, the first of them zero.
pub open spec fn u128_token(v: u128) -> Seq<u8> {
    if v <= i128::MAX {
        i128_token(v as i128)
    } else {
        big_integer_token(seq![0u8] + be_bytes(v, 16))
    }
}

impl Writer {
    /// A serializer that has written nothing.
    pub open spec fn new(f: Features) -> Writer {
        Writer {
            out: Seq::empty(),
            header: Some(header(f)),
            raw_binary: f.raw_binary,
            strings: if f.shared_strings {
                Some(Map::empty())
            } else {
                None
            },
            properties: if f.shared_properties {
                Some(Map::empty())
            } else {
                None
            },
        }
    }

    /// After writing `bytes`.
    pub open spec fn write(self, bytes: Seq<u8>) -> Writer {
        Writer { out: self.out + bytes, ..self }
    }

    /// After writing the header, where that is still to be done.
    pub open spec fn write_header(self) -> Writer {
        match self.header {
            Some(h) => Writer { out: self.out + h, header: None, ..self },
            None => self,
        }
    }

    /// After writing a token, behind the header where that is still to be done.
    pub open spec fn token(self, bytes: Seq<u8>) -> Writer {
        self.write_header().write(bytes)
    }

    /// After writing the end-of-stream mark.
    pub open spec fn end(self) -> Writer {
        self.token(seq![0xffu8])
    }

    /// After writing a boolean.
    pub open spec fn boolean(self, v: bool) -> Writer {
        self.token(
            seq![if v {
                0x23u8
            } else {
                0x22u8
            }],
        )
    }

    /// After writing a null.
    pub open spec fn unit(self) -> Writer {
        self.token(seq![0x21u8])
    }

    /// After looking a string value up and, where it is not found, taking it in. The second
    /// part is the index under which it was found.
    pub open spec fn share_string(self, s: Seq<char>) -> (Writer, Option<u16>) {
        match self.strings {
            Some(m) if eligible(s) => {
                if m.contains_key(s) {
                    (self, Some(m[s]))
                } else {
                    (Writer { strings: Some(add_entry(m, s)), ..self }, None)
                }
            },
            _ => (self, None),
        }
    }

    /// After writing a string value: the token of the empty string, a back-reference where the
    /// cache holds the string, else the string itself, which the cache then takes in.
    pub open spec fn string(self, s: Seq<char>) -> Writer {
        let w = self.write_header();
        if s.len() == 0 {
            w.write(seq![0x20u8])
        } else {
            match w.share_string(s) {
                (w2, Some(index)) => w2.write(string_reference(index)),
                (w2, None) => w2.write(string_literal(s)),
            }
        }
    }

    /// After looking a key up and, where it is not found, taking it in. The second part is the
    /// index under which it was found.
    pub open spec fn share_property(self, s: Seq<char>) -> (Writer, Option<u16>) {
        match self.properties {
            Some(m) if eligible(s) => {
                if m.contains_key(s) {
                    (self, Some(m[s]))
                } else {
                    (Writer { properties: Some(add_entry(m, s)), ..self }, None)
                }
            },
            _ => (self, None),
        }
    }

    /// After writing a map key: the token of the empty key, a back-reference where the cache
    /// holds the key, else the key itself, which the cache then takes in. A key does not bring
    /// the header with it: it follows the token that opens its map.
    pub open spec fn key(self, s: Seq<char>) -> Writer {
        if s.len() == 0 {
            self.write(seq![0x20u8])
        } else {
            match self.share_property(s) {
                (w2, Some(index)) => w2.write(key_reference(index)),
                (w2, None) => w2.write(key_literal(s)),
            }
        }
    }

    /// After writing binary data.
    pub open spec fn bytes(self, v: Seq<u8>) -> Writer {
        self.token(binary_token(self.raw_binary, v))
    }

    /// After writing the scale of a big decimal, behind the lead byte of its token.
    pub open spec fn big_decimal_scale(self, scale: i32) -> Writer {
        self.token(seq![0x2au8] + vint::encode(zigzag(scale as int) as u64))
    }

    /// After writing an entry of a map.
    pub open spec fn entry(self, key: Seq<char>, value: Tree) -> Writer {
        self.key(key).tree(value)
    }

    /// After writing a value. A sequence stands between `0xF8` and `0xF9`, a map between
    /// `0xFA` and `0xFB` with a key before each value.
    pub open spec fn tree(self, t: Tree) -> Writer
        decreases t, 0nat,
    {
        match t {
            Tree::Null => self.unit(),
            Tree::Boolean(v) => self.boolean(v),
            Tree::Integer(v) => self.token(int_token(v)),
            Tree::Long(v) => self.token(long_token(v)),
            Tree::BigInteger(v) => self.token(big_integer_token(v)),
            Tree::Float(v) => self.token(float_token(v)),
            Tree::Double(v) => self.token(double_token(v)),
            Tree::BigDecimal(scale, v) => self.token(big_decimal_token(scale, v)),
            Tree::String(v) => self.string(v),
            Tree::Binary(v) => self.bytes(v),
            Tree::Array(items) => self.token(seq![0xf8u8]).trees(items, 0).write(seq![0xf9u8]),
            Tree::Object(entries) => self.token(seq![0xfau8]).entries(entries, 0).write(
                seq![0xfbu8],
            ),
        }
    }

    /// After writing the values of `items` from index `from` on.
    pub open spec fn trees(self, items: Seq<Tree>, from: int) -> Writer
        decreases items, items.len() - from,
    {
        if 0 <= from < items.len() {
            self.tree(items[from]).trees(items, from + 1)
        } else {
            self
        }
    }

    /// After writing the keys and values of `entries` from index `from` on.
    pub open spec fn entries(self, entries: Seq<(Seq<char>, Tree)>, from: int) -> Writer
        decreases entries, entries.len() - from,
    {
        if 0 <= from < entries.len() {
            self.key(entries[from].0).tree(entries[from].1).entries(entries, from + 1)
        } else {
            self
        }
    }
}

} // verus!
