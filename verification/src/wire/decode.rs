//! What a deserializer reads, as a function from its state to a result and its next state.
//!
//! An error ends the reading: no state comes with it.
use crate::wire::bytes::{first_index, lemma_first_index};
use crate::error::ErrorKind;
use crate::wire::cache::{push_entry, MAX_SHARED_LEN};
use crate::wire::header::{parse, Features};
use crate::wire::number::{be_value, double_bits, float_bits, sign_extended};
use crate::wire::septet::{packed_len, unpack};
use crate::wire::tree::{lemma_merged_keys_once, merged, Tree};
use crate::wire::vint;
use crate::wire::zigzag::unzigzag;
use vstd::prelude::*;
use vstd::utf8::{decode_utf8, valid_utf8};

verus! {

/// The depth of nesting that a deserializer starts with.
pub const DEPTH: u8 = 128;

/// The state of a deserializer over an input that is known.
pub struct Reader {
    /// The bytes still to be read.
    pub rest: Seq<u8>,
    /// The depth of nesting that is left.
    pub depth: nat,
    /// The cache of string values, where they are shared.
    pub strings: Option<Seq<Seq<char>>>,
    /// The cache of map keys, where they are shared.
    pub properties: Option<Seq<Seq<char>>>,
    /// Whether the source has been read to its end once it was asked for more than it had.
    pub drains: bool,
}

/// What reading gives: a result with the state behind it, or an error with the state in which
/// the reading stopped.
pub type Parsed<T> = Result<(T, Reader), (ErrorKind, Reader)>;

/// What one token gives.
pub enum Item {
    /// Null.
    Null,
    /// A boolean.
    Bool(bool),
    /// A 32-bit integer.
    I32(i32),
    /// A 64-bit integer.
    I64(i64),
    /// An unsigned 64-bit integer.
    U64(u64),
    /// A 128-bit integer.
    I128(i128),
    /// An unsigned 128-bit integer.
    U128(u128),
    /// A big integer beyond 128 bits, or of no bytes at all.
    BigInteger(Seq<u8>),
    /// The bit pattern of a 32-bit floating-point value.
    F32(u32),
    /// The bit pattern of a 64-bit floating-point value.
    F64(u64),
    /// A big decimal: its scale and the bytes of its unscaled value.
    BigDecimal(i32, Seq<u8>),
    /// A string.
    Str(Seq<char>),
    /// Binary data.
    Bytes(Seq<u8>),
    /// The start of a sequence, whose elements follow.
    SeqStart,
    /// The start of a map, whose entries follow.
    MapStart,
}

/// The text that bytes stand for.
pub open spec fn text(bytes: Seq<u8>) -> Result<Seq<char>, ErrorKind> {
    if valid_utf8(bytes) {
        Ok(decode_utf8(bytes))
    } else {
        Err(ErrorKind::InvalidUtf8)
    }
}

/// What the bytes of a big integer give: a machine integer where they fit one, the bytes
/// themselves where not.
pub open spec fn big_integer_item(bytes: Seq<u8>) -> Item {
    let n = bytes.len();
    if n == 0 {
        Item::BigInteger(bytes)
    } else if n <= 8 {
        Item::I64(be_value(sign_extended(bytes, 8)) as u64 as i64)
    } else if n == 9 && bytes[0] == 0 {
        Item::U64(be_value(bytes.skip(1)) as u64)
    } else if n <= 16 {
        Item::I128(be_value(sign_extended(bytes, 16)) as i128)
    } else if n == 17 && bytes[0] == 0 {
        Item::U128(be_value(bytes.skip(1)))
    } else {
        Item::BigInteger(bytes)
    }
}

impl Reader {
    /// The state in which a deserializer starts behind a header.
    pub open spec fn new(f: Features, rest: Seq<u8>) -> Reader {
        Reader {
            drains: false,
            rest,
            depth: DEPTH as nat,
            strings: if f.shared_strings {
                Some(Seq::empty())
            } else {
                None
            },
            properties: if f.shared_properties {
                Some(Seq::empty())
            } else {
                None
            },
        }
    }

    /// The state in which a deserializer starts on `input`, which opens with a header.
    pub open spec fn open(input: Seq<u8>) -> Result<Reader, ErrorKind> {
        match parse(input) {
            Ok(f) => Ok(Reader::new(f, input.skip(4))),
            Err(e) => Err(e),
        }
    }

    /// The same state over a source that is read to its end once it is asked for more than it
    /// has, as a stream is.
    pub open spec fn draining(self) -> Reader {
        Reader { drains: true, ..self }
    }

    /// After more was asked for than was there: at the end where the source is read to its
    /// end then, else unchanged.
    pub open spec fn starved(self) -> Reader {
        if self.drains {
            Reader { rest: Seq::empty(), ..self }
        } else {
            self
        }
    }

    /// After stepping over `n` bytes.
    pub open spec fn skip(self, n: int) -> Reader {
        Reader { rest: self.rest.skip(n), ..self }
    }

    /// The next byte.
    pub open spec fn byte(self) -> Result<(u8, Reader), (ErrorKind, Reader)> {
        if self.rest.len() > 0 {
            Ok((self.rest[0], self.skip(1)))
        } else {
            Err((ErrorKind::EofWhileParsingValue, self))
        }
    }

    /// The next `n` bytes.
    pub open spec fn take(self, n: nat) -> Result<(Seq<u8>, Reader), (ErrorKind, Reader)> {
        if n <= self.rest.len() {
            Ok((self.rest.take(n as int), self.skip(n as int)))
        } else {
            Err((ErrorKind::EofWhileParsingValue, self.starved()))
        }
    }

    /// The bytes up to the next end mark, which is stepped over.
    pub open spec fn until(self, end: u8) -> Result<(Seq<u8>, Reader), (ErrorKind, Reader)> {
        match first_index(self.rest, end) {
            Some(i) => Ok((self.rest.take(i), self.skip(i + 1))),
            None => Err((ErrorKind::EofWhileParsingValue, self.starved())),
        }
    }

    /// A VInt of at most `limit` bytes. The reading stops behind the last byte that the limit
    /// admits, or at the end of the input.
    pub open spec fn vint(self, limit: nat) -> Result<(u64, Reader), (ErrorKind, Reader)> {
        match vint::decode(self.rest, limit) {
            Ok((v, n)) => Ok((v, self.skip(n as int))),
            Err(e) => Err(
                (
                    e,
                    self.skip(
                        if e is UnterminatedVint {
                            limit as int
                        } else {
                            self.rest.len() as int
                        },
                    ),
                ),
            ),
        }
    }

    /// A 32-bit integer behind its lead byte: a VInt of at most five bytes, of which the low 32
    /// bits count, unfolded.
    pub open spec fn int32(self) -> Result<(i32, Reader), (ErrorKind, Reader)> {
        match self.vint(5) {
            Ok((v, r)) => Ok((unzigzag((v as u32) as int) as i32, r)),
            Err(e) => Err(e),
        }
    }

    /// A 64-bit integer behind its lead byte: a VInt of at most ten bytes, unfolded.
    pub open spec fn int64(self) -> Result<(i64, Reader), (ErrorKind, Reader)> {
        match self.vint(10) {
            Ok((v, r)) => Ok((unzigzag(v as int) as i64, r)),
            Err(e) => Err(e),
        }
    }

    /// Binary data packed into seven bits, behind its length. `BufferLengthOverflow` where the
    /// packed length does not fit the platform's size type.
    pub open spec fn packed(self) -> Result<(Seq<u8>, Reader), (ErrorKind, Reader)> {
        match self.vint(10) {
            Ok((raw_len, r)) => {
                if packed_len(raw_len as nat) > usize::MAX {
                    Err((ErrorKind::BufferLengthOverflow, r))
                } else {
                    match r.take(packed_len(raw_len as nat)) {
                        Ok((bytes, r2)) => Ok((unpack(bytes, raw_len as nat), r2)),
                        Err(e) => Err(e),
                    }
                }
            },
            Err(e) => Err(e),
        }
    }

    /// Raw binary data behind its length. `BufferLengthOverflow` where the length does not fit
    /// the platform's size type.
    pub open spec fn raw(self) -> Result<(Seq<u8>, Reader), (ErrorKind, Reader)> {
        match self.vint(10) {
            Ok((len, r)) => {
                if len > usize::MAX {
                    Err((ErrorKind::BufferLengthOverflow, r))
                } else {
                    r.take(len as nat)
                }
            },
            Err(e) => Err(e),
        }
    }

    /// A big integer behind its lead byte.
    pub open spec fn big_integer(self) -> Result<(Item, Reader), (ErrorKind, Reader)> {
        match self.packed() {
            Ok((bytes, r)) => Ok((big_integer_item(bytes), r)),
            Err(e) => Err(e),
        }
    }

    /// The scale of a big decimal behind its lead byte.
    pub open spec fn scale(self) -> Result<(i32, Reader), (ErrorKind, Reader)> {
        self.int32()
    }

    /// A big decimal behind its lead byte: its scale and the bytes of its unscaled value.
    pub open spec fn big_decimal(self) -> Result<(Item, Reader), (ErrorKind, Reader)> {
        match self.scale() {
            Ok((scale, r)) => match r.packed() {
                Ok((bytes, r2)) => Ok((Item::BigDecimal(scale, bytes), r2)),
                Err(e) => Err(e),
            },
            Err(e) => Err(e),
        }
    }

    /// The bit pattern of a 32-bit floating-point value behind its lead byte.
    pub open spec fn float(self) -> Result<(Item, Reader), (ErrorKind, Reader)> {
        match self.take(5) {
            Ok((b, r)) => Ok((Item::F32(float_bits(b)), r)),
            Err(e) => Err(e),
        }
    }

    /// The bit pattern of a 64-bit floating-point value behind its lead byte.
    pub open spec fn double(self) -> Result<(Item, Reader), (ErrorKind, Reader)> {
        match self.take(10) {
            Ok((b, r)) => Ok((Item::F64(double_bits(b)), r)),
            Err(e) => Err(e),
        }
    }

    /// After a string value of these bytes has been read that was written out: the cache of
    /// string values takes it in, if there is one and the string is not longer than 64 bytes.
    pub open spec fn remember_string(self, bytes: Seq<u8>) -> Reader {
        match self.strings {
            Some(c) if bytes.len() <= MAX_SHARED_LEN => Reader {
                strings: Some(push_entry(c, decode_utf8(bytes))),
                ..self
            },
            _ => self,
        }
    }

    /// After a key of these bytes has been read that was written out: the cache of keys takes
    /// it in, if there is one and the key is not longer than 64 bytes.
    pub open spec fn remember_property(self, bytes: Seq<u8>) -> Reader {
        match self.properties {
            Some(c) if bytes.len() <= MAX_SHARED_LEN => Reader {
                properties: Some(push_entry(c, decode_utf8(bytes))),
                ..self
            },
            _ => self,
        }
    }

    /// A string value of `len` bytes behind its lead byte.
    pub open spec fn short_string(self, len: nat) -> Result<(Seq<char>, Reader), (ErrorKind, Reader)> {
        match self.take(len) {
            Ok((bytes, r)) => match text(bytes) {
                Ok(s) => Ok((s, r.remember_string(bytes))),
                Err(e) => Err((e, r)),
            },
            Err(e) => Err(e),
        }
    }

    /// A string value between its lead byte and the end mark.
    pub open spec fn long_string(self) -> Result<(Seq<char>, Reader), (ErrorKind, Reader)> {
        match self.until(0xfc) {
            Ok((bytes, r)) => match text(bytes) {
                Ok(s) => Ok((s, r.remember_string(bytes))),
                Err(e) => Err((e, r)),
            },
            Err(e) => Err(e),
        }
    }

    /// The string value that a back-reference stands for.
    pub open spec fn shared_string(self, reference: u16) -> Result<(Seq<char>, Reader), (ErrorKind, Reader)> {
        match self.strings {
            Some(c) if reference < c.len() => Ok((c[reference as int], self)),
            _ => Err((ErrorKind::InvalidStringReference, self)),
        }
    }

    /// The string value that a back-reference of two bytes stands for, behind its lead byte,
    /// which gave the high part `hi`.
    pub open spec fn long_shared_string(self, hi: u8) -> Result<(Seq<char>, Reader), (ErrorKind, Reader)> {
        match self.byte() {
            Ok((lo, r)) => r.shared_string(((hi as u16) << 8) | (lo as u16)),
            Err(e) => Err(e),
        }
    }

    /// Going one level down. `RecursionLimitExceeded` where no level is left to go down to.
    pub open spec fn enter(self) -> Result<Reader, (ErrorKind, Reader)> {
        if self.depth <= 1 {
            Err((ErrorKind::RecursionLimitExceeded, self))
        } else {
            Ok(Reader { depth: (self.depth - 1) as nat, ..self })
        }
    }

    /// Going one level up.
    pub open spec fn leave(self) -> Reader {
        if self.depth < DEPTH {
            Reader { depth: self.depth + 1, ..self }
        } else {
            self
        }
    }

    /// What the next token gives.
    #[verifier::opaque]
    pub open spec fn value(self) -> Result<(Item, Reader), (ErrorKind, Reader)> {
        match self.byte() {
            Err(e) => Err(e),
            Ok((t, r)) => {
                if t == 0x00 {
                    Err((ErrorKind::ReservedToken, r))
                } else if t <= 0x1f {
                    as_str(r.shared_string((t - 1) as u16))
                } else if t == 0x20 {
                    Ok((Item::Str(Seq::empty()), r))
                } else if t == 0x21 {
                    Ok((Item::Null, r))
                } else if t == 0x22 {
                    Ok((Item::Bool(false), r))
                } else if t == 0x23 {
                    Ok((Item::Bool(true), r))
                } else if t == 0x24 {
                    match r.int32() {
                        Ok((v, r2)) => Ok((Item::I32(v), r2)),
                        Err(e) => Err(e),
                    }
                } else if t == 0x25 {
                    match r.int64() {
                        Ok((v, r2)) => Ok((Item::I64(v), r2)),
                        Err(e) => Err(e),
                    }
                } else if t == 0x26 {
                    r.big_integer()
                } else if t == 0x27 {
                    Err((ErrorKind::ReservedToken, r))
                } else if t == 0x28 {
                    r.float()
                } else if t == 0x29 {
                    r.double()
                } else if t == 0x2a {
                    r.big_decimal()
                } else if t <= 0x3f {
                    Err((ErrorKind::ReservedToken, r))
                } else if t <= 0x7f {
                    as_str(r.short_string((t - 0x3f) as nat))
                } else if t <= 0xbf {
                    as_str(r.short_string((t - 0x7e) as nat))
                } else if t <= 0xdf {
                    Ok((Item::I32(unzigzag(t - 0xc0) as i32), r))
                } else if t == 0xe0 || t == 0xe4 {
                    as_str(r.long_string())
                } else if t == 0xe8 {
                    match r.packed() {
                        Ok((b, r2)) => Ok((Item::Bytes(b), r2)),
                        Err(e) => Err(e),
                    }
                } else if t <= 0xeb {
                    Err((ErrorKind::ReservedToken, r))
                } else if t <= 0xef {
                    as_str(r.long_shared_string((t - 0xec) as u8))
                } else if t <= 0xf7 {
                    Err((ErrorKind::ReservedToken, r))
                } else if t == 0xf8 {
                    match r.enter() {
                        Ok(r2) => Ok((Item::SeqStart, r2)),
                        Err(e) => Err(e),
                    }
                } else if t == 0xf9 {
                    Err((ErrorKind::UnexpectedToken, r))
                } else if t == 0xfa {
                    match r.enter() {
                        Ok(r2) => Ok((Item::MapStart, r2)),
                        Err(e) => Err(e),
                    }
                } else if t == 0xfb || t == 0xfc {
                    Err((ErrorKind::UnexpectedToken, r))
                } else if t == 0xfd {
                    match r.raw() {
                        Ok((b, r2)) => Ok((Item::Bytes(b), r2)),
                        Err(e) => Err(e),
                    }
                } else if t == 0xfe {
                    Err((ErrorKind::ReservedToken, r))
                } else {
                    Err((ErrorKind::EofWhileParsingValue, r))
                }
            },
        }
    }

    /// Whether an element follows in a sequence; `false` where its end mark follows.
    pub open spec fn element(self) -> Result<bool, ErrorKind> {
        if self.rest.len() == 0 {
            Err(ErrorKind::EofWhileParsingArray)
        } else {
            Ok(self.rest[0] != 0xf9)
        }
    }

    /// Behind the end mark of a sequence, one level up. The level is left also where the end
    /// mark is not there; a byte that stands in its place is stepped over.
    pub open spec fn end_array(self) -> Result<Reader, (ErrorKind, Reader)> {
        if self.rest.len() == 0 {
            Err((ErrorKind::EofWhileParsingArray, self.leave()))
        } else if self.rest[0] == 0xf9 {
            Ok(self.skip(1).leave())
        } else {
            Err((ErrorKind::TrailingData, self.skip(1).leave()))
        }
    }

    /// Whether an entry follows in a map; `false` where its end mark follows.
    pub open spec fn entry(self) -> Result<bool, ErrorKind> {
        if self.rest.len() == 0 {
            Err(ErrorKind::EofWhileParsingMap)
        } else {
            Ok(self.rest[0] != 0xfb)
        }
    }

    /// Behind the end mark of a map, one level up. The level is left also where the end mark
    /// is not there; a byte that stands in its place is stepped over.
    pub open spec fn end_map(self) -> Result<Reader, (ErrorKind, Reader)> {
        if self.rest.len() == 0 {
            Err((ErrorKind::EofWhileParsingMap, self.leave()))
        } else if self.rest[0] == 0xfb {
            Ok(self.skip(1).leave())
        } else {
            Err((ErrorKind::TrailingData, self.skip(1).leave()))
        }
    }

    /// The end of a document: the input ends, or the end-of-stream mark stands there. Any
    /// other byte is `TrailingData`, and is stepped over.
    pub open spec fn end(self) -> Result<Reader, (ErrorKind, Reader)> {
        if self.rest.len() == 0 {
            Ok(self)
        } else if self.rest[0] == 0xff {
            Ok(self.skip(1))
        } else {
            Err((ErrorKind::TrailingData, self.skip(1)))
        }
    }

    /// The key that a back-reference stands for.
    pub open spec fn shared_property(self, reference: u16) -> Result<
        (Seq<char>, Reader),
        (ErrorKind, Reader),
    > {
        match self.properties {
            Some(c) if reference < c.len() => Ok((c[reference as int], self)),
            _ => Err((ErrorKind::InvalidStringReference, self)),
        }
    }

    /// A key of these bytes that was written out.
    pub open spec fn literal_key(self, bytes: Seq<u8>) -> Result<(Seq<char>, Reader), (ErrorKind, Reader)> {
        match text(bytes) {
            Ok(s) => Ok((s, self.remember_property(bytes))),
            Err(e) => Err((e, self)),
        }
    }

    /// The key that the next token gives.
    #[verifier::opaque]
    pub open spec fn key(self) -> Result<(Seq<char>, Reader), (ErrorKind, Reader)> {
        match self.byte() {
            Err(e) => Err(e),
            Ok((t, r)) => {
                if t <= 0x1f {
                    Err((ErrorKind::ReservedToken, r))
                } else if t == 0x20 {
                    Ok((Seq::empty(), r))
                } else if t <= 0x2f {
                    Err((ErrorKind::ReservedToken, r))
                } else if t <= 0x33 {
                    match r.byte() {
                        Ok((lo, r2)) => r2.shared_property((((t - 0x30) as u16) << 8) | (lo as u16)),
                        Err(e) => Err(e),
                    }
                } else if t == 0x34 {
                    match r.until(0xfc) {
                        Ok((bytes, r2)) => r2.literal_key(bytes),
                        Err(e) => Err(e),
                    }
                } else if t <= 0x39 {
                    Err((ErrorKind::ReservedToken, r))
                } else if t == 0x3a {
                    Err((ErrorKind::UnexpectedToken, r))
                } else if t <= 0x3f {
                    Err((ErrorKind::ReservedToken, r))
                } else if t <= 0x7f {
                    r.shared_property((t - 0x40) as u16)
                } else if t <= 0xbf {
                    match r.take((t - 0x7f) as nat) {
                        Ok((bytes, r2)) => r2.literal_key(bytes),
                        Err(e) => Err(e),
                    }
                } else if t <= 0xf7 {
                    match r.take((t - 0xbe) as nat) {
                        Ok((bytes, r2)) => r2.literal_key(bytes),
                        Err(e) => Err(e),
                    }
                } else if t <= 0xfa {
                    Err((ErrorKind::ReservedToken, r))
                } else if t == 0xfb {
                    Err((ErrorKind::UnexpectedToken, r))
                } else {
                    Err((ErrorKind::ReservedToken, r))
                }
            },
        }
    }

    /// The value that stands next, as a tree. A big integer stays a big integer whatever its
    /// size. A map holds each key once: a key that stands in the document again gives the
    /// key a new value. Where the reading fails inside a container, the level of that
    /// container is left all the same.
    pub open spec fn tree(self) -> Result<(Tree, Reader), (ErrorKind, Reader)>
        decreases self.rest.len(), 0nat,
    {
        if self.rest.len() > 0 && self.rest[0] == 0x26 {
            match self.skip(1).packed() {
                Ok((bytes, r)) => Ok((Tree::BigInteger(bytes), r)),
                Err(e) => Err(e),
            }
        } else {
            match self.value() {
                Err(e) => Err(e),
                Ok((item, r)) => match item {
                    Item::Null => Ok((Tree::Null, r)),
                    Item::Bool(v) => Ok((Tree::Boolean(v), r)),
                    Item::I32(v) => Ok((Tree::Integer(v), r)),
                    Item::I64(v) => Ok((Tree::Long(v), r)),
                    Item::F32(v) => Ok((Tree::Float(v), r)),
                    Item::F64(v) => Ok((Tree::Double(v), r)),
                    Item::BigDecimal(scale, v) => Ok((Tree::BigDecimal(scale, v), r)),
                    Item::Str(v) => Ok((Tree::String(v), r)),
                    Item::Bytes(v) => Ok((Tree::Binary(v), r)),
                    Item::SeqStart => {
                        if r.rest.len() < self.rest.len() {
                            match r.elements() {
                                Ok((items, r2)) => match r2.end_array() {
                                    Ok(r3) => Ok((Tree::Array(items), r3)),
                                    Err(e) => Err(e),
                                },
                                Err((k, r2)) => Err((k, r2.leave())),
                            }
                        } else {
                            Err((ErrorKind::EofWhileParsingArray, r))
                        }
                    },
                    Item::MapStart => {
                        if r.rest.len() < self.rest.len() {
                            match r.entries() {
                                Ok((entries, r2)) => match r2.end_map() {
                                    Ok(r3) => Ok((Tree::Object(merged(entries)), r3)),
                                    Err(e) => Err(e),
                                },
                                Err((k, r2)) => Err((k, r2.leave())),
                            }
                        } else {
                            Err((ErrorKind::EofWhileParsingMap, r))
                        }
                    },
                    _ => Err((ErrorKind::UnsupportedBigInteger, r)),
                },
            }
        }
    }

    /// The elements of a sequence up to its end mark, which is left in place.
    pub open spec fn elements(self) -> Result<(Seq<Tree>, Reader), (ErrorKind, Reader)>
        decreases self.rest.len(), 1nat,
    {
        match self.element() {
            Err(e) => Err((e, self)),
            Ok(false) => Ok((Seq::empty(), self)),
            Ok(true) => match self.tree() {
                Err(e) => Err(e),
                Ok((first, r)) => {
                    if r.rest.len() < self.rest.len() {
                        match r.elements() {
                            Ok((others, r2)) => Ok((seq![first] + others, r2)),
                            Err(e) => Err(e),
                        }
                    } else {
                        Err((ErrorKind::EofWhileParsingArray, r))
                    }
                },
            },
        }
    }

    /// The entries of a map up to its end mark, which is left in place.
    pub open spec fn entries(self) -> Result<(Seq<(Seq<char>, Tree)>, Reader), (ErrorKind, Reader)>
        decreases self.rest.len(), 1nat,
    {
        match self.entry() {
            Err(e) => Err((e, self)),
            Ok(false) => Ok((Seq::empty(), self)),
            Ok(true) => match self.key() {
                Err(e) => Err(e),
                Ok((key, r)) => {
                    if r.rest.len() < self.rest.len() {
                        match r.tree() {
                            Err(e) => Err(e),
                            Ok((value, r2)) => {
                                if r2.rest.len() < r.rest.len() {
                                    match r2.entries() {
                                        Ok((others, r3)) => Ok((seq![(key, value)] + others, r3)),
                                        Err(e) => Err(e),
                                    }
                                } else {
                                    Err((ErrorKind::EofWhileParsingMap, r))
                                }
                            },
                        }
                    } else {
                        Err((ErrorKind::EofWhileParsingMap, r))
                    }
                },
            },
        }
    }

    /// A whole document behind its header: one value, and the end.
    pub open spec fn document(self) -> Result<Tree, ErrorKind> {
        match self.tree() {
            Ok((t, r)) => match r.end() {
                Ok(_) => Ok(t),
                Err((k, _)) => Err(k),
            },
            Err((k, _)) => Err(k),
        }
    }
}

/// Each successful step of a reader leaves no more to read than there was, and leaves the depth
/// as it was.
pub proof fn lemma_steps(st: Reader, limit: nat, n: nat, end: u8)
    ensures
        st.vint(limit) matches Ok((_, r)) ==> r.rest.len() < st.rest.len() && r.depth == st.depth,
        st.take(n) matches Ok((_, r)) ==> r.rest.len() + n == st.rest.len() && r.depth == st.depth,
        st.until(end) matches Ok((_, r)) ==> r.rest.len() < st.rest.len() && r.depth == st.depth,
        st.packed() matches Ok((_, r)) ==> r.rest.len() < st.rest.len() && r.depth == st.depth,
        st.raw() matches Ok((_, r)) ==> r.rest.len() < st.rest.len() && r.depth == st.depth,
        st.byte() matches Ok((_, r)) ==> r.rest.len() + 1 == st.rest.len() && r.depth == st.depth,
{
    vint::lemma_scan_len(st.rest, limit, 0, 0);
    vint::lemma_scan_len(st.rest, 10, 0, 0);
    lemma_first_index(st.rest, end, 0);
}

/// A token that is read takes at least one byte, and a token that opens no container leaves
/// the depth as it was.
pub proof fn lemma_value_progress(st: Reader)
    ensures
        st.value() matches Ok((item, r)) ==> r.rest.len() < st.rest.len() && r.depth == (if item is SeqStart
            || item is MapStart {
            st.depth - 1
        } else {
            st.depth as int
        }),
{
    reveal(Reader::value);
    if st.rest.len() > 0 {
        let r = st.skip(1);
        lemma_steps(r, 5, 5, 0xfc);
        lemma_steps(r, 10, 10, 0xfc);
        let t = st.rest[0];
        if 0x40 <= t <= 0x7f {
            lemma_steps(r, 0, (t - 0x3f) as nat, 0);
        }
        if 0x80 <= t <= 0xbf {
            lemma_steps(r, 0, (t - 0x7e) as nat, 0);
        }
        if t == 0x2a {
            if let Ok((_, r1)) = r.scale() {
                lemma_steps(r1, 10, 0, 0);
            }
        }
        if 0xec <= t <= 0xef {
            lemma_steps(r, 0, 0, 0);
        }
    }
}

/// A key that is read takes at least one byte and leaves the depth as it was.
pub proof fn lemma_key_progress(st: Reader)
    ensures
        st.key() matches Ok((_, r)) ==> r.rest.len() < st.rest.len() && r.depth == st.depth,
{
    reveal(Reader::key);
    if st.rest.len() > 0 {
        let r = st.skip(1);
        let t = st.rest[0];
        lemma_steps(r, 0, 0, 0xfc);
        if 0x80 <= t <= 0xbf {
            lemma_steps(r, 0, (t - 0x7f) as nat, 0);
        }
        if 0xc0 <= t <= 0xf7 {
            lemma_steps(r, 0, (t - 0xbe) as nat, 0);
        }
    }
}

/// A value that is read takes at least one byte and leaves the depth as it was, as long as
/// the depth was not beyond what a deserializer starts with; so do the elements of a sequence
/// and the entries of a map, which may take no byte.
pub proof fn lemma_tree_progress(st: Reader)
    requires
        st.depth <= DEPTH,
    ensures
        st.tree() matches Ok((_, r)) ==> r.rest.len() < st.rest.len() && r.depth == st.depth,
        st.elements() matches Ok((_, r)) ==> r.rest.len() <= st.rest.len() && r.depth == st.depth,
        st.entries() matches Ok((_, r)) ==> r.rest.len() <= st.rest.len() && r.depth == st.depth,
    decreases st.rest.len(), 2nat,
{
    lemma_tree_step(st);
    if st.element() == Ok::<bool, ErrorKind>(true) {
        if let Ok((_, r)) = st.tree() {
            if r.rest.len() < st.rest.len() {
                lemma_tree_progress(r);
            }
        }
    }
    if st.entry() == Ok::<bool, ErrorKind>(true) {
        lemma_key_progress(st);
        if let Ok((_, r)) = st.key() {
            if r.rest.len() < st.rest.len() {
                lemma_tree_step(r);
                if let Ok((_, r2)) = r.tree() {
                    if r2.rest.len() < r.rest.len() {
                        lemma_tree_progress(r2);
                    }
                }
            }
        }
    }
}

/// The part of [`lemma_tree_progress`] that speaks of one value.
pub proof fn lemma_tree_step(st: Reader)
    requires
        st.depth <= DEPTH,
    ensures
        st.tree() matches Ok((_, r)) ==> r.rest.len() < st.rest.len() && r.depth == st.depth,
    decreases st.rest.len(), 1nat,
{
    if st.rest.len() > 0 && st.rest[0] == 0x26 {
        lemma_steps(st.skip(1), 0, 0, 0);
    } else {
        lemma_value_progress(st);
        if let Ok((item, r)) = st.value() {
            if r.rest.len() < st.rest.len() {
                if item is SeqStart || item is MapStart {
                    lemma_tree_progress(r);
                }
            }
        }
    }
}

/// In a value that is read every map holds each of its keys once.
pub proof fn lemma_tree_keys_once(st: Reader)
    ensures
        st.tree() matches Ok((t, _)) ==> t.keys_once(),
    decreases st.rest.len(), 0nat,
{
    if st.rest.len() > 0 && st.rest[0] == 0x26 {
    } else if let Ok((item, r)) = st.value() {
        if r.rest.len() < st.rest.len() {
            if item is SeqStart {
                lemma_elements_keys_once(r);
            }
            if item is MapStart {
                lemma_entries_keys_once(r);
                if let Ok((entries, _)) = r.entries() {
                    lemma_merged_keys_once(entries);
                }
            }
        }
    }
}

/// The part of [`lemma_tree_keys_once`] that speaks of the elements of a sequence.
pub proof fn lemma_elements_keys_once(st: Reader)
    ensures
        st.elements() matches Ok((items, _)) ==> forall|i: int|
            0 <= i < items.len() ==> (#[trigger] items[i]).keys_once(),
    decreases st.rest.len(), 1nat,
{
    if st.element() == Ok::<bool, ErrorKind>(true) {
        lemma_tree_keys_once(st);
        if let Ok((first, r)) = st.tree() {
            if r.rest.len() < st.rest.len() {
                lemma_elements_keys_once(r);
                if let Ok((others, _)) = r.elements() {
                    let items = seq![first] + others;
                    assert forall|i: int| 0 <= i < items.len() implies (#[trigger] items[i]).keys_once() by {
                        if i > 0 {
                            assert(items[i] == others[i - 1]);
                        }
                    }
                }
            }
        }
    }
}

/// The part of [`lemma_tree_keys_once`] that speaks of the values of the entries of a map,
/// as they stand in the document.
pub proof fn lemma_entries_keys_once(st: Reader)
    ensures
        st.entries() matches Ok((entries, _)) ==> forall|i: int|
            0 <= i < entries.len() ==> (#[trigger] entries[i]).1.keys_once(),
    decreases st.rest.len(), 1nat,
{
    if st.entry() == Ok::<bool, ErrorKind>(true) {
        if let Ok((key, r)) = st.key() {
            if r.rest.len() < st.rest.len() {
                lemma_tree_keys_once(r);
                if let Ok((value, r2)) = r.tree() {
                    if r2.rest.len() < r.rest.len() {
                        lemma_entries_keys_once(r2);
                        if let Ok((others, _)) = r2.entries() {
                            let entries = seq![(key, value)] + others;
                            assert forall|i: int| 0 <= i < entries.len() implies (
                            #[trigger] entries[i]).1.keys_once() by {
                                if i > 0 {
                                    assert(entries[i] == others[i - 1]);
                                }
                            }
                        }
                    }
                }
            }
        }
    }
}

/// The limit of nesting. A reader that has before it at least as many openers of sequences,
/// one behind the other, as it has levels left, gives up with `RecursionLimitExceeded`; a
/// fresh reader does so before 128 openers. It then stands behind the opener at which it gave
/// up, having read nothing behind it, and at the depth at which it started.
pub proof fn lemma_nesting_limit(st: Reader)
    requires
        st.rest.len() >= 1,
        st.rest.len() >= st.depth,
        st.depth <= DEPTH,
        forall|i: int| 0 <= i < st.depth || i == 0 ==> #[trigger] st.rest[i] == 0xf8,
    ensures
        st.tree() == Err::<(Tree, Reader), (ErrorKind, Reader)>(
            (ErrorKind::RecursionLimitExceeded, st.skip(openers(st.depth))),
        ),
    decreases st.depth,
{
    reveal(Reader::value);
    if st.depth > 1 {
        let inner = Reader { depth: (st.depth - 1) as nat, ..st.skip(1) };
        assert forall|i: int| 0 <= i < inner.depth || i == 0 implies #[trigger] inner.rest[i]
            == 0xf8 by {
            assert(inner.rest[i] == st.rest[i + 1]);
        }
        lemma_nesting_limit(inner);
        assert(inner.rest.skip(openers(inner.depth)) =~= st.rest.skip(openers(st.depth)));
    }
}

/// The number of openers that a reader with `depth` levels left steps over before it gives up.
pub open spec fn openers(depth: nat) -> int {
    if depth > 1 {
        depth as int
    } else {
        1
    }
}

/// Whether reading the format fails in this way: every kind but those of the stream behind the
/// source, of the layer that drives the codec, and of writing.
pub open spec fn of_format(k: ErrorKind) -> bool {
    !(k is Io) && !(k is Custom) && !(k is KeyMustBeAString) && !(k is UnsupportedBigDecimal)
}

/// A string, as what a token gives.
pub open spec fn as_str(r: Result<(Seq<char>, Reader), (ErrorKind, Reader)>) -> Result<
    (Item, Reader),
    (ErrorKind, Reader),
> {
    match r {
        Ok((s, r2)) => Ok((Item::Str(s), r2)),
        Err(e) => Err(e),
    }
}

} // verus!
