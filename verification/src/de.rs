//! Deserialize Smile data.
use crate::de::key_deserializer::from_utf8;
use crate::error::Error;
use crate::ser::same_text;
use crate::value::{BigDecimal, BigInteger, Value};
use crate::wire::decode::{of_format, Item, Reader};
use crate::wire::number::{be_value, double_bits, float_bits, sign_byte, sign_extended};
use crate::wire::septet::{packed_len, unpack, unpack_byte, unpack_group};
use crate::wire::vint;
use crate::wire::zigzag;
use std::borrow::Cow;
use vstd::prelude::*;
use vstd::slice::slice_subrange;

pub mod key_deserializer;
mod read;
pub mod stream_deserializer;
pub mod string_cache;

pub use key_deserializer::{KeyDeserializer, Str};
pub use stream_deserializer::StreamDeserializer;

pub use read::{Buf, IoRead, MutBuf, MutSliceRead, Read, SliceRead, Source};
pub use string_cache::StringCache;

verus! {

/// What one token gives.
pub enum Event<'a, 'de> {
    /// Null.
    Null,
    /// A boolean.
    Bool(bool),
    /// A 32-bit integer.
    I32(i32),
    /// A 64-bit integer.
    I64(i64),
    /// An unsigned 64-bit integer.
    U64(u64),
    /// A 128-bit integer.
    I128(i128),
    /// An unsigned 128-bit integer.
    U128(u128),
    /// A big integer beyond 128 bits, or of no bytes at all.
    BigInteger(Buf<'a, 'de>),
    /// The bit pattern of a 32-bit floating-point value.
    F32(u32),
    /// The bit pattern of a 64-bit floating-point value.
    F64(u64),
    /// A big decimal: its scale and the bytes of its unscaled value.
    BigDecimal(i32, Buf<'a, 'de>),
    /// A string.
    Str(Str<'a, 'de>),
    /// Binary data.
    Bytes(Buf<'a, 'de>),
    /// The start of a sequence, whose elements follow.
    SeqStart,
    /// The start of a map, whose entries follow.
    MapStart,
}

impl<'a, 'de> View for Event<'a, 'de> {
    type V = Item;

    open spec fn view(&self) -> Item {
        match self {
            Event::Null => Item::Null,
            Event::Bool(v) => Item::Bool(*v),
            Event::I32(v) => Item::I32(*v),
            Event::I64(v) => Item::I64(*v),
            Event::U64(v) => Item::U64(*v),
            Event::I128(v) => Item::I128(*v),
            Event::U128(v) => Item::U128(*v),
            Event::BigInteger(v) => Item::BigInteger(v@),
            Event::F32(v) => Item::F32(*v),
            Event::F64(v) => Item::F64(*v),
            Event::BigDecimal(scale, v) => Item::BigDecimal(*scale, v@),
            Event::Str(v) => Item::Str(v@),
            Event::Bytes(v) => Item::Bytes(v@),
            Event::SeqStart => Item::SeqStart,
            Event::MapStart => Item::MapStart,
        }
    }
}

/// Deserializes a value from a slice of Smile data: a header, one value, and the end of the
/// input or the end-of-stream mark.
pub fn from_slice(slice: &[u8]) -> (r: Result<Value, Error>)
    ensures
        r matches Ok(v) ==> v@.keys_once(),
        match Reader::open(slice@) {
            Ok(st) => match st.document() {
                Ok(t) => r matches Ok(v) && v@ == t,
                Err(k) => r matches Err(e) && e@ == k,
            },
            Err(k) => r matches Err(e) && e@ == k,
        },
{
    let mut de = Deserializer::from_slice(slice)?;
    let value = Value::deserialize(&mut de)?;
    de.end()?;
    Ok(value)
}

/// Deserializes a value from a mutable slice of Smile data. The contents of the slice are
/// unspecified after deserialization.
pub fn from_mut_slice(slice: &mut [u8]) -> (r: Result<Value, Error>)
    ensures
        r matches Ok(v) ==> v@.keys_once(),
        match Reader::open(old(slice)@) {
            Ok(st) => match st.document() {
                Ok(t) => r matches Ok(v) && v@ == t,
                Err(k) => r matches Err(e) && e@ == k,
            },
            Err(k) => r matches Err(e) && e@ == k,
        },
{
    let mut de = Deserializer::from_mut_slice(slice)?;
    let value = Value::deserialize(&mut de)?;
    de.end()?;
    Ok(value)
}

/// Deserializes a value from a stream of Smile data: a header, one value, and the end of the
/// stream or the end-of-stream mark. What comes back depends on what the stream hands out:
/// where the stream knows that, it is what the bytes hold.
pub fn from_reader<R: Source>(reader: R) -> (r: Result<Value, Error>)
    ensures
        r matches Ok(v) ==> v@.keys_once(),
        r matches Err(e) ==> e@ is Io || of_format(e@),
        reader.pending() matches Some(input) ==> match Reader::open(input) {
            Ok(st) => match st.draining().document() {
                Ok(t) => r matches Ok(v) && v@ == t,
                Err(k) => r matches Err(e) && e@ == k,
            },
            Err(k) => r matches Err(e) && e@ == k,
        },
{
    let mut de = Deserializer::from_reader(reader)?;
    let value = Value::deserialize(&mut de)?;
    de.end()?;
    Ok(value)
}

/// Whether a structure of this name and these fields is the one that a big integer travels
/// as.
pub open spec fn wants_big_integer(name: Seq<char>, fields: Seq<&str>) -> bool {
    name == BigInteger::STRUCT_NAME@ && fields.len() == 1 && fields[0]@ == BigInteger::FIELD_NAME@
}

/// Whether a structure of this name and these fields is the one that a big decimal travels
/// as.
pub open spec fn wants_big_decimal(name: Seq<char>, fields: Seq<&str>) -> bool {
    name == BigDecimal::STRUCT_NAME@ && fields.len() == 2 && fields[0]@
        == BigDecimal::SCALE_FIELD_NAME@ && fields[1]@ == BigDecimal::VALUE_FIELD_NAME@
}

/// Turns one packed group at `in_base` into its `k` bytes at `out_base`, which is not behind
/// `in_base`.
fn unpack_group_in_place(buf: &mut [u8], in_base: usize, out_base: usize, k: usize)
    requires
        1 <= k <= 7,
        out_base <= in_base,
        in_base + k < old(buf)@.len(),
    ensures
        final(buf)@.len() == old(buf)@.len(),
        forall|j: int|
            0 <= j < k ==> #[trigger] final(buf)@[out_base + j] == unpack_byte(
                old(buf)@.subrange(in_base as int, in_base + k + 1),
                k as int,
                j,
            ),
        forall|j: int|
            (0 <= j < out_base || in_base + k < j < old(buf)@.len()) ==> #[trigger] final(buf)@[j]
                == old(buf)@[j],
{
    let ghost orig = buf@;
    let ghost e = orig.subrange(in_base as int, in_base + k + 1);
    let len = buf.len();
    if k < 7 {
        // the last byte is right-aligned
        buf[in_base + k] = buf[in_base + k] << (7 - k);
    }
    let ghost adj = buf@;
    let mut i: usize = 0;
    while i < k
        invariant
            1 <= k <= 7,
            i <= k,
            out_base <= in_base,
            in_base + k < orig.len() == len,
            buf@.len() == orig.len(),
            adj.len() == orig.len(),
            e == orig.subrange(in_base as int, in_base + k + 1),
            forall|j: int| 0 <= j < orig.len() && j != in_base + k ==> adj[j] == orig[j],
            adj[in_base + k] == (if k < 7 {
                orig[in_base + k] << ((7 - k) as u8)
            } else {
                orig[in_base + k]
            }),
            forall|j: int| 0 <= j < i ==> #[trigger] buf@[out_base + j] == unpack_byte(e, k as int, j),
            forall|j: int| out_base + i <= j < orig.len() ==> buf@[j] == adj[j],
            forall|j: int| 0 <= j < out_base ==> buf@[j] == orig[j],
        decreases k - i,
    {
        let ghost before = buf@;
        buf[out_base + i] = buf[in_base + i] << (i + 1) | buf[in_base + i + 1] >> (6 - i);
        proof {
            assert(before[in_base + i] == e[i as int]);
            assert forall|j: int| 0 <= j < i + 1 implies #[trigger] buf@[out_base + j]
                == unpack_byte(e, k as int, j) by {
                if j < i {
                    assert(buf@[out_base + j] == before[out_base + j]);
                }
            }
        }
        i += 1;
    }
}

/// Turns the packed form of `raw_len` bytes into those bytes, at the start of the buffer.
fn unpack_in_place(buf: &mut [u8], raw_len: usize)
    requires
        old(buf)@.len() == packed_len(raw_len as nat),
    ensures
        final(buf)@.len() == old(buf)@.len(),
        raw_len <= final(buf)@.len(),
        final(buf)@.take(raw_len as int) == unpack(old(buf)@, raw_len as nat),
{
    let ghost orig = buf@;
    let len = buf.len();
    let mut in_base: usize = 0;
    let mut out_base: usize = 0;
    proof {
        assert(orig.skip(0) =~= orig);
        assert(buf@.take(0) + unpack(orig, raw_len as nat) =~= unpack(orig, raw_len as nat));
    }
    while raw_len - out_base >= 7
        invariant
            out_base <= raw_len,
            out_base % 7 == 0,
            in_base == 8 * (out_base / 7),
            orig.len() == packed_len(raw_len as nat) == len,
            buf@.len() == orig.len(),
            forall|j: int| in_base <= j < orig.len() ==> buf@[j] == orig[j],
            buf@.take(out_base as int) + unpack(
                orig.skip(in_base as int),
                (raw_len - out_base) as nat,
            ) == unpack(orig, raw_len as nat),
        decreases raw_len - out_base,
    {
        let ghost before = buf@;
        let ghost rest = orig.skip(in_base as int);
        let ghost left = (raw_len - out_base) as nat;
        unpack_group_in_place(buf, in_base, out_base, 7);
        proof {
            let group = unpack_group(rest.take(8), 7);
            assert(before.subrange(in_base as int, in_base + 8) =~= rest.take(8));
            assert(buf@.take(out_base + 7) =~= before.take(out_base as int) + group) by {
                assert forall|j: int| 0 <= j < out_base + 7 implies buf@.take(out_base + 7)[j] == (
                before.take(out_base as int) + group)[j] by {
                    if j >= out_base {
                        assert(buf@[out_base + (j - out_base)] == unpack_byte(
                            rest.take(8),
                            7,
                            j - out_base,
                        ));
                    }
                }
            }
            if left > 7 {
                assert(rest.skip(8) =~= orig.skip(in_base + 8));
            } else {
                assert(unpack_group(rest, 7) =~= group);
                assert(unpack(orig.skip(in_base + 8), 0) =~= Seq::<u8>::empty());
            }
            assert(before.take(out_base as int) + group + unpack(
                orig.skip(in_base + 8),
                (left - 7) as nat,
            ) =~= before.take(out_base as int) + unpack(rest, left));
        }
        in_base += 8;
        out_base += 7;
    }
    let remainder = raw_len - out_base;
    if remainder > 0 {
        let ghost before = buf@;
        let ghost rest = orig.skip(in_base as int);
        unpack_group_in_place(buf, in_base, out_base, remainder);
        proof {
            let group = unpack_group(rest, remainder as int);
            assert(before.subrange(in_base as int, in_base + remainder + 1) =~= rest);
            assert(buf@.take(raw_len as int) =~= before.take(out_base as int) + group) by {
                assert forall|j: int| 0 <= j < raw_len implies buf@.take(raw_len as int)[j] == (
                before.take(out_base as int) + group)[j] by {
                    if j >= out_base {
                        assert(buf@[out_base + (j - out_base)] == unpack_byte(
                            rest,
                            remainder as int,
                            j - out_base,
                        ));
                    }
                }
            }
        }
    } else {
        proof {
            assert(buf@.take(out_base as int) + Seq::<u8>::empty() =~= buf@.take(raw_len as int));
        }
    }
}

/// The number that big-endian bytes stand for.
fn from_be_bytes(bytes: &[u8]) -> (r: u128)
    ensures
        r == be_value(bytes@),
{
    let mut acc: u128 = 0;
    let mut i: usize = 0;
    proof {
        assert(bytes@.take(0) =~= Seq::<u8>::empty());
    }
    while i < bytes.len()
        invariant
            i <= bytes@.len(),
            acc == be_value(bytes@.take(i as int)),
        decreases bytes@.len() - i,
    {
        proof {
            assert(bytes@.take(i + 1).drop_last() =~= bytes@.take(i as int));
        }
        acc = acc << 8 | bytes[i] as u128;
        i += 1;
    }
    proof {
        assert(bytes@.take(i as int) =~= bytes@);
    }
    acc
}

/// A structure that deserializes Smile into values.
pub struct Deserializer<'de, R> {
    reader: R,
    remaining_depth: u8,
    shared_strings: Option<StringCache<'de>>,
    shared_properties: Option<StringCache<'de>>,
}

impl<'de, R: Read<'de>> View for Deserializer<'de, R> {
    type V = Option<Reader>;

    /// The state of the deserializer, where its source knows its input.
    closed spec fn view(&self) -> Option<Reader> {
        match self.reader.rest() {
            Some(rest) => Some(
                Reader {
                    drains: self.reader.drains(),
                    rest,
                    depth: self.remaining_depth as nat,
                    strings: match self.shared_strings {
                        Some(c) => Some(c@),
                        None => None,
                    },
                    properties: match self.shared_properties {
                        Some(c) => Some(c@),
                        None => None,
                    },
                },
            ),
            None => None,
        }
    }
}

impl<'de> Deserializer<'de, SliceRead<'de>> {
    /// Creates a `Deserializer` from a shared slice.
    ///
    /// Strings and raw binary values can be borrowed from the input slice, but 7-bit encoded
    /// binary data cannot.
    pub fn from_slice(slice: &'de [u8]) -> (r: Result<Self, Error>)
        ensures
            match Reader::open(slice@) {
                Ok(st) => r matches Ok(d) && d.wf() && d@ == Some(st),
                Err(k) => r matches Err(e) && e@ == k,
            },
    {
        Deserializer::new(SliceRead::new(slice))
    }
}

impl<'de> Deserializer<'de, MutSliceRead<'de>> {
    /// Creates a `Deserializer` from a mutable slice.
    ///
    /// All strings and binary values can be borrowed from the input slice. However, the
    /// contents of the slice are unspecified after deserialization.
    pub fn from_mut_slice(slice: &'de mut [u8]) -> (r: Result<Self, Error>)
        ensures
            match Reader::open(old(slice)@) {
                Ok(st) => r matches Ok(d) && d.wf() && d@ == Some(st),
                Err(k) => r matches Err(e) && e@ == k,
            },
    {
        Deserializer::new(MutSliceRead::new(slice))
    }
}

impl<'de, R: Source> Deserializer<'de, IoRead<R>> {
    /// Creates a `Deserializer` from a buffered stream.
    ///
    /// No strings or binary data can be borrowed from the input.
    pub fn from_reader(reader: R) -> (r: Result<Self, Error>)
        ensures
            r matches Ok(d) ==> d.wf() && (reader.pending() is None ==> d@ is None),
            r matches Err(e) ==> e@ is Io || e@ is EofWhileParsingHeader || e@ is InvalidHeader
                || e@ is UnsupportedVersion,
            reader.pending() matches Some(input) ==> match Reader::open(input) {
                Ok(st) => r matches Ok(d) && d@ == Some(st.draining()),
                Err(k) => r matches Err(e) && e@ == k,
            },
    {
        let reader = IoRead::new(reader);
        proof {
            reader.lemma_stream();
        }
        Deserializer::new(reader)
    }
}

impl<'de, R: Read<'de>> Deserializer<'de, R> {
    /// The invariant of the deserializer.
    pub closed spec fn wf(&self) -> bool {
        self.reader.wf() && self.remaining_depth <= 128
    }

    /// The source of the deserializer.
    pub closed spec fn source(self) -> R {
        self.reader
    }

    /// The depth of nesting that is left.
    pub closed spec fn depth(&self) -> nat {
        self.remaining_depth as nat
    }

    /// The state speaks of the source: what is still to be read is what the source has still
    /// to give, and the state is that of a source that is read to its end where the source is
    /// one.
    pub proof fn lemma_source(&self)
        ensures
            self@ matches Some(st) ==> self.source().rest() == Some(st.rest) && self.source().drains()
                == st.drains,
            self@ is None ==> self.source().rest() is None,
    {
    }

    /// The state holds the depth that is left, and no more than a deserializer starts with.
    pub proof fn lemma_depth(&self)
        ensures
            self@ matches Some(st) ==> st.depth == self.depth(),
            self.wf() ==> self.depth() <= 128,
    {
    }

    /// Creates a new `Deserializer` from one of the possible input sources: reads the header
    /// and sets the deserializer up as it says.
    ///
    /// The [`Self::from_slice`], [`Self::from_mut_slice`], and [`Self::from_reader`]
    /// constructors should generally be preferred to this.
    pub fn new(reader: R) -> (r: Result<Self, Error>)
        requires
            reader.wf(),
        ensures
            r matches Ok(d) ==> d.wf() && (reader.rest() is None ==> d@ is None),
            r matches Err(e) ==> e@ is Io || e@ is EofWhileParsingHeader || e@ is InvalidHeader
                || e@ is UnsupportedVersion,
            reader.rest() matches Some(input) ==> match Reader::open(input) {
                Ok(st) => r matches Ok(d) && d@ == Some(Reader { drains: reader.drains(), ..st }),
                Err(k) => r matches Err(e) && e@ == k,
            },
    {
        let mut reader = reader;
        let info = {
            let header = match reader.read(4)? {
                Some(header) => header,
                None => return Err(Error::eof_while_parsing_header()),
            };
            let header = header.deref();
            if header[0] != 0x3a || header[1] != 0x29 || header[2] != 0x0a {
                return Err(Error::invalid_header());
            }
            header[3]
        };
        proof {
            crate::wire::header::lemma_flag_bits(info);
        }
        if info & 0xf0 != 0 {
            return Err(Error::unsupported_version());
        }
        Ok(
            Deserializer {
                reader,
                remaining_depth: 128,
                shared_strings: if info & 0x02 != 0 {
                    Some(StringCache::new())
                } else {
                    None
                },
                shared_properties: if info & 0x01 != 0 {
                    Some(StringCache::new())
                } else {
                    None
                },
            },
        )
    }

    /// Returns a shared reference to the inner reader.
    pub fn get_ref(&self) -> (r: &R)
        ensures
            *r == self.source(),
    {
        &self.reader
    }

    /// Returns a mutable reference to the inner reader.
    pub fn get_mut(&mut self) -> (r: &mut R)
        ensures
            *r == old(self).source(),
            final(self).source() == *final(r),
    {
        &mut self.reader
    }

    /// Consumes the `Deserializer`, returning the inner reader.
    pub fn into_inner(self) -> (r: R)
        ensures
            r == self.source(),
    {
        self.reader
    }

    /// Validates that all Smile data has been consumed from the input.
    ///
    /// Both the Smile end-of-stream token and an actual end of the input are considered valid
    /// ends.
    pub fn end(&mut self) -> (r: Result<(), Error>)
        requires
            old(self).wf(),
        ensures
            final(self).wf(),
            r matches Err(e) ==> e@ is Io || of_format(e@),
            final(self).depth() == old(self).depth(),
            old(self)@ is None ==> final(self)@ is None,
            old(self)@ matches Some(st) ==> match st.end() {
                Ok(st2) => r is Ok && final(self)@ == Some(st2),
                Err((k, sf)) => r matches Err(e) && e@ == k && final(self)@ == Some(sf),
            },
    {
        match self.reader.next()? {
            Some(0xff) => Ok(()),
            Some(_) => Err(Error::trailing_data()),
            None => Ok(()),
        }
    }

    /// Takes the next byte of a value.
    pub fn parse_u8(&mut self) -> (r: Result<u8, Error>)
        requires
            old(self).wf(),
        ensures
            final(self).wf(),
            r matches Err(e) ==> e@ is Io || of_format(e@),
            final(self).depth() == old(self).depth(),
            old(self)@ is None ==> final(self)@ is None,
            old(self)@ matches Some(st) ==> match st.byte() {
                Ok((b, st2)) => r matches Ok(x) && x == b && final(self)@ == Some(st2),
                Err((k, sf)) => r matches Err(e) && e@ == k && final(self)@ == Some(sf),
            },
    {
        match self.reader.next()? {
            Some(b) => Ok(b),
            None => Err(Error::eof_while_parsing_value()),
        }
    }

    /// Reads a VInt of at most `byte_limit` bytes.
    pub fn parse_vint(&mut self, byte_limit: usize) -> (r: Result<u64, Error>)
        requires
            old(self).wf(),
        ensures
            final(self).wf(),
            r matches Err(e) ==> e@ is Io || of_format(e@),
            final(self).depth() == old(self).depth(),
            old(self)@ is None ==> final(self)@ is None,
            old(self)@ matches Some(st) ==> match st.vint(byte_limit as nat) {
                Ok((v, st2)) => r matches Ok(x) && x == v && final(self)@ == Some(st2),
                Err((k, sf)) => r matches Err(e) && e@ == k && final(self)@ == Some(sf),
            },
    {
        let mut value: u64 = 0;
        let mut i: usize = 0;
        proof {
            if old(self)@ is Some {
                assert(old(self)@->0.skip(0) =~= old(self)@->0) by {
                    assert(old(self)@->0.rest.skip(0) =~= old(self)@->0.rest);
                }
            }
        }
        while i < byte_limit
            invariant
                self.wf(),
                self.depth() == old(self).depth(),
                i <= byte_limit,
                old(self)@ is None ==> self@ is None,
                old(self)@ matches Some(st) ==> self@ == Some(st.skip(i as int)) && i
                    <= st.rest.len() && vint::scan(st.rest, byte_limit as nat, i as nat, value)
                    == vint::decode(st.rest, byte_limit as nat),
            decreases byte_limit - i,
        {
            let byte = self.parse_u8()?;
            let end = byte & 0x80 != 0;
            proof {
                if old(self)@ is Some {
                    let st = old(self)@->0;
                    assert(st.rest.skip(i as int).skip(1) =~= st.rest.skip(i + 1));
                    assert(st.rest.skip(i as int)[0] == st.rest[i as int]);
                }
            }
            if end {
                value = value << 6 | byte as u64 & 0x7f;
                return Ok(value);
            } else {
                value = value << 7 | byte as u64 & 0x7f;
            }
            i += 1;
        }
        Err(Error::unterminated_vint())
    }

    /// Reads a 32-bit integer behind its lead byte.
    pub fn parse_i32(&mut self) -> (r: Result<i32, Error>)
        requires
            old(self).wf(),
        ensures
            final(self).wf(),
            r matches Err(e) ==> e@ is Io || of_format(e@),
            final(self).depth() == old(self).depth(),
            old(self)@ is None ==> final(self)@ is None,
            old(self)@ matches Some(st) ==> match st.int32() {
                Ok((v, st2)) => r matches Ok(x) && x == v && final(self)@ == Some(st2),
                Err((k, sf)) => r matches Err(e) && e@ == k && final(self)@ == Some(sf),
            },
    {
        let vint = #[verifier::truncate] (self.parse_vint(5)? as u32);
        Ok(zigzag_i32(vint))
    }

    /// Reads a 64-bit integer behind its lead byte.
    pub fn parse_i64(&mut self) -> (r: Result<i64, Error>)
        requires
            old(self).wf(),
        ensures
            final(self).wf(),
            r matches Err(e) ==> e@ is Io || of_format(e@),
            final(self).depth() == old(self).depth(),
            old(self)@ is None ==> final(self)@ is None,
            old(self)@ matches Some(st) ==> match st.int64() {
                Ok((v, st2)) => r matches Ok(x) && x == v && final(self)@ == Some(st2),
                Err((k, sf)) => r matches Err(e) && e@ == k && final(self)@ == Some(sf),
            },
    {
        let vint = self.parse_vint(10)?;
        Ok(zigzag_i64(vint))
    }

    /// Steps over the next byte where it is `token`, and says whether it was.
    pub fn accept(&mut self, token: u8) -> (r: Result<bool, Error>)
        requires
            old(self).wf(),
        ensures
            final(self).wf(),
            r matches Err(e) ==> e@ is Io,
            final(self).depth() == old(self).depth(),
            old(self)@ is None ==> final(self)@ is None,
            old(self)@ matches Some(st) ==> r matches Ok(found) && found == (st.rest.len() > 0
                && st.rest[0] == token) && final(self)@ == Some(
                if found {
                    st.skip(1)
                } else {
                    st
                },
            ),
    {
        match self.reader.peek()? {
            Some(b) => {
                if b == token {
                    self.reader.consume();
                    Ok(true)
                } else {
                    Ok(false)
                }
            },
            None => Ok(false),
        }
    }

    /// Says whether the input has ended.
    pub fn at_end(&mut self) -> (r: Result<bool, Error>)
        requires
            old(self).wf(),
        ensures
            final(self).wf(),
            r matches Err(e) ==> e@ is Io,
            final(self).depth() == old(self).depth(),
            final(self)@ == old(self)@,
            old(self)@ matches Some(st) ==> r matches Ok(ended) && ended == (st.rest.len() == 0),
    {
        match self.reader.peek()? {
            Some(_) => Ok(false),
            None => Ok(true),
        }
    }

    /// Looks for an absent value: steps over a null and says that nothing is there, or leaves
    /// the value in place and says that it is there.
    pub fn deserialize_option(&mut self) -> (r: Result<bool, Error>)
        requires
            old(self).wf(),
        ensures
            final(self).wf(),
            r matches Err(e) ==> e@ is Io,
            final(self).depth() == old(self).depth(),
            old(self)@ is None ==> final(self)@ is None,
            old(self)@ matches Some(st) ==> r matches Ok(present) && present == !(st.rest.len() > 0
                && st.rest[0] == 0x21) && final(self)@ == Some(
                if present {
                    st
                } else {
                    st.skip(1)
                },
            ),
    {
        Ok(!self.accept(0x21)?)
    }

    /// Looks at how a variant is written: as a map of one entry, which is then entered, or as
    /// a value that names it, which is left in place.
    pub fn deserialize_enum(&mut self) -> (r: Result<bool, Error>)
        requires
            old(self).wf(),
        ensures
            final(self).wf(),
            r matches Err(e) ==> e@ is Io || of_format(e@),
            old(self)@ is None ==> final(self)@ is None,
            old(self)@ matches Some(st) ==> if st.rest.len() == 0 {
                r matches Err(e) && e@ == crate::error::ErrorKind::EofWhileParsingValue && final(self)@ == Some(st)
            } else if st.rest[0] == 0xfa {
                match st.skip(1).enter() {
                    Ok(st2) => r matches Ok(entered) && entered && final(self)@ == Some(st2),
                    Err((k, sf)) => r matches Err(e) && e@ == k && final(self)@ == Some(sf),
                }
            } else {
                r matches Ok(entered) && !entered && final(self)@ == Some(st)
            },
    {
        if self.accept(0xfa)? {
            self.recursion_checked()?;
            Ok(true)
        } else if self.at_end()? {
            Err(Error::eof_while_parsing_value())
        } else {
            Ok(false)
        }
    }

    /// Reads a big number where a structure of one of the two reserved names is asked for and
    /// the token of that big number stands next: the bytes of a big integer, whatever its
    /// size, or the scale and the bytes of a big decimal. Leaves anything else in place.
    pub fn deserialize_struct<'a>(&'a mut self, name: &str, fields: &[&str]) -> (r: Result<
        Option<Event<'a, 'de>>,
        Error,
    >)
        requires
            old(self).wf(),
        ensures
            final(self).wf(),
            r matches Err(e) ==> e@ is Io || of_format(e@),
            final(self).depth() == old(self).depth(),
            old(self)@ is None ==> final(self)@ is None,
            old(self)@ matches Some(st) ==> if wants_big_integer(name@, fields@) && st.rest.len()
                > 0 && st.rest[0] == 0x26 {
                match st.skip(1).packed() {
                    Ok((b, st2)) => r matches Ok(Some(ev)) && ev@ == Item::BigInteger(b) && final(self)@ == Some(st2),
                    Err((k, sf)) => r matches Err(e) && e@ == k && final(self)@ == Some(sf),
                }
            } else if wants_big_decimal(name@, fields@) && st.rest.len() > 0 && st.rest[0]
                == 0x2a {
                match st.skip(1).big_decimal() {
                    Ok((v, st2)) => r matches Ok(Some(ev)) && ev@ == v && final(self)@ == Some(st2),
                    Err((k, sf)) => r matches Err(e) && e@ == k && final(self)@ == Some(sf),
                }
            } else {
                r matches Ok(None) && final(self)@ == Some(st)
            },
    {
        if same_text(name, BigInteger::STRUCT_NAME) && fields.len() == 1 && same_text(
            fields[0],
            BigInteger::FIELD_NAME,
        ) {
            if self.accept(0x26)? {
                let buf = self.parse_7_bit_binary()?;
                return Ok(Some(Event::BigInteger(buf)));
            }
        }
        if same_text(name, BigDecimal::STRUCT_NAME) && fields.len() == 2 && same_text(
            fields[0],
            BigDecimal::SCALE_FIELD_NAME,
        ) && same_text(fields[1], BigDecimal::VALUE_FIELD_NAME) {
            if self.accept(0x2a)? {
                return Ok(Some(self.parse_big_decimal()?));
            }
        }
        Ok(None)
    }

    /// The format is binary.
    pub fn is_human_readable(&self) -> (r: bool)
        ensures
            !r,
    {
        false
    }

    /// Goes one level down, if the limit of nesting allows it.
    pub fn recursion_checked(&mut self) -> (r: Result<(), Error>)
        requires
            old(self).wf(),
        ensures
            final(self).wf(),
            r matches Err(e) ==> e@ is Io || of_format(e@),
            final(self).depth() == if r is Ok {
                old(self).depth() - 1
            } else {
                old(self).depth() as int
            },
            old(self)@ is None ==> final(self)@ is None,
            old(self)@ matches Some(st) ==> match st.enter() {
                Ok(st2) => r is Ok && final(self)@ == Some(st2),
                Err((k, sf)) => r matches Err(e) && e@ == k && final(self)@ == Some(sf),
            },
    {
        if self.remaining_depth <= 1 {
            return Err(Error::recursion_limit_exceeded());
        }
        self.remaining_depth -= 1;
        Ok(())
    }

    /// Goes one level up again.
    pub fn recursion_done(&mut self)
        requires
            old(self).wf(),
        ensures
            final(self).wf(),
            final(self).depth() == if old(self).depth() < 128 {
                old(self).depth() + 1
            } else {
                old(self).depth()
            },
            old(self)@ is None ==> final(self)@ is None,
            old(self)@ matches Some(st) ==> final(self)@ == Some(st.leave()),
    {
        if self.remaining_depth < 128 {
            self.remaining_depth += 1;
        }
    }

    /// The string value that a back-reference stands for.
    pub fn parse_shared_string<'a>(&'a mut self, reference: u16) -> (r: Result<
        Str<'a, 'de>,
        Error,
    >)
        requires
            old(self).wf(),
        ensures
            final(self).wf(),
            r matches Err(e) ==> e@ is Io || of_format(e@),
            final(self).depth() == old(self).depth(),
            old(self)@ is None ==> final(self)@ is None,
            old(self)@ matches Some(st) ==> match st.shared_string(reference) {
                Ok((v, st2)) => r matches Ok(s) && s@ == v && final(self)@ == Some(st2),
                Err((k, sf)) => r matches Err(e) && e@ == k && final(self)@ == Some(sf),
            },
    {
        let s = match &self.shared_strings {
            Some(c) => match c.get(reference) {
                Some(s) => s,
                None => return Err(Error::invalid_string_reference()),
            },
            None => return Err(Error::invalid_string_reference()),
        };
        match s {
            Cow::Borrowed(s) => Ok(Str::Long(*s)),
            Cow::Owned(s) => Ok(Str::Short(s.as_str())),
        }
    }

    /// Reads binary data that is packed into seven bits, behind its length, and unpacks it: in
    /// place where the source allows that.
    pub fn parse_7_bit_binary<'a>(&'a mut self) -> (r: Result<Buf<'a, 'de>, Error>)
        requires
            old(self).wf(),
        ensures
            final(self).wf(),
            r matches Err(e) ==> e@ is Io || of_format(e@),
            final(self).depth() == old(self).depth(),
            old(self)@ is None ==> final(self)@ is None,
            old(self)@ matches Some(st) ==> match st.packed() {
                Ok((v, st2)) => r matches Ok(b) && b@ == v && final(self)@ == Some(st2),
                Err((k, sf)) => r matches Err(e) && e@ == k && final(self)@ == Some(sf),
            },
    {
        let raw_len = self.parse_vint(10)?;
        let chunks = raw_len / 7;
        let remainder = raw_len % 7;
        let encoded_remainder = if remainder == 0 { 0 } else { remainder + 1 };
        let encoded_len = match chunks.checked_mul(8) {
            Some(v) => match v.checked_add(encoded_remainder) {
                Some(v) => {
                    if v <= usize::MAX as u64 {
                        v as usize
                    } else {
                        return Err(Error::buffer_length_overflow());
                    }
                },
                None => return Err(Error::buffer_length_overflow()),
            },
            None => return Err(Error::buffer_length_overflow()),
        };
        let mut buf = match self.reader.read_mut(encoded_len)? {
            Some(buf) => buf,
            None => return Err(Error::eof_while_parsing_value()),
        };
        unpack_in_place(buf.deref_mut(), raw_len as usize);
        let out = match buf {
            MutBuf::Short(buf) => Buf::Short(slice_subrange(buf, 0, raw_len as usize)),
            MutBuf::Long(buf) => Buf::Long(slice_subrange(buf, 0, raw_len as usize)),
        };
        Ok(out)
    }

    /// Reads a big integer behind its lead byte. One that fits a machine integer of 64 or 128
    /// bits is given as that; a longer one, and one of no bytes, as its bytes.
    pub fn parse_big_integer<'a>(&'a mut self) -> (r: Result<Event<'a, 'de>, Error>)
        requires
            old(self).wf(),
        ensures
            final(self).wf(),
            r matches Err(e) ==> e@ is Io || of_format(e@),
            r matches Ok(ev) ==> !(ev is SeqStart) && !(ev is MapStart),
            final(self).depth() == old(self).depth(),
            old(self)@ is None ==> final(self)@ is None,
            old(self)@ matches Some(st) ==> match st.big_integer() {
                Ok((v, st2)) => r matches Ok(ev) && ev@ == v && final(self)@ == Some(st2),
                Err((k, sf)) => r matches Err(e) && e@ == k && final(self)@ == Some(sf),
            },
    {
        let ghost st = old(self)@;
        let remaining_depth = self.remaining_depth;
        let buf = self.parse_7_bit_binary()?;
        let bytes = buf.deref();
        let len = bytes.len();
        if len == 0 {
            return Ok(Event::BigInteger(buf));
        }
        if len <= 8 {
            let mut out: Vec<u8> = Vec::new();
            sign_extend(&mut out, 8 - len, bytes);
            out.extend_from_slice(bytes);
            proof {
                assert(out@ =~= sign_extended(bytes@, 8));
            }
            let v = from_be_bytes(out.as_slice());
            return Ok(Event::I64(#[verifier::truncate] ((#[verifier::truncate] (v as u64)) as i64)));
        }
        if len == 9 && bytes[0] == 0 {
            let v = from_be_bytes(slice_subrange(bytes, 1, 9));
            proof {
                assert(bytes@.subrange(1, 9) =~= bytes@.skip(1));
            }
            return Ok(Event::U64(#[verifier::truncate] (v as u64)));
        }
        if len <= 16 {
            let mut out: Vec<u8> = Vec::new();
            sign_extend(&mut out, 16 - len, bytes);
            out.extend_from_slice(bytes);
            proof {
                assert(out@ =~= sign_extended(bytes@, 16));
            }
            let v = from_be_bytes(out.as_slice());
            return Ok(Event::I128(#[verifier::truncate] (v as i128)));
        }
        if len == 17 && bytes[0] == 0 {
            let v = from_be_bytes(slice_subrange(bytes, 1, 17));
            proof {
                assert(bytes@.subrange(1, 17) =~= bytes@.skip(1));
            }
            return Ok(Event::U128(v));
        }
        Ok(Event::BigInteger(buf))
    }

    /// Reads the bit pattern of a 32-bit floating-point value behind its lead byte.
    pub fn parse_f32(&mut self) -> (r: Result<u32, Error>)
        requires
            old(self).wf(),
        ensures
            final(self).wf(),
            r matches Err(e) ==> e@ is Io || of_format(e@),
            final(self).depth() == old(self).depth(),
            old(self)@ is None ==> final(self)@ is None,
            old(self)@ matches Some(st) ==> match st.take(5) {
                Ok((b, st2)) => r matches Ok(x) && x == float_bits(b) && final(self)@ == Some(st2),
                Err((k, sf)) => r matches Err(e) && e@ == k && final(self)@ == Some(sf),
            },
    {
        let buf = match self.reader.read(5)? {
            Some(buf) => buf,
            None => return Err(Error::eof_while_parsing_value()),
        };
        let buf = buf.deref();
        let raw = (buf[0] as u32) << 28 | (buf[1] as u32) << 21 | (buf[2] as u32) << 14 | (
        buf[3] as u32) << 7 | (buf[4] as u32);
        Ok(raw)
    }

    /// Reads the bit pattern of a 64-bit floating-point value behind its lead byte.
    pub fn parse_f64(&mut self) -> (r: Result<u64, Error>)
        requires
            old(self).wf(),
        ensures
            final(self).wf(),
            r matches Err(e) ==> e@ is Io || of_format(e@),
            final(self).depth() == old(self).depth(),
            old(self)@ is None ==> final(self)@ is None,
            old(self)@ matches Some(st) ==> match st.take(10) {
                Ok((b, st2)) => r matches Ok(x) && x == double_bits(b) && final(self)@ == Some(st2),
                Err((k, sf)) => r matches Err(e) && e@ == k && final(self)@ == Some(sf),
            },
    {
        let buf = match self.reader.read(10)? {
            Some(buf) => buf,
            None => return Err(Error::eof_while_parsing_value()),
        };
        let buf = buf.deref();
        let raw = (buf[0] as u64) << 63 | (buf[1] as u64) << 56 | (buf[2] as u64) << 49 | (
        buf[3] as u64) << 42 | (buf[4] as u64) << 35 | (buf[5] as u64) << 28 | (buf[6] as u64)
            << 21 | (buf[7] as u64) << 14 | (buf[8] as u64) << 7 | (buf[9] as u64);
        Ok(raw)
    }

    /// Reads a big decimal behind its lead byte: its scale and the bytes of its unscaled
    /// value.
    pub fn parse_big_decimal<'a>(&'a mut self) -> (r: Result<Event<'a, 'de>, Error>)
        requires
            old(self).wf(),
        ensures
            final(self).wf(),
            r matches Err(e) ==> e@ is Io || of_format(e@),
            r matches Ok(ev) ==> !(ev is SeqStart) && !(ev is MapStart),
            final(self).depth() == old(self).depth(),
            old(self)@ is None ==> final(self)@ is None,
            old(self)@ matches Some(st) ==> match st.big_decimal() {
                Ok((v, st2)) => r matches Ok(ev) && ev@ == v && final(self)@ == Some(st2),
                Err((k, sf)) => r matches Err(e) && e@ == k && final(self)@ == Some(sf),
            },
    {
        let scale = self.parse_i32()?;
        let buf = self.parse_7_bit_binary()?;
        Ok(Event::BigDecimal(scale, buf))
    }

    /// Reads a string value of `len` bytes behind its lead byte. The cache of string values
    /// takes it in where it is not longer than 64 bytes. A slice hands out the input itself, a
    /// stream a buffer of its own.
    pub fn parse_short_string<'a>(&'a mut self, len: usize) -> (r: Result<Str<'a, 'de>, Error>)
        requires
            old(self).wf(),
        ensures
            final(self).wf(),
            r matches Err(e) ==> e@ is Io || of_format(e@),
            final(self).depth() == old(self).depth(),
            old(self)@ is None ==> final(self)@ is None,
            old(self)@ matches Some(st) ==> match st.short_string(len as nat) {
                Ok((v, st2)) => r matches Ok(s) && s@ == v && final(self)@ == Some(st2),
                Err((k, sf)) => r matches Err(e) && e@ == k && final(self)@ == Some(sf),
            },
            old(self)@ matches Some(st) ==> (r matches Ok(s) ==> (s is Short <==> st.drains)),
    {
        let buf = match self.reader.read(len)? {
            Some(buf) => buf,
            None => return Err(Error::eof_while_parsing_value()),
        };
        match buf {
            Buf::Short(buf) => {
                let s = match from_utf8(buf) {
                    Some(s) => s,
                    None => return Err(Error::invalid_utf8()),
                };
                if let Some(shared_strings) = &mut self.shared_strings {
                    if buf.len() <= 64 {
                        shared_strings.intern(Cow::Owned(s.to_owned()));
                    }
                }
                Ok(Str::Short(s))
            },
            Buf::Long(buf) => {
                let s = match from_utf8(buf) {
                    Some(s) => s,
                    None => return Err(Error::invalid_utf8()),
                };
                if let Some(shared_strings) = &mut self.shared_strings {
                    if buf.len() <= 64 {
                        shared_strings.intern(Cow::Borrowed(s));
                    }
                }
                Ok(Str::Long(s))
            },
        }
    }

    /// Reads a string value between its lead byte and the end mark. The cache of string
    /// values takes it in where it is not longer than 64 bytes. A slice hands out the input
    /// itself, a stream a buffer of its own.
    pub fn parse_long_string<'a>(&'a mut self) -> (r: Result<Str<'a, 'de>, Error>)
        requires
            old(self).wf(),
        ensures
            final(self).wf(),
            r matches Err(e) ==> e@ is Io || of_format(e@),
            final(self).depth() == old(self).depth(),
            old(self)@ is None ==> final(self)@ is None,
            old(self)@ matches Some(st) ==> match st.long_string() {
                Ok((v, st2)) => r matches Ok(s) && s@ == v && final(self)@ == Some(st2),
                Err((k, sf)) => r matches Err(e) && e@ == k && final(self)@ == Some(sf),
            },
            old(self)@ matches Some(st) ==> (r matches Ok(s) ==> (s is Short <==> st.drains)),
    {
        let buf = match self.reader.read_until(0xfc)? {
            Some(buf) => buf,
            None => return Err(Error::eof_while_parsing_value()),
        };
        match buf {
            Buf::Short(buf) => {
                let s = match from_utf8(buf) {
                    Some(s) => s,
                    None => return Err(Error::invalid_utf8()),
                };
                if let Some(shared_strings) = &mut self.shared_strings {
                    if buf.len() <= 64 {
                        shared_strings.intern(Cow::Owned(s.to_owned()));
                    }
                }
                Ok(Str::Short(s))
            },
            Buf::Long(buf) => {
                let s = match from_utf8(buf) {
                    Some(s) => s,
                    None => return Err(Error::invalid_utf8()),
                };
                if let Some(shared_strings) = &mut self.shared_strings {
                    if buf.len() <= 64 {
                        shared_strings.intern(Cow::Borrowed(s));
                    }
                }
                Ok(Str::Long(s))
            },
        }
    }

    /// Reads binary data that is packed into seven bits, behind its lead byte.
    pub fn parse_binary<'a>(&'a mut self) -> (r: Result<Buf<'a, 'de>, Error>)
        requires
            old(self).wf(),
        ensures
            final(self).wf(),
            r matches Err(e) ==> e@ is Io || of_format(e@),
            final(self).depth() == old(self).depth(),
            old(self)@ is None ==> final(self)@ is None,
            old(self)@ matches Some(st) ==> match st.packed() {
                Ok((v, st2)) => r matches Ok(b) && b@ == v && final(self)@ == Some(st2),
                Err((k, sf)) => r matches Err(e) && e@ == k && final(self)@ == Some(sf),
            },
    {
        self.parse_7_bit_binary()
    }

    /// Reads the string value that a back-reference of two bytes stands for, behind its lead
    /// byte.
    pub fn parse_long_shared_string<'a>(&'a mut self, reference_hi: u8) -> (r: Result<
        Str<'a, 'de>,
        Error,
    >)
        requires
            old(self).wf(),
        ensures
            final(self).wf(),
            r matches Err(e) ==> e@ is Io || of_format(e@),
            final(self).depth() == old(self).depth(),
            old(self)@ is None ==> final(self)@ is None,
            old(self)@ matches Some(st) ==> match st.long_shared_string(reference_hi) {
                Ok((v, st2)) => r matches Ok(s) && s@ == v && final(self)@ == Some(st2),
                Err((k, sf)) => r matches Err(e) && e@ == k && final(self)@ == Some(sf),
            },
    {
        let reference_lo = self.parse_u8()?;
        let reference = (reference_hi as u16) << 8 | reference_lo as u16;
        self.parse_shared_string(reference)
    }

    /// Enters a sequence, behind its lead byte.
    pub fn parse_array(&mut self) -> (r: Result<(), Error>)
        requires
            old(self).wf(),
        ensures
            final(self).wf(),
            r matches Err(e) ==> e@ is Io || of_format(e@),
            final(self).depth() == if r is Ok {
                old(self).depth() - 1
            } else {
                old(self).depth() as int
            },
            old(self)@ is None ==> final(self)@ is None,
            old(self)@ matches Some(st) ==> match st.enter() {
                Ok(st2) => r is Ok && final(self)@ == Some(st2),
                Err((k, sf)) => r matches Err(e) && e@ == k && final(self)@ == Some(sf),
            },
    {
        self.recursion_checked()
    }

    /// Leaves a sequence: its end mark has to stand next.
    pub fn end_array(&mut self) -> (r: Result<(), Error>)
        requires
            old(self).wf(),
        ensures
            final(self).wf(),
            r matches Err(e) ==> e@ is Io || of_format(e@),
            final(self).depth() == if old(self).depth() < 128 {
                old(self).depth() + 1
            } else {
                old(self).depth()
            },
            old(self)@ is None ==> final(self)@ is None,
            old(self)@ matches Some(st) ==> match st.end_array() {
                Ok(st2) => r is Ok && final(self)@ == Some(st2),
                Err((k, sf)) => r matches Err(e) && e@ == k && final(self)@ == Some(sf),
            },
    {
        let next = self.reader.next();
        self.recursion_done();
        match next? {
            Some(0xf9) => Ok(()),
            Some(_) => Err(Error::trailing_data()),
            None => Err(Error::eof_while_parsing_array()),
        }
    }

    /// Enters a map, behind its lead byte.
    pub fn parse_map(&mut self) -> (r: Result<(), Error>)
        requires
            old(self).wf(),
        ensures
            final(self).wf(),
            r matches Err(e) ==> e@ is Io || of_format(e@),
            final(self).depth() == if r is Ok {
                old(self).depth() - 1
            } else {
                old(self).depth() as int
            },
            old(self)@ is None ==> final(self)@ is None,
            old(self)@ matches Some(st) ==> match st.enter() {
                Ok(st2) => r is Ok && final(self)@ == Some(st2),
                Err((k, sf)) => r matches Err(e) && e@ == k && final(self)@ == Some(sf),
            },
    {
        self.recursion_checked()
    }

    /// Leaves a map: its end mark has to stand next.
    pub fn end_map(&mut self) -> (r: Result<(), Error>)
        requires
            old(self).wf(),
        ensures
            final(self).wf(),
            r matches Err(e) ==> e@ is Io || of_format(e@),
            final(self).depth() == if old(self).depth() < 128 {
                old(self).depth() + 1
            } else {
                old(self).depth()
            },
            old(self)@ is None ==> final(self)@ is None,
            old(self)@ matches Some(st) ==> match st.end_map() {
                Ok(st2) => r is Ok && final(self)@ == Some(st2),
                Err((k, sf)) => r matches Err(e) && e@ == k && final(self)@ == Some(sf),
            },
    {
        let next = self.reader.next();
        self.recursion_done();
        match next? {
            Some(0xfb) => Ok(()),
            Some(_) => Err(Error::trailing_data()),
            None => Err(Error::eof_while_parsing_map()),
        }
    }

    /// Says whether an element follows in a sequence, and not its end mark.
    pub fn next_element(&mut self) -> (r: Result<bool, Error>)
        requires
            old(self).wf(),
        ensures
            final(self).wf(),
            r matches Err(e) ==> e@ is Io || of_format(e@),
            final(self).depth() == old(self).depth(),
            final(self)@ == old(self)@,
            old(self)@ matches Some(st) ==> match st.element() {
                Ok(more) => r matches Ok(x) && x == more,
                Err(k) => r matches Err(e) && e@ == k,
            },
    {
        match self.reader.peek()? {
            Some(0xf9) => Ok(false),
            Some(_) => Ok(true),
            None => Err(Error::eof_while_parsing_array()),
        }
    }

    /// Says whether an entry follows in a map, and not its end mark.
    pub fn next_key(&mut self) -> (r: Result<bool, Error>)
        requires
            old(self).wf(),
        ensures
            final(self).wf(),
            r matches Err(e) ==> e@ is Io || of_format(e@),
            final(self).depth() == old(self).depth(),
            final(self)@ == old(self)@,
            old(self)@ matches Some(st) ==> match st.entry() {
                Ok(more) => r matches Ok(x) && x == more,
                Err(k) => r matches Err(e) && e@ == k,
            },
    {
        match self.reader.peek()? {
            Some(0xfb) => Ok(false),
            Some(_) => Ok(true),
            None => Err(Error::eof_while_parsing_map()),
        }
    }

    /// Reads raw binary data behind its lead byte. A slice hands out the input itself, a
    /// stream a buffer of its own.
    pub fn parse_raw_binary<'a>(&'a mut self) -> (r: Result<Buf<'a, 'de>, Error>)
        requires
            old(self).wf(),
        ensures
            final(self).wf(),
            r matches Err(e) ==> e@ is Io || of_format(e@),
            final(self).depth() == old(self).depth(),
            old(self)@ is None ==> final(self)@ is None,
            old(self)@ matches Some(st) ==> match st.raw() {
                Ok((v, st2)) => r matches Ok(b) && b@ == v && final(self)@ == Some(st2),
                Err((k, sf)) => r matches Err(e) && e@ == k && final(self)@ == Some(sf),
            },
            old(self)@ matches Some(st) ==> (r matches Ok(b) ==> (b is Short <==> st.drains)),
    {
        let len = self.parse_vint(10)?;
        if len > usize::MAX as u64 {
            return Err(Error::buffer_length_overflow());
        }
        let len = len as usize;
        match self.reader.read(len)? {
            Some(buf) => Ok(buf),
            None => Err(Error::eof_while_parsing_value()),
        }
    }

    /// Reads one token and gives what it stands for. The elements of a sequence and the
    /// entries of a map follow their start. Where a container is nested too deep, nothing is
    /// read beyond the byte that opens it.
    pub fn parse_value<'a>(&'a mut self) -> (r: Result<Event<'a, 'de>, Error>)
        requires
            old(self).wf(),
        ensures
            final(self).wf(),
            r matches Err(e) ==> e@ is Io || of_format(e@),
            final(self).depth() == if r matches Ok(ev) && (ev is SeqStart || ev is MapStart) {
                old(self).depth() - 1
            } else {
                old(self).depth() as int
            },
            old(self)@ is None ==> final(self)@ is None,
            old(self)@ matches Some(st) ==> match st.value() {
                Ok((v, st2)) => r matches Ok(ev) && ev@ == v && final(self)@ == Some(st2),
                Err((k, sf)) => r matches Err(e) && e@ == k && final(self)@ == Some(sf),
            },
    {
        proof {
            reveal(Reader::value);
        }
        let token = self.parse_u8()?;
        if token == 0x00 {
            Err(Error::reserved_token())
        } else if token <= 0x1f {
            Ok(Event::Str(self.parse_shared_string(token as u16 - 1)?))
        } else if token == 0x20 {
            proof {
                reveal_strlit("");
                assert(""@ =~= Seq::<char>::empty());
            }
            Ok(Event::Str(Str::Long("")))
        } else if token == 0x21 {
            Ok(Event::Null)
        } else if token == 0x22 {
            Ok(Event::Bool(false))
        } else if token == 0x23 {
            Ok(Event::Bool(true))
        } else if token == 0x24 {
            Ok(Event::I32(self.parse_i32()?))
        } else if token == 0x25 {
            Ok(Event::I64(self.parse_i64()?))
        } else if token == 0x26 {
            self.parse_big_integer()
        } else if token == 0x27 {
            Err(Error::reserved_token())
        } else if token == 0x28 {
            Ok(Event::F32(self.parse_f32()?))
        } else if token == 0x29 {
            Ok(Event::F64(self.parse_f64()?))
        } else if token == 0x2a {
            self.parse_big_decimal()
        } else if token <= 0x3f {
            Err(Error::reserved_token())
        } else if token <= 0x5f {
            Ok(Event::Str(self.parse_short_string(token as usize - (0x40 - 1))?))
        } else if token <= 0x7f {
            Ok(Event::Str(self.parse_short_string(token as usize - (0x60 - 33))?))
        } else if token <= 0x9f {
            Ok(Event::Str(self.parse_short_string(token as usize - (0x80 - 2))?))
        } else if token <= 0xbf {
            Ok(Event::Str(self.parse_short_string(token as usize - (0xa0 - 34))?))
        } else if token <= 0xdf {
            Ok(Event::I32(zigzag_i32(token as u32 - 0xc0)))
        } else if token == 0xe0 || token == 0xe4 {
            Ok(Event::Str(self.parse_long_string()?))
        } else if token == 0xe8 {
            Ok(Event::Bytes(self.parse_binary()?))
        } else if token <= 0xeb {
            Err(Error::reserved_token())
        } else if token <= 0xef {
            Ok(Event::Str(self.parse_long_shared_string(token - 0xec)?))
        } else if token <= 0xf7 {
            Err(Error::reserved_token())
        } else if token == 0xf8 {
            self.parse_array()?;
            Ok(Event::SeqStart)
        } else if token == 0xf9 {
            Err(Error::unexpected_token())
        } else if token == 0xfa {
            self.parse_map()?;
            Ok(Event::MapStart)
        } else if token == 0xfb || token == 0xfc {
            Err(Error::unexpected_token())
        } else if token == 0xfd {
            Ok(Event::Bytes(self.parse_raw_binary()?))
        } else if token == 0xfe {
            Err(Error::reserved_token())
        } else {
            Err(Error::eof_while_parsing_value())
        }
    }
}

/// Appends `count` copies of the byte that extends the two's complement `number` to the left.
fn sign_extend(extra: &mut Vec<u8>, count: usize, number: &[u8])
    requires
        number@.len() > 0,
    ensures
        final(extra)@ == old(extra)@ + Seq::new(count as nat, |i: int| sign_byte(number@)),
{
    let extension = if number[0] >= 128 { 0xffu8 } else { 0u8 };
    let mut i: usize = 0;
    proof {
        assert(extra@ =~= old(extra)@ + Seq::new(0, |j: int| sign_byte(number@)));
    }
    while i < count
        invariant
            i <= count,
            extension == sign_byte(number@),
            extra@ == old(extra)@ + Seq::new(i as nat, |j: int| sign_byte(number@)),
        decreases count - i,
    {
        extra.push(extension);
        proof {
            assert(extra@ =~= old(extra)@ + Seq::new((i + 1) as nat, |j: int| sign_byte(number@)));
        }
        i += 1;
    }
}

/// ZigZag unfolding at 32 bits.
#[inline]
pub fn zigzag_i32(v: u32) -> (r: i32)
    ensures
        r == zigzag::unzigzag(v as int),
{
    proof {
        zigzag::lemma_parts(v, 0);
    }
    let low = (v & 1) as i32;
    let mask = -low;
    proof {
        zigzag::lemma_unfold_32(v, mask);
    }
    ((v >> 1) as i32) ^ mask
}

/// ZigZag unfolding at 64 bits.
#[inline]
pub fn zigzag_i64(v: u64) -> (r: i64)
    ensures
        r == zigzag::unzigzag(v as int),
{
    proof {
        zigzag::lemma_parts(0, v);
    }
    let low = (v & 1) as i64;
    let mask = -low;
    proof {
        zigzag::lemma_unfold_64(v, mask);
    }
    ((v >> 1) as i64) ^ mask
}

} // verus!
