//! Serialize into Smile data.
use crate::error::Error;
use crate::value::{BigDecimal, BigInteger, Value};
use crate::wire::encode::{
    big_integer_token, binary_token, double_token, float_token, i128_token, packed, u128_token,
    u64_token, Writer,
};
use crate::wire::header::Features;
use crate::wire::number::{be_bytes, double_septets, float_septets, int_token, long_token};
use crate::wire::septet;
use crate::wire::text::{string_literal, string_reference};
use crate::wire::vint;
use crate::wire::zigzag;
use vstd::prelude::*;
use vstd::slice::slice_subrange;

pub mod compound;
pub mod key_serializer;
pub mod string_cache;

pub use compound::{Compound, Mode};
pub use key_serializer::KeySerializer;
pub use string_cache::StringCache;

verus! {

/// Serializes a value to a Smile byte vector using default serializer settings: the header,
/// and the value.
pub fn to_vec(value: &Value) -> (r: Result<Vec<u8>, Error>)
    ensures
        r matches Ok(bytes) && bytes@ == Writer::new(
            Features { raw_binary: false, shared_strings: false, shared_properties: true },
        ).tree(value@).out,
{
    let mut serializer = Serializer::new(Vec::new());
    proof {
        assert(serializer@ =~= Writer::new(
            Features { raw_binary: false, shared_strings: false, shared_properties: true },
        )) by {
            assert(Seq::<u8>::empty() + Seq::<u8>::empty() =~= Seq::<u8>::empty());
        }
    }
    value.serialize(&mut serializer)?;
    Ok(serializer.into_inner())
}

/// A builder to configure a [`Serializer`].
pub struct Builder {
    raw_binary: bool,
    shared_strings: bool,
    shared_properties: bool,
}

impl View for Builder {
    type V = Features;

    closed spec fn view(&self) -> Features {
        Features {
            raw_binary: self.raw_binary,
            shared_strings: self.shared_strings,
            shared_properties: self.shared_properties,
        }
    }
}

impl Builder {
    /// Enables the transmission of binary data in "raw" form.
    ///
    /// This format is smaller and faster, but framing tokens may then occur inside the encoded
    /// binary data.
    ///
    /// Defaults to `false`.
    pub fn raw_binary(&mut self, raw_binary: bool) -> (r: &mut Self)
        ensures
            r@ == (Features { raw_binary, ..old(self)@ }),
            *final(self) == *final(r),
    {
        self.raw_binary = raw_binary;
        self
    }

    /// Enables deduplication of repeated value strings.
    ///
    /// Defaults to `false`.
    pub fn shared_strings(&mut self, shared_strings: bool) -> (r: &mut Self)
        ensures
            r@ == (Features { shared_strings, ..old(self)@ }),
            *final(self) == *final(r),
    {
        self.shared_strings = shared_strings;
        self
    }

    /// Enables deduplication of repeated map key strings.
    ///
    /// Defaults to `true`.
    pub fn shared_properties(&mut self, shared_properties: bool) -> (r: &mut Self)
        ensures
            r@ == (Features { shared_properties, ..old(self)@ }),
            *final(self) == *final(r),
    {
        self.shared_properties = shared_properties;
        self
    }

    /// Creates a new [`Serializer`], which writes behind what `writer` holds.
    pub fn build(&self, writer: Vec<u8>) -> (r: Serializer)
        ensures
            r@ == Writer::new(self@).write(writer@),
    {
        let mut flags: u8 = 0;
        if self.raw_binary {
            flags += 0x04;
        }
        if self.shared_strings {
            flags += 0x02;
        }
        if self.shared_properties {
            flags += 0x01;
        }
        let header: [u8; 4] = [0x3a, 0x29, 0x0a, flags];
        let r = Serializer {
            writer,
            header: Some(header),
            raw_binary: self.raw_binary,
            shared_strings: if self.shared_strings {
                Some(StringCache::new())
            } else {
                None
            },
            shared_properties: if self.shared_properties {
                Some(StringCache::new())
            } else {
                None
            },
        };
        proof {
            assert(header@ =~= crate::wire::header::header(self@));
            assert(r.writer@ =~= Seq::<u8>::empty() + writer@);
        }
        r
    }
}

/// A structure for serializing values into Smile.
pub struct Serializer {
    writer: Vec<u8>,
    header: Option<[u8; 4]>,
    raw_binary: bool,
    shared_strings: Option<StringCache>,
    shared_properties: Option<StringCache>,
}

impl View for Serializer {
    type V = Writer;

    closed spec fn view(&self) -> Writer {
        Writer {
            out: self.writer@,
            header: match self.header {
                Some(h) => Some(h@),
                None => None,
            },
            raw_binary: self.raw_binary,
            strings: match self.shared_strings {
                Some(c) => Some(c@),
                None => None,
            },
            properties: match self.shared_properties {
                Some(c) => Some(c@),
                None => None,
            },
        }
    }
}

impl Serializer {
    /// Returns a builder used to configure a `Serializer`.
    pub fn builder() -> (b: Builder)
        ensures
            b@ == (Features { raw_binary: false, shared_strings: false, shared_properties: true }),
    {
        Builder { raw_binary: false, shared_strings: false, shared_properties: true }
    }

    /// Creates a new `Serializer` with default settings.
    pub fn new(writer: Vec<u8>) -> (r: Self)
        ensures
            r@ == Writer::new(
                Features { raw_binary: false, shared_strings: false, shared_properties: true },
            ).write(writer@),
    {
        Serializer::builder().build(writer)
    }

    /// Writes `bytes`.
    pub(crate) fn put(&mut self, bytes: &[u8])
        ensures
            final(self)@ == old(self)@.write(bytes@),
    {
        self.writer.extend_from_slice(bytes);
        proof {
            assert(self.writer@ =~= old(self).writer@ + bytes@);
        }
    }

    /// Writes one byte.
    pub(crate) fn put1(&mut self, b: u8)
        ensures
            final(self)@ == old(self)@.write(seq![b]),
    {
        self.writer.push(b);
        proof {
            assert(self.writer@ =~= old(self).writer@ + seq![b]);
        }
    }

    /// Writes the Smile header to the writer, if not already written.
    ///
    /// This will happen automatically when the first value is serialized, but this method can
    /// be used to explicitly write it if desired.
    pub fn write_header(&mut self) -> (r: Result<(), Error>)
        ensures
            r is Ok,
            final(self)@ == old(self)@.write_header(),
    {
        match self.header.take() {
            Some(header) => {
                self.put(vstd::array::array_as_slice(&header));
            },
            None => {},
        }
        Ok(())
    }

    /// Writes the Smile end of stream token to the writer.
    ///
    /// The end of stream indicator is not required in a Smile encoding, but can help with
    /// framing in some contexts.
    ///
    /// This should only be called after serializing all data.
    pub fn end(&mut self) -> (r: Result<(), Error>)
        ensures
            r is Ok,
            final(self)@ == old(self)@.end(),
    {
        self.write_header()?;
        self.put1(0xff);
        Ok(())
    }

    /// Returns a shared reference to the inner writer.
    pub fn get_ref(&self) -> (w: &Vec<u8>)
        ensures
            w@ == self@.out,
    {
        &self.writer
    }

    /// Returns a mutable reference to the inner writer.
    pub fn get_mut(&mut self) -> (w: &mut Vec<u8>)
        ensures
            w@ == old(self)@.out,
            final(self)@ == (Writer { out: final(w)@, ..old(self)@ }),
    {
        &mut self.writer
    }

    /// Consumes the `Serializer`, returning the inner writer.
    pub fn into_inner(self) -> (w: Vec<u8>)
        ensures
            w@ == self@.out,
    {
        self.writer
    }

    /// Writes a number as a VInt.
    pub fn serialize_vint(&mut self, v: u64) -> (r: Result<(), Error>)
        ensures
            r is Ok,
            final(self)@ == old(self)@.write(vint::encode(v)),
    {
        let mut buf: [u8; 10] = [0; 10];
        let mut i: usize = 9;
        let mut left = v;
        proof {
            vint::lemma_cut(left);
            reveal_with_fuel(vint::pow128, 10);
        }
        // the last byte only stores 6 bits
        buf[i] = (left as u8 & 0x3f) | 0x80;
        left >>= 6;
        proof {
            assert(buf@.subrange(9, 10) =~= seq![(128 + v % 64) as u8]);
            assert(vint::groups(left as nat) + buf@.subrange(9, 10) =~= vint::encode(v));
        }
        while left != 0
            invariant
                i <= 9,
                left < vint::pow128(i as nat),
                vint::groups(left as nat) + buf@.subrange(i as int, 10) == vint::encode(v),
            decreases left,
        {
            proof {
                vint::lemma_cut(left);
                assert(i > 0);
            }
            let ghost before = buf@;
            let ghost prev = left;
            i -= 1;
            buf[i] = left as u8 & 0x7f;
            left >>= 7;
            proof {
                assert(buf@.subrange(i as int, 10) =~= seq![(prev % 128) as u8] + before.subrange(
                    i + 1,
                    10,
                ));
                assert(vint::groups(left as nat).push((prev % 128) as u8) == vint::groups(
                    prev as nat,
                ));
                assert(vint::groups(left as nat) + buf@.subrange(i as int, 10) =~= vint::groups(
                    prev as nat,
                ) + before.subrange(i + 1, 10));
            }
        }
        proof {
            assert(vint::groups(0) + buf@.subrange(i as int, 10) =~= buf@.subrange(i as int, 10));
        }
        self.put(slice_subrange(vstd::array::array_as_slice(&buf), i, 10));
        Ok(())
    }

    /// Looks a string value up in the cache. Where the cache holds it, writes the reference to
    /// it and says so; where the cache could hold it, takes it in.
    pub fn serialize_shared_str(&mut self, v: &str) -> (r: Result<bool, Error>)
        ensures
            r matches Ok(found) && found == old(self)@.share_string(v@).1.is_some(),
            final(self)@ == match old(self)@.share_string(v@) {
                (w, Some(index)) => w.write(string_reference(index)),
                (w, None) => w,
            },
    {
        let len = v.as_bytes().len();
        let found = match &mut self.shared_strings {
            Some(shared_strings) => {
                if len > 64 {
                    return Ok(false);
                }
                match shared_strings.get(v) {
                    Some(backref) => Some(backref),
                    None => {
                        shared_strings.intern(v.to_owned());
                        return Ok(false);
                    },
                }
            },
            None => return Ok(false),
        };
        match found {
            Some(backref) => {
                if backref <= 30 {
                    self.put1(backref as u8 + 1);
                } else {
                    let buf: [u8; 2] = [
                        0xec | #[verifier::truncate] ((backref >> 8) as u8),
                        #[verifier::truncate] (backref as u8),
                    ];
                    proof {
                        assert(buf@ =~= string_reference(backref));
                    }
                    self.put(vstd::array::array_as_slice(&buf));
                }
                Ok(true)
            },
            None => Ok(false),
        }
    }

    /// Looks a key up in the cache and, where the cache could hold it and does not, takes it
    /// in. Gives the index under which it was found.
    pub(crate) fn share_property(&mut self, v: &str) -> (r: Option<u16>)
        ensures
            (final(self)@, r) == old(self)@.share_property(v@),
    {
        let len = v.as_bytes().len();
        match &mut self.shared_properties {
            Some(shared_properties) => {
                if len > 64 {
                    return None;
                }
                match shared_properties.get(v) {
                    Some(backref) => Some(backref),
                    None => {
                        shared_properties.intern(v.to_owned());
                        None
                    },
                }
            },
            None => None,
        }
    }

    /// Writes one group of up to seven bytes, packed into seven bits.
    fn serialize_group(&mut self, group: &[u8])
        requires
            1 <= group@.len() <= 7,
        ensures
            final(self)@ == old(self)@.write(septet::pack_group(group@)),
    {
        let len = group.len();
        let mut buf: [u8; 8] = [0; 8];
        buf[0] = group[0] >> 1;
        let mut i: usize = 1;
        while i < len
            invariant
                1 <= i <= len == group@.len() <= 7,
                forall|j: int| 0 <= j < i ==> buf@[j] == septet::septet(group@, j),
            decreases len - i,
        {
            buf[i] = ((group[i - 1] << (7 - i)) & 0x7f) | (group[i] >> (i + 1));
            i += 1;
        }
        // the last byte is not shifted to its normal place
        buf[len] = ((group[len - 1] << (7 - len)) & 0x7f) >> (7 - len);
        proof {
            assert(buf@.subrange(0, len + 1) =~= septet::pack_group(group@));
        }
        self.put(slice_subrange(vstd::array::array_as_slice(&buf), 0, len + 1));
    }

    /// Writes binary data packed into seven bits, behind its length.
    pub fn serialize_7_bit_binary(&mut self, v: &[u8]) -> (r: Result<(), Error>)
        ensures
            r is Ok,
            final(self)@ == old(self)@.write(packed(v@)),
    {
        let len = v.len();
        self.serialize_vint(len as u64)?;
        let ghost start = self@;
        let mut pos: usize = 0;
        proof {
            assert(v@.take(0) =~= Seq::<u8>::empty());
            assert(start.write(septet::pack(v@.take(0))) == start);
        }
        while len - pos >= 7
            invariant
                pos <= len == v@.len(),
                pos % 7 == 0,
                self@ == start.write(septet::pack(v@.take(pos as int))),
            decreases len - pos,
        {
            let chunk = slice_subrange(v, pos, pos + 7);
            self.serialize_group(chunk);
            proof {
                septet::lemma_pack_append(v@.take(pos as int), chunk@);
                assert(v@.take(pos as int) + chunk@ =~= v@.take(pos + 7));
                assert(start.out + septet::pack(v@.take(pos as int)) + septet::pack_group(chunk@)
                    =~= start.out + septet::pack(v@.take(pos + 7)));
            }
            pos += 7;
        }
        if pos < len {
            let rest = slice_subrange(v, pos, len);
            self.serialize_group(rest);
            proof {
                septet::lemma_pack_append(v@.take(pos as int), rest@);
                assert(v@.take(pos as int) + rest@ =~= v@);
                assert(start.out + septet::pack(v@.take(pos as int)) + septet::pack_group(rest@)
                    =~= start.out + septet::pack(v@));
            }
        } else {
            proof {
                assert(v@.take(pos as int) =~= v@);
            }
        }
        proof {
            assert(old(self)@.out + (vint::encode(len as u64) + septet::pack(v@)) =~= old(self)@.out + vint::encode(len as u64) + septet::pack(v@));
        }
        Ok(())
    }

    /// Writes a big integer, given as its two's complement big-endian bytes.
    pub fn serialize_big_integer(&mut self, v: &[u8]) -> (r: Result<(), Error>)
        ensures
            r is Ok,
            final(self)@ == old(self)@.token(big_integer_token(v@)),
    {
        self.write_header()?;
        self.put1(0x26);
        self.serialize_7_bit_binary(v)?;
        proof {
            let w = old(self)@.write_header();
            assert(w.out + seq![0x26u8] + packed(v@) =~= w.out + big_integer_token(v@));
        }
        Ok(())
    }

    /// Writes the scale of a big decimal behind the lead byte of its token. The bytes of the
    /// unscaled value follow through [`Self::serialize_7_bit_binary`].
    pub fn serialize_big_decimal_scale(&mut self, scale: i32) -> (r: Result<(), Error>)
        ensures
            r is Ok,
            final(self)@ == old(self)@.big_decimal_scale(scale),
    {
        self.write_header()?;
        self.put1(0x2a);
        let zigzag = zigzag_i32(scale);
        self.serialize_vint(zigzag)?;
        proof {
            let w = old(self)@.write_header();
            assert(w.out + seq![0x2au8] + vint::encode(zigzag) =~= w.out + (seq![0x2au8]
                + vint::encode(zigzag)));
        }
        Ok(())
    }

    /// Writes a key that the program text gives, such as the name of a field.
    pub fn serialize_static_key(&mut self, v: &'static str) -> (r: Result<(), Error>)
        ensures
            r is Ok,
            final(self)@ == old(self)@.key(v@),
    {
        let mut key = KeySerializer { ser: self };
        key.serialize_maybe_static_str(v)
    }

    /// Writes a boolean.
    pub fn serialize_bool(&mut self, v: bool) -> (r: Result<(), Error>)
        ensures
            r is Ok,
            final(self)@ == old(self)@.boolean(v),
    {
        self.write_header()?;
        let b = if v { 0x23 } else { 0x22 };
        self.put1(b);
        Ok(())
    }

    /// Writes an 8-bit integer, as a 32-bit one.
    pub fn serialize_i8(&mut self, v: i8) -> (r: Result<(), Error>)
        ensures
            r is Ok,
            final(self)@ == old(self)@.token(int_token(v as i32)),
    {
        self.serialize_i32(v as i32)
    }

    /// Writes a 16-bit integer, as a 32-bit one.
    pub fn serialize_i16(&mut self, v: i16) -> (r: Result<(), Error>)
        ensures
            r is Ok,
            final(self)@ == old(self)@.token(int_token(v as i32)),
    {
        self.serialize_i32(v as i32)
    }

    /// Writes a 32-bit integer: in one byte where its ZigZag image is below 32.
    pub fn serialize_i32(&mut self, v: i32) -> (r: Result<(), Error>)
        ensures
            r is Ok,
            final(self)@ == old(self)@.token(int_token(v)),
            -16 <= v <= 15 ==> final(self)@ == old(self)@.token(
                seq![(0xc0 + zigzag::zigzag(v as int)) as u8],
            ),
    {
        self.write_header()?;
        let zigzag = zigzag_i32(v);
        if zigzag < 32 {
            self.put1(0xc0 + zigzag as u8);
        } else {
            self.put1(0x24);
            self.serialize_vint(zigzag)?;
            proof {
                let w = old(self)@.write_header();
                assert(w.out + seq![0x24u8] + vint::encode(zigzag) =~= w.out + int_token(v));
            }
        }
        Ok(())
    }

    /// Writes a 64-bit integer, as a 32-bit one where it is one.
    pub fn serialize_i64(&mut self, v: i64) -> (r: Result<(), Error>)
        ensures
            r is Ok,
            final(self)@ == old(self)@.token(long_token(v)),
    {
        if -0x8000_0000 <= v && v <= 0x7fff_ffff {
            self.serialize_i32(v as i32)
        } else {
            self.write_header()?;
            self.put1(0x25);
            let zigzag = zigzag_i64(v);
            self.serialize_vint(zigzag)?;
            proof {
                let w = old(self)@.write_header();
                assert(w.out + seq![0x25u8] + vint::encode(zigzag) =~= w.out + long_token(v));
            }
            Ok(())
        }
    }

    /// Writes a 128-bit integer, as a 64-bit one where it is one and as a big integer where
    /// not.
    pub fn serialize_i128(&mut self, v: i128) -> (r: Result<(), Error>)
        ensures
            r is Ok,
            final(self)@ == old(self)@.token(i128_token(v)),
    {
        if -0x8000_0000_0000_0000 <= v && v <= 0x7fff_ffff_ffff_ffff {
            self.serialize_i64(v as i64)
        } else {
            let mut buf: Vec<u8> = Vec::new();
            push_be_bytes(&mut buf, #[verifier::truncate] (v as u128), 16);
            self.serialize_big_integer(buf.as_slice())
        }
    }

    /// Writes an unsigned 8-bit integer, as a 32-bit one.
    pub fn serialize_u8(&mut self, v: u8) -> (r: Result<(), Error>)
        ensures
            r is Ok,
            final(self)@ == old(self)@.token(int_token(v as i32)),
    {
        self.serialize_i32(v as i32)
    }

    /// Writes an unsigned 16-bit integer, as a 32-bit one.
    pub fn serialize_u16(&mut self, v: u16) -> (r: Result<(), Error>)
        ensures
            r is Ok,
            final(self)@ == old(self)@.token(int_token(v as i32)),
    {
        self.serialize_i32(v as i32)
    }

    /// Writes an unsigned 32-bit integer, as a 64-bit one.
    pub fn serialize_u32(&mut self, v: u32) -> (r: Result<(), Error>)
        ensures
            r is Ok,
            final(self)@ == old(self)@.token(long_token(v as i64)),
    {
        self.serialize_i64(v as i64)
    }

    /// Writes an unsigned 64-bit integer, as a signed one where it is one and else as a big
    /// integer with a zero byte in front for the sign.
    pub fn serialize_u64(&mut self, v: u64) -> (r: Result<(), Error>)
        ensures
            r is Ok,
            final(self)@ == old(self)@.token(u64_token(v)),
    {
        if v <= 0x7fff_ffff_ffff_ffff {
            self.serialize_i64(v as i64)
        } else {
            // an extra byte for the sign bit
            let mut buf: Vec<u8> = Vec::new();
            buf.push(0);
            push_be_bytes(&mut buf, v as u128, 8);
            self.serialize_big_integer(buf.as_slice())
        }
    }

    /// Writes an unsigned 128-bit integer, as a signed one where it is one and else as a big
    /// integer with a zero byte in front for the sign.
    pub fn serialize_u128(&mut self, v: u128) -> (r: Result<(), Error>)
        ensures
            r is Ok,
            final(self)@ == old(self)@.token(u128_token(v)),
    {
        if v <= 0x7fff_ffff_ffff_ffff_ffff_ffff_ffff_ffff {
            self.serialize_i128(v as i128)
        } else {
            // an extra byte for the sign bit
            let mut buf: Vec<u8> = Vec::new();
            buf.push(0);
            push_be_bytes(&mut buf, v, 16);
            self.serialize_big_integer(buf.as_slice())
        }
    }

    /// Writes a 32-bit floating-point value, given as its bit pattern. The first byte is
    /// filled up with copies of the sign bit, which readers of the format expect.
    pub fn serialize_f32(&mut self, bits: u32) -> (r: Result<(), Error>)
        ensures
            r is Ok,
            final(self)@ == old(self)@.token(float_token(bits)),
    {
        self.write_header()?;
        let signed = #[verifier::truncate] (bits as i32);
        let buf: [u8; 6] = [
            0x28,
            #[verifier::truncate] ((signed >> 28) as u8) & 0x7f,
            #[verifier::truncate] ((signed >> 21) as u8) & 0x7f,
            #[verifier::truncate] ((signed >> 14) as u8) & 0x7f,
            #[verifier::truncate] ((signed >> 7) as u8) & 0x7f,
            #[verifier::truncate] (signed as u8) & 0x7f,
        ];
        proof {
            assert(buf@ =~= seq![0x28u8] + float_septets(bits));
        }
        self.put(vstd::array::array_as_slice(&buf));
        Ok(())
    }

    /// Writes a 64-bit floating-point value, given as its bit pattern. The first byte holds
    /// the top bit alone.
    pub fn serialize_f64(&mut self, bits: u64) -> (r: Result<(), Error>)
        ensures
            r is Ok,
            final(self)@ == old(self)@.token(double_token(bits)),
    {
        self.write_header()?;
        let buf: [u8; 11] = [
            0x29,
            #[verifier::truncate] ((bits >> 63) as u8) & 0x7f,
            #[verifier::truncate] ((bits >> 56) as u8) & 0x7f,
            #[verifier::truncate] ((bits >> 49) as u8) & 0x7f,
            #[verifier::truncate] ((bits >> 42) as u8) & 0x7f,
            #[verifier::truncate] ((bits >> 35) as u8) & 0x7f,
            #[verifier::truncate] ((bits >> 28) as u8) & 0x7f,
            #[verifier::truncate] ((bits >> 21) as u8) & 0x7f,
            #[verifier::truncate] ((bits >> 14) as u8) & 0x7f,
            #[verifier::truncate] ((bits >> 7) as u8) & 0x7f,
            #[verifier::truncate] (bits as u8) & 0x7f,
        ];
        proof {
            assert(buf@ =~= seq![0x29u8] + double_septets(bits));
        }
        self.put(vstd::array::array_as_slice(&buf));
        Ok(())
    }

    /// Writes a character, as a string.
    pub fn serialize_char(&mut self, v: char) -> (r: Result<(), Error>)
        ensures
            r is Ok,
            final(self)@ == old(self)@.string(seq![v]),
    {
        let s = char_to_string(v);
        self.serialize_str(s.as_str())
    }

    /// Writes a string value.
    pub fn serialize_str(&mut self, v: &str) -> (r: Result<(), Error>)
        ensures
            r is Ok,
            final(self)@ == old(self)@.string(v@),
    {
        self.write_header()?;
        if v.is_empty() {
            self.put1(0x20);
            return Ok(());
        }
        if self.serialize_shared_str(v)? {
            return Ok(());
        }
        let ghost w = self@;
        let bytes = v.as_bytes();
        let len = bytes.len();
        if v.is_ascii() {
            if len <= 32 {
                self.put1(0x40 + len as u8 - 1);
                self.put(bytes);
            } else if len <= 64 {
                self.put1(0x60 + len as u8 - 33);
                self.put(bytes);
            } else {
                self.put1(0xe0);
                self.put(bytes);
                self.put1(0xfc);
            }
        } else {
            if len <= 33 {
                self.put1(0x80 + len as u8 - 2);
                self.put(bytes);
            } else if len <= 64 {
                self.put1(0xa0 + len as u8 - 34);
                self.put(bytes);
            } else {
                self.put1(0xe4);
                self.put(bytes);
                self.put1(0xfc);
            }
        }
        proof {
            assert(self@.out =~= w.out + string_literal(v@));
        }
        Ok(())
    }

    /// Writes binary data, raw or packed into seven bits as the serializer is set up.
    pub fn serialize_bytes(&mut self, v: &[u8]) -> (r: Result<(), Error>)
        ensures
            r is Ok,
            final(self)@ == old(self)@.bytes(v@),
    {
        self.write_header()?;
        let ghost w = self@;
        if self.raw_binary {
            self.put1(0xfd);
            self.serialize_vint(v.len() as u64)?;
            self.put(v);
        } else {
            self.put1(0xe8);
            self.serialize_7_bit_binary(v)?;
        }
        proof {
            assert(self@.out =~= w.out + binary_token(w.raw_binary, v@));
        }
        Ok(())
    }

    /// Writes an absent value, as a null.
    pub fn serialize_none(&mut self) -> (r: Result<(), Error>)
        ensures
            r is Ok,
            final(self)@ == old(self)@.unit(),
    {
        self.serialize_unit()
    }

    /// Writes a null.
    pub fn serialize_unit(&mut self) -> (r: Result<(), Error>)
        ensures
            r is Ok,
            final(self)@ == old(self)@.unit(),
    {
        self.write_header()?;
        self.put1(0x21);
        Ok(())
    }

    /// Writes a structure without fields, as a null.
    pub fn serialize_unit_struct(&mut self, _name: &'static str) -> (r: Result<(), Error>)
        ensures
            r is Ok,
            final(self)@ == old(self)@.unit(),
    {
        self.serialize_unit()
    }

    /// Writes a variant without fields, as its name.
    pub fn serialize_unit_variant(
        &mut self,
        _name: &'static str,
        _variant_index: u32,
        variant: &'static str,
    ) -> (r: Result<(), Error>)
        ensures
            r is Ok,
            final(self)@ == old(self)@.string(variant@),
    {
        self.serialize_str(variant)
    }

    /// Writes a value that is there, as the value.
    pub fn serialize_some(&mut self, value: &Value) -> (r: Result<(), Error>)
        ensures
            r is Ok,
            final(self)@ == old(self)@.tree(value@),
    {
        value.serialize(self)
    }

    /// Writes a structure of one unnamed field, as the field.
    pub fn serialize_newtype_struct(&mut self, _name: &'static str, value: &Value) -> (r: Result<
        (),
        Error,
    >)
        ensures
            r is Ok,
            final(self)@ == old(self)@.tree(value@),
    {
        value.serialize(self)
    }

    /// Writes a variant of one unnamed field: a map whose one key is the variant's name, with
    /// the field as its value.
    pub fn serialize_newtype_variant(
        &mut self,
        _name: &'static str,
        _variant_index: u32,
        variant: &'static str,
        value: &Value,
    ) -> (r: Result<(), Error>)
        ensures
            r is Ok,
            final(self)@ == old(self)@.token(seq![0xfau8]).entry(variant@, value@).write(
                seq![0xfbu8],
            ),
    {
        self.write_header()?;
        self.put1(0xfa);
        self.serialize_static_key(variant)?;
        value.serialize(self)?;
        self.put1(0xfb);
        Ok(())
    }

    /// Opens a sequence.
    pub fn serialize_seq(&mut self, _len: Option<usize>) -> (r: Result<Compound<'_>, Error>)
        ensures
            r matches Ok(c) && c.mode is Normal && c.ser@ == old(self)@.token(seq![0xf8u8])
                && *final(self) == *final(c.ser),
    {
        self.write_header()?;
        self.put1(0xf8);
        Ok(Compound { ser: self, mode: Mode::Normal })
    }

    /// Opens a tuple, as a sequence.
    pub fn serialize_tuple(&mut self, len: usize) -> (r: Result<Compound<'_>, Error>)
        ensures
            r matches Ok(c) && c.mode is Normal && c.ser@ == old(self)@.token(seq![0xf8u8])
                && *final(self) == *final(c.ser),
    {
        self.serialize_seq(Some(len))
    }

    /// Opens a tuple structure, as a sequence.
    pub fn serialize_tuple_struct(&mut self, _name: &'static str, len: usize) -> (r: Result<
        Compound<'_>,
        Error,
    >)
        ensures
            r matches Ok(c) && c.mode is Normal && c.ser@ == old(self)@.token(seq![0xf8u8])
                && *final(self) == *final(c.ser),
    {
        self.serialize_tuple(len)
    }

    /// Opens a tuple variant: a map whose one key is the variant's name, with a sequence as
    /// its value.
    pub fn serialize_tuple_variant(
        &mut self,
        _name: &'static str,
        _variant_index: u32,
        variant: &'static str,
        _len: usize,
    ) -> (r: Result<Compound<'_>, Error>)
        ensures
            r matches Ok(c) && c.mode is Normal && c.ser@ == old(self)@.token(seq![0xfau8]).key(variant@).write(seq![0xf8u8]) && *final(self) == *final(c.ser),
    {
        self.write_header()?;
        self.put1(0xfa);
        self.serialize_static_key(variant)?;
        self.put1(0xf8);
        Ok(Compound { ser: self, mode: Mode::Normal })
    }

    /// Opens a map.
    pub fn serialize_map(&mut self, _len: Option<usize>) -> (r: Result<Compound<'_>, Error>)
        ensures
            r matches Ok(c) && c.mode is Normal && c.ser@ == old(self)@.token(seq![0xfau8])
                && *final(self) == *final(c.ser),
    {
        self.write_header()?;
        self.put1(0xfa);
        Ok(Compound { ser: self, mode: Mode::Normal })
    }

    /// Opens a structure, as a map. The two reserved names open a big integer and a big
    /// decimal, whose token comes with their fields.
    pub fn serialize_struct(&mut self, name: &'static str, len: usize) -> (r: Result<
        Compound<'_>,
        Error,
    >)
        ensures
            r matches Ok(c) && *final(self) == *final(c.ser) && if name@
                == BigInteger::STRUCT_NAME@ {
                c.mode is BigInteger && c.ser@ == old(self)@
            } else if name@ == BigDecimal::STRUCT_NAME@ {
                c.mode is BigDecimal && c.ser@ == old(self)@
            } else {
                c.mode is Normal && c.ser@ == old(self)@.token(seq![0xfau8])
            },
    {
        if same_text(name, BigInteger::STRUCT_NAME) {
            return Ok(Compound { ser: self, mode: Mode::BigInteger });
        }
        if same_text(name, BigDecimal::STRUCT_NAME) {
            return Ok(Compound { ser: self, mode: Mode::BigDecimal });
        }
        self.serialize_map(Some(len))
    }

    /// Opens a structure variant: a map whose one key is the variant's name, with a map as its
    /// value.
    pub fn serialize_struct_variant(
        &mut self,
        _name: &'static str,
        _variant_index: u32,
        variant: &'static str,
        _len: usize,
    ) -> (r: Result<Compound<'_>, Error>)
        ensures
            r matches Ok(c) && c.mode is Normal && c.ser@ == old(self)@.token(seq![0xfau8]).key(variant@).write(seq![0xfau8]) && *final(self) == *final(c.ser),
    {
        self.write_header()?;
        self.put1(0xfa);
        self.serialize_static_key(variant)?;
        self.put1(0xfa);
        Ok(Compound { ser: self, mode: Mode::Normal })
    }

    /// The format is binary.
    pub fn is_human_readable(&self) -> (r: bool)
        ensures
            !r,
    {
        false
    }
}

/// `char::encode_utf8` gives the UTF-8 form of a character, here as a string of its own: the
/// string of that one character.
#[verifier::external_body]
pub(crate) fn char_to_string(c: char) -> (s: String)
    ensures
        s@ == seq![c],
{
    c.encode_utf8(&mut [0; 4]).to_owned()
}

/// Whether two strings are the same text.
pub fn same_text(a: &str, b: &str) -> (r: bool)
    ensures
        r == (a@ == b@),
{
    let x = a.as_bytes();
    let y = b.as_bytes();
    proof {
        vstd::utf8::encode_utf8_decode_utf8(a@);
        vstd::utf8::encode_utf8_decode_utf8(b@);
    }
    if x.len() != y.len() {
        return false;
    }
    let mut i: usize = 0;
    while i < x.len()
        invariant
            x@ == vstd::utf8::encode_utf8(a@),
            y@ == vstd::utf8::encode_utf8(b@),
            x@.len() == y@.len(),
            i <= x@.len(),
            forall|j: int| 0 <= j < i ==> x@[j] == y@[j],
        decreases x@.len() - i,
    {
        if x[i] != y[i] {
            return false;
        }
        i += 1;
    }
    proof {
        assert(x@ =~= y@);
    }
    true
}

/// Appends the `n` low bytes of `v`, most significant first.
fn push_be_bytes(buf: &mut Vec<u8>, v: u128, n: usize)
    requires
        n <= 16,
    ensures
        final(buf)@ == old(buf)@ + be_bytes(v, n as int),
{
    let mut i: usize = 0;
    while i < n
        invariant
            i <= n <= 16,
            buf@ == old(buf)@ + be_bytes(v, n as int).take(i as int),
        decreases n - i,
    {
        let shift = 8 * (n - 1 - i);
        buf.push(#[verifier::truncate] (((v >> shift) & 0xff) as u8));
        proof {
            assert(buf@ =~= old(buf)@ + be_bytes(v, n as int).take(i + 1));
        }
        i += 1;
    }
    proof {
        assert(be_bytes(v, n as int).take(n as int) =~= be_bytes(v, n as int));
    }
}

/// ZigZag folding at 32 bits.
#[inline]
pub fn zigzag_i32(v: i32) -> (r: u64)
    ensures
        r == zigzag::zigzag(v as int),
{
    proof {
        zigzag::lemma_fold_32(v);
    }
    (#[verifier::truncate] (((v << 1) ^ (v >> 31)) as u32)) as u64
}

/// ZigZag folding at 64 bits.
#[inline]
pub fn zigzag_i64(v: i64) -> (r: u64)
    ensures
        r == zigzag::zigzag(v as int),
{
    proof {
        zigzag::lemma_fold_64(v);
    }
    #[verifier::truncate] (((v << 1) ^ (v >> 63)) as u64)
}

} // verus!
