//! Map keys: strings, and what can be written as one.
use crate::error::Error;
use crate::ser::Serializer;
use crate::value::Value;
use crate::wire::tree::Tree;
use crate::wire::text::{key_literal, key_reference};
use vstd::prelude::*;

verus! {

/// The decimal digit for a number below ten.
pub open spec fn digit(d: int) -> char {
    (48 + d) as char
}

/// The decimal digits of a natural number, without leading zeros.
pub open spec fn digits(n: nat) -> Seq<char>
    decreases n,
{
    if n < 10 {
        seq![digit(n as int)]
    } else {
        digits(n / 10).push(digit((n % 10) as int))
    }
}

/// The decimal form of an integer, with a minus sign where it is negative.
pub open spec fn decimal(v: int) -> Seq<char> {
    if v < 0 {
        seq!['-'] + digits((-v) as nat)
    } else {
        digits(v as nat)
    }
}

/// `itoa::Buffer::format` prints an integer in decimal, as `Display` does: its digits without
/// leading zeros and, for a negative number, a minus sign before them.
#[verifier::external_body]
fn format_signed(v: i128) -> (s: String)
    ensures
        s@ == decimal(v as int),
{
    itoa::Buffer::new().format(v).to_owned()
}

/// `itoa::Buffer::format` prints an unsigned integer in decimal, as `Display` does: its digits
/// without leading zeros.
#[verifier::external_body]
fn format_unsigned(v: u128) -> (s: String)
    ensures
        s@ == decimal(v as int),
{
    itoa::Buffer::new().format(v).to_owned()
}

/// The key that a value is written as, where it can be one: a string is, and an integer in its
/// decimal form.
pub open spec fn key_of(t: Tree) -> Option<Seq<char>> {
    match t {
        Tree::String(s) => Some(s),
        Tree::Integer(v) => Some(decimal(v as int)),
        Tree::Long(v) => Some(decimal(v as int)),
        _ => None,
    }
}

/// Writes map keys into a [`Serializer`].
pub struct KeySerializer<'a> {
    /// The serializer that takes the keys.
    pub ser: &'a mut Serializer,
}

impl<'a> KeySerializer<'a> {
    /// Writes an integer key, as its decimal form.
    pub fn serialize_int(self, v: i128) -> (r: Result<(), Error>)
        ensures
            r is Ok,
            final(self.ser)@ == old(self.ser)@.key(decimal(v as int)),
    {
        let s = format_signed(v);
        self.serialize_str(s.as_str())
    }

    /// Writes an unsigned integer key, as its decimal form.
    pub fn serialize_uint(self, v: u128) -> (r: Result<(), Error>)
        ensures
            r is Ok,
            final(self.ser)@ == old(self.ser)@.key(decimal(v as int)),
    {
        let s = format_unsigned(v);
        self.serialize_str(s.as_str())
    }

    /// Looks a key up in the cache. Where the cache holds it, writes the reference to it and
    /// says so; where the cache could hold it, takes it in.
    pub fn serialize_shared_property(&mut self, v: &str) -> (r: Result<bool, Error>)
        ensures
            r matches Ok(found) && found == old(self).ser@.share_property(v@).1.is_some(),
            final(self).ser@ == match old(self).ser@.share_property(v@) {
                (w, Some(index)) => w.write(key_reference(index)),
                (w, None) => w,
            },
            *final(final(self).ser) == *final(old(self).ser),
    {
        match self.ser.share_property(v) {
            Some(backref) => {
                if backref <= 63 {
                    self.ser.put1(0x40 + backref as u8);
                } else {
                    let buf: [u8; 2] = [
                        0x30 | #[verifier::truncate] ((backref >> 8) as u8),
                        #[verifier::truncate] (backref as u8),
                    ];
                    proof {
                        assert(buf@ =~= key_reference(backref));
                    }
                    self.ser.put(vstd::array::array_as_slice(&buf));
                }
                Ok(true)
            },
            None => Ok(false),
        }
    }

    /// Writes a key: the token of the empty key, a reference where the cache holds the key,
    /// else the key itself.
    pub fn serialize_maybe_static_str(&mut self, v: &str) -> (r: Result<(), Error>)
        ensures
            r is Ok,
            final(self).ser@ == old(self).ser@.key(v@),
            *final(final(self).ser) == *final(old(self).ser),
    {
        if v.is_empty() {
            self.ser.put1(0x20);
            return Ok(());
        }
        if self.serialize_shared_property(v)? {
            return Ok(());
        }
        let ghost w = self.ser@;
        let bytes = v.as_bytes();
        let len = bytes.len();
        if len <= 64 && v.is_ascii() {
            self.ser.put1(0x80 + len as u8 - 1);
            self.ser.put(bytes);
        } else if len < 57 {
            self.ser.put1(0xc0 + len as u8 - 2);
            self.ser.put(bytes);
        } else {
            self.ser.put1(0x34);
            self.ser.put(bytes);
            self.ser.put1(0xfc);
        }
        proof {
            assert(self.ser@.out =~= w.out + key_literal(v@));
        }
        Ok(())
    }

    /// A boolean is no key.
    pub fn serialize_bool(self, _v: bool) -> (r: Result<(), Error>)
        ensures
            r matches Err(e) && e@ == crate::error::ErrorKind::KeyMustBeAString,
            final(self.ser)@ == old(self.ser)@,
    {
        Err(Error::key_must_be_a_string())
    }

    /// Writes a character as a key.
    pub fn serialize_char(self, v: char) -> (r: Result<(), Error>)
        ensures
            r is Ok,
            final(self.ser)@ == old(self.ser)@.key(seq![v]),
    {
        let s = crate::ser::char_to_string(v);
        self.serialize_str(s.as_str())
    }

    /// Writes a string as a key.
    pub fn serialize_str(self, v: &str) -> (r: Result<(), Error>)
        ensures
            r is Ok,
            final(self.ser)@ == old(self.ser)@.key(v@),
    {
        let mut this = self;
        this.serialize_maybe_static_str(v)
    }

    /// Writes a variant without fields as a key: its name.
    pub fn serialize_unit_variant(
        self,
        _name: &'static str,
        _variant_index: u32,
        variant: &'static str,
    ) -> (r: Result<(), Error>)
        ensures
            r is Ok,
            final(self.ser)@ == old(self.ser)@.key(variant@),
    {
        let mut this = self;
        this.serialize_maybe_static_str(variant)
    }

    /// Writes a structure of one unnamed field as a key: the field, where it is a string or an
    /// integer. Anything else is no key, and nothing is written for it.
    pub fn serialize_newtype_struct(self, _name: &'static str, value: &Value) -> (r: Result<
        (),
        Error,
    >)
        ensures
            match key_of(value@) {
                Some(k) => r is Ok && final(self.ser)@ == old(self.ser)@.key(k),
                None => r matches Err(e) && e@ == crate::error::ErrorKind::KeyMustBeAString
                    && final(self.ser)@ == old(self.ser)@,
            },
    {
        match value {
            Value::String(s) => self.serialize_str(s.as_str()),
            Value::Integer(v) => self.serialize_int(*v as i128),
            Value::Long(v) => self.serialize_int(*v as i128),
            _ => Err(Error::key_must_be_a_string()),
        }
    }

    /// Binary data is no key.
    pub fn serialize_bytes(self, _v: &[u8]) -> (r: Result<(), Error>)
        ensures
            r matches Err(e) && e@ == crate::error::ErrorKind::KeyMustBeAString,
            final(self.ser)@ == old(self.ser)@,
    {
        Err(Error::key_must_be_a_string())
    }

    /// A null is no key.
    pub fn serialize_unit(self) -> (r: Result<(), Error>)
        ensures
            r matches Err(e) && e@ == crate::error::ErrorKind::KeyMustBeAString,
            final(self.ser)@ == old(self.ser)@,
    {
        Err(Error::key_must_be_a_string())
    }

    /// Keys are text.
    pub fn is_human_readable(&self) -> (r: bool)
        ensures
            r,
    {
        true
    }
}

} // verus!
