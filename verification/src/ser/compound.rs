//! Sequences, maps and structures under way.
use crate::error::Error;
use crate::ser::key_serializer::KeySerializer;
use crate::ser::Serializer;
use crate::value::Value;
use vstd::prelude::*;

verus! {

/// What the fields of a structure stand for.
pub enum Mode {
    /// The entries of a map.
    Normal,
    /// The bytes of a big integer.
    BigInteger,
    /// The scale and the bytes of a big decimal.
    BigDecimal,
}

/// A sequence, a map or a structure that is being written.
pub struct Compound<'a> {
    /// The serializer that takes the elements.
    pub ser: &'a mut Serializer,
    /// What the fields of a structure stand for.
    pub mode: Mode,
}

impl<'a> Compound<'a> {
    /// Writes an element of a sequence.
    pub fn serialize_element(&mut self, value: &Value) -> (r: Result<(), Error>)
        ensures
            r is Ok,
            final(self).ser@ == old(self).ser@.tree(value@),
            *final(final(self).ser) == *final(old(self).ser),
            final(self).mode == old(self).mode,
    {
        value.serialize(self.ser)
    }

    /// Closes a sequence.
    pub fn end(self) -> (r: Result<(), Error>)
        ensures
            r is Ok,
            final(self.ser)@ == old(self.ser)@.write(seq![0xf9u8]),
    {
        self.ser.put1(0xf9);
        Ok(())
    }

    /// Closes the sequence of a tuple variant and the map around it.
    pub fn end_tuple_variant(self) -> (r: Result<(), Error>)
        ensures
            r is Ok,
            final(self.ser)@ == old(self.ser)@.write(seq![0xf9u8, 0xfbu8]),
    {
        let buf: [u8; 2] = [0xf9, 0xfb];
        proof {
            assert(buf@ =~= seq![0xf9u8, 0xfbu8]);
        }
        self.ser.put(vstd::array::array_as_slice(&buf));
        Ok(())
    }

    /// Writes the key of an entry of a map.
    pub fn serialize_key(&mut self, key: &str) -> (r: Result<(), Error>)
        ensures
            r is Ok,
            final(self).ser@ == old(self).ser@.key(key@),
            *final(final(self).ser) == *final(old(self).ser),
            final(self).mode == old(self).mode,
    {
        let key_serializer = KeySerializer { ser: &mut *self.ser };
        key_serializer.serialize_str(key)
    }

    /// Writes the value of an entry of a map.
    pub fn serialize_value(&mut self, value: &Value) -> (r: Result<(), Error>)
        ensures
            r is Ok,
            final(self).ser@ == old(self).ser@.tree(value@),
            *final(final(self).ser) == *final(old(self).ser),
            final(self).mode == old(self).mode,
    {
        value.serialize(self.ser)
    }

    /// Closes a map.
    pub fn end_map(self) -> (r: Result<(), Error>)
        ensures
            r is Ok,
            final(self.ser)@ == old(self.ser)@.write(seq![0xfbu8]),
    {
        self.ser.put1(0xfb);
        Ok(())
    }

    /// Writes a field of a structure: an entry of a map, or a part of a big number. A big
    /// integer has one field, its bytes; a big decimal has two, its scale and the bytes of its
    /// unscaled value.
    pub fn serialize_field(&mut self, key: &'static str, value: &Value) -> (r: Result<(), Error>)
        requires
            old(self).mode is BigInteger ==> value is Binary,
            old(self).mode is BigDecimal ==> value is Integer || value is Binary,
        ensures
            r is Ok,
            final(self).ser@ == match (old(self).mode, value@) {
                (Mode::BigInteger, crate::wire::tree::Tree::Binary(b)) => old(self).ser@.token(
                    crate::wire::encode::big_integer_token(b),
                ),
                (Mode::BigDecimal, crate::wire::tree::Tree::Integer(scale)) => old(self).ser@.big_decimal_scale(scale),
                (Mode::BigDecimal, crate::wire::tree::Tree::Binary(b)) => old(self).ser@.write(
                    crate::wire::encode::packed(b),
                ),
                _ => old(self).ser@.entry(key@, value@),
            },
            *final(final(self).ser) == *final(old(self).ser),
            final(self).mode == old(self).mode,
    {
        match self.mode {
            Mode::BigInteger => match value {
                Value::Binary(bytes) => self.ser.serialize_big_integer(bytes.as_slice()),
                _ => Ok(()),
            },
            Mode::BigDecimal => match value {
                Value::Integer(scale) => self.ser.serialize_big_decimal_scale(*scale),
                Value::Binary(bytes) => self.ser.serialize_7_bit_binary(bytes.as_slice()),
                _ => Ok(()),
            },
            Mode::Normal => {
                self.ser.serialize_static_key(key)?;
                value.serialize(self.ser)
            },
        }
    }

    /// Closes a structure: a map is closed, a big number needs no closing.
    pub fn end_struct(self) -> (r: Result<(), Error>)
        ensures
            r is Ok,
            final(self.ser)@ == if self.mode is Normal {
                old(self.ser)@.write(seq![0xfbu8])
            } else {
                old(self.ser)@
            },
    {
        match self.mode {
            Mode::Normal => {
                self.ser.put1(0xfb);
                Ok(())
            },
            _ => Ok(()),
        }
    }

    /// Closes the map of a structure variant and the map around it.
    pub fn end_struct_variant(self) -> (r: Result<(), Error>)
        ensures
            r is Ok,
            final(self.ser)@ == old(self.ser)@.write(seq![0xfbu8, 0xfbu8]),
    {
        let buf: [u8; 2] = [0xfb, 0xfb];
        proof {
            assert(buf@ =~= seq![0xfbu8, 0xfbu8]);
        }
        self.ser.put(vstd::array::array_as_slice(&buf));
        Ok(())
    }
}

} // verus!
