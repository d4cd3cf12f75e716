//! Big decimals.
use crate::value::big_integer::BigInteger;
use vstd::prelude::*;

verus! {

/// A parsed Smile `BigDecimal` value.
///
/// The type carries the number between a caller and the codec; it offers no arithmetic.
#[derive(Clone, PartialEq, Eq, Debug)]
pub struct BigDecimal {
    value: BigInteger,
    scale: i32,
}

impl View for BigDecimal {
    type V = (i32, Seq<u8>);

    /// The scale and the bytes of the unscaled value.
    closed spec fn view(&self) -> (i32, Seq<u8>) {
        (self.scale, self.value@)
    }
}

impl BigDecimal {
    /// The name under which a big decimal travels as a structure of two fields.
    pub const STRUCT_NAME: &'static str = "\0SmileBigDecimal";

    /// The name of the field that holds the scale.
    pub const SCALE_FIELD_NAME: &'static str = "\0SmileBigDecimalScale";

    /// The name of the field that holds the unscaled value.
    pub const VALUE_FIELD_NAME: &'static str = "\0SmileBigDecimalValue";

    /// Creates a `BigDecimal` from an unscaled arbitrary precision integer and a scale.
    ///
    /// The value of the decimal is `value * 10^-scale`.
    #[inline]
    pub fn new(value: BigInteger, scale: i32) -> (r: Self)
        ensures
            r@ == (scale, value@),
    {
        BigDecimal { scale, value }
    }

    /// Returns the `BigDecimal`'s unscaled value.
    #[inline]
    pub fn unscaled_value(&self) -> (r: &BigInteger)
        ensures
            r@ == self@.1,
    {
        &self.value
    }

    /// Consumes the `BigDecimal`, returning its unscaled value.
    #[inline]
    pub fn into_unscaled_value(self) -> (r: BigInteger)
        ensures
            r@ == self@.1,
    {
        self.value
    }

    /// Returns the `BigDecimal`'s scale.
    #[inline]
    pub fn scale(&self) -> (r: i32)
        ensures
            r == self@.0,
    {
        self.scale
    }
}

} // verus!
