//! Big integers.
use vstd::prelude::*;

verus! {

/// A parsed Smile `BigInteger` value.
///
/// The type carries the number between a caller and the codec; it offers no arithmetic.
#[derive(Clone, PartialEq, Eq, Debug)]
pub struct BigInteger(Vec<u8>);

impl View for BigInteger {
    type V = Seq<u8>;

    closed spec fn view(&self) -> Seq<u8> {
        self.0@
    }
}

impl BigInteger {
    /// The name under which a big integer travels as a structure of one field.
    pub const STRUCT_NAME: &'static str = "\0SmileBigInteger";

    /// The name of that field.
    pub const FIELD_NAME: &'static str = "\0SmileBigIntegerField";

    /// Creates a `BigInteger` from its representation as a byte buffer in two's complement
    /// big-endian.
    #[inline]
    pub fn from_be_bytes(buf: Vec<u8>) -> (r: Self)
        ensures
            r@ == buf@,
    {
        BigInteger(buf)
    }

    /// Returns a slice containing the two's complement big-endian representation of the
    /// `BigInteger`.
    #[inline]
    pub fn as_be_bytes(&self) -> (r: &[u8])
        ensures
            r@ == self@,
    {
        self.0.as_slice()
    }

    /// Consumes the `BigInteger`, returning a byte buffer containing its two's complement
    /// big-endian representation.
    #[inline]
    pub fn into_be_bytes(self) -> (r: Vec<u8>)
        ensures
            r@ == self@,
    {
        self.0
    }
}

} // verus!
