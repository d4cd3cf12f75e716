//! Numbers on the wire: integers, the bit patterns of floating-point values, and the
//! big-endian two's complement bytes of big integers.
use crate::wire::vint;
use crate::wire::zigzag::zigzag;
use vstd::prelude::*;

verus! {

/// The token of a 32-bit integer: one byte where its ZigZag image is below 32, else the lead
/// byte `0x24` and the image as a VInt.
pub open spec fn int_token(v: i32) -> Seq<u8> {
    let z = zigzag(v as int);
    if z < 32 {
        seq![(0xc0 + z) as u8]
    } else {
        seq![0x24u8] + vint::encode(z as u64)
    }
}

/// The token of a 64-bit integer: that of the 32-bit integer where it is one, else the lead
/// byte `0x25` and its ZigZag image as a VInt.
pub open spec fn long_token(v: i64) -> Seq<u8> {
    if i32::MIN <= v <= i32::MAX {
        int_token(v as i32)
    } else {
        seq![0x25u8] + vint::encode(zigzag(v as int) as u64)
    }
}

/// The five bytes of seven bits each that hold a 32-bit pattern, the first one filled up with
/// copies of the sign bit.
pub open spec fn float_septets(bits: u32) -> Seq<u8> {
    let b = bits as i32;
    seq![
        ((b >> 28) as u8) & 0x7f,
        ((b >> 21) as u8) & 0x7f,
        ((b >> 14) as u8) & 0x7f,
        ((b >> 7) as u8) & 0x7f,
        (b as u8) & 0x7f,
    ]
}

/// The ten bytes of seven bits each that hold a 64-bit pattern, the first one holding the top
/// bit alone.
pub open spec fn double_septets(bits: u64) -> Seq<u8> {
    seq![
        ((bits >> 63) as u8) & 0x7f,
        ((bits >> 56) as u8) & 0x7f,
        ((bits >> 49) as u8) & 0x7f,
        ((bits >> 42) as u8) & 0x7f,
        ((bits >> 35) as u8) & 0x7f,
        ((bits >> 28) as u8) & 0x7f,
        ((bits >> 21) as u8) & 0x7f,
        ((bits >> 14) as u8) & 0x7f,
        ((bits >> 7) as u8) & 0x7f,
        (bits as u8) & 0x7f,
    ]
}

/// The 32-bit pattern that five bytes hold.
pub open spec fn float_bits(b: Seq<u8>) -> u32 {
    (b[0] as u32) << 28 | (b[1] as u32) << 21 | (b[2] as u32) << 14 | (b[3] as u32) << 7 | (
    b[4] as u32)
}

/// The 64-bit pattern that ten bytes hold.
pub open spec fn double_bits(b: Seq<u8>) -> u64 {
    (b[0] as u64) << 63 | (b[1] as u64) << 56 | (b[2] as u64) << 49 | (b[3] as u64) << 42 | (
    b[4] as u64) << 35 | (b[5] as u64) << 28 | (b[6] as u64) << 21 | (b[7] as u64) << 14 | (
    b[8] as u64) << 7 | (b[9] as u64)
}

/// The bytes of a 32-bit pattern hold that pattern.
pub proof fn lemma_float_round_trip(bits: u32)
    ensures
        float_bits(float_septets(bits)) == bits,
        float_septets(bits).len() == 5,
{
    let b = bits as i32;
    assert(((((b >> 28) as u8) & 0x7f) as u32) << 28 | ((((b >> 21) as u8) & 0x7f) as u32) << 21
        | ((((b >> 14) as u8) & 0x7f) as u32) << 14 | ((((b >> 7) as u8) & 0x7f) as u32) << 7 | (((
    b as u8) & 0x7f) as u32) == bits) by (bit_vector)
        requires
            b == bits as i32,
    ;
}

/// The bytes of a 64-bit pattern hold that pattern.
pub proof fn lemma_double_round_trip(bits: u64)
    ensures
        double_bits(double_septets(bits)) == bits,
        double_septets(bits).len() == 10,
{
    assert(((((bits >> 63) as u8) & 0x7f) as u64) << 63 | ((((bits >> 56) as u8) & 0x7f) as u64)
        << 56 | ((((bits >> 49) as u8) & 0x7f) as u64) << 49 | ((((bits >> 42) as u8) & 0x7f) as u64)
        << 42 | ((((bits >> 35) as u8) & 0x7f) as u64) << 35 | ((((bits >> 28) as u8) & 0x7f) as u64)
        << 28 | ((((bits >> 21) as u8) & 0x7f) as u64) << 21 | ((((bits >> 14) as u8) & 0x7f) as u64)
        << 14 | ((((bits >> 7) as u8) & 0x7f) as u64) << 7 | (((bits as u8) & 0x7f) as u64) == bits)
        by (bit_vector);
}

/// Byte `i` of the `n` big-endian bytes of `v`.
pub open spec fn be_byte(v: u128, n: int, i: int) -> u8 {
    ((v >> ((8 * (n - 1 - i)) as u128)) & 0xff) as u8
}

/// The `n` low bytes of `v`, most significant first.
pub open spec fn be_bytes(v: u128, n: int) -> Seq<u8> {
    Seq::new(n as nat, |i: int| be_byte(v, n, i))
}

/// The unsigned number that big-endian bytes stand for, taken modulo 2 to the power 128.
pub open spec fn be_value(bytes: Seq<u8>) -> u128
    decreases bytes.len(),
{
    if bytes.len() == 0 {
        0
    } else {
        (be_value(bytes.drop_last()) << 8) | (bytes.last() as u128)
    }
}

/// The first `k` of the `n` big-endian bytes of `v` stand for `v` without its `n - k` low
/// bytes.
proof fn lemma_be_prefix(v: u128, n: int, k: int)
    requires
        1 <= k <= n <= 16,
        n < 16 ==> v >> ((8 * n) as u128) == 0,
    ensures
        be_value(be_bytes(v, n).take(k)) == v >> ((8 * (n - k)) as u128),
    decreases k,
{
    let bytes = be_bytes(v, n);
    let s = (8 * (n - k)) as u128;
    assert(bytes.take(k).drop_last() =~= bytes.take(k - 1));
    assert(bytes.take(k).last() == be_byte(v, n, k - 1));
    if k == 1 {
        assert(bytes.take(0) =~= Seq::<u8>::empty());
        assert(be_value(bytes.take(0)) == 0);
        assert(s <= 120 && (s == 120 || v >> ((s + 8) as u128) == 0) ==> ((0u128 << 8) | ((((v >> s)
            & 0xff) as u8) as u128)) == v >> s) by (bit_vector);
    } else {
        lemma_be_prefix(v, n, k - 1);
        assert(s <= 112 ==> (((v >> ((s + 8) as u128)) << 8) | ((((v >> s) & 0xff) as u8) as u128))
            == v >> s) by (bit_vector);
    }
}

/// The big-endian bytes of a number stand for the number, where they are enough to hold it.
pub proof fn lemma_be_round_trip(v: u128, n: int)
    requires
        1 <= n <= 16,
        n < 16 ==> v >> ((8 * n) as u128) == 0,
    ensures
        be_value(be_bytes(v, n)) == v,
{
    lemma_be_prefix(v, n, n);
    assert(be_bytes(v, n).take(n) =~= be_bytes(v, n));
    assert(v >> 0u128 == v) by (bit_vector);
}

/// The byte that extends a two's complement number to the left: all ones where its first byte
/// has the sign bit set, else zero.
pub open spec fn sign_byte(bytes: Seq<u8>) -> u8 {
    if bytes.len() > 0 && bytes[0] >= 128 {
        0xff
    } else {
        0
    }
}

/// A two's complement number of at most `n` bytes, extended to `n` bytes.
pub open spec fn sign_extended(bytes: Seq<u8>, n: int) -> Seq<u8> {
    Seq::new((n - bytes.len()) as nat, |i: int| sign_byte(bytes)) + bytes
}

} // verus!
