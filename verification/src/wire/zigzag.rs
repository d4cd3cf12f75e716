//! ZigZag folding: a bijection between signed and unsigned integers that keeps small magnitudes
//! small.
use vstd::prelude::*;

verus! {

/// The unsigned image of a signed integer: `0, -1, 1, -2, 2, ...` go to `0, 1, 2, 3, 4, ...`.
pub open spec fn zigzag(v: int) -> int {
    if v >= 0 {
        2 * v
    } else {
        -2 * v - 1
    }
}

/// The signed integer that an unsigned image stands for.
pub open spec fn unzigzag(u: int) -> int {
    if u % 2 == 0 {
        u / 2
    } else {
        -((u + 1) / 2)
    }
}

/// Unfolding undoes folding, for every integer.
pub proof fn lemma_unzigzag_zigzag(v: int)
    ensures
        unzigzag(zigzag(v)) == v,
        zigzag(v) >= 0,
{
}

/// Folding undoes unfolding, for every unsigned image.
pub proof fn lemma_zigzag_unzigzag(u: int)
    requires
        u >= 0,
    ensures
        zigzag(unzigzag(u)) == u,
{
}

/// The images of the 32-bit integers are the 32-bit unsigned integers, and those of the 64-bit
/// integers the 64-bit unsigned integers.
pub proof fn lemma_zigzag_range(v: int)
    ensures
        i32::MIN <= v <= i32::MAX <==> 0 <= zigzag(v) <= u32::MAX,
        i64::MIN <= v <= i64::MAX <==> 0 <= zigzag(v) <= u64::MAX,
        -16 <= v <= 15 <==> 0 <= zigzag(v) < 32,
{
}

/// The bit formula for folding at 32 bits computes [`zigzag`].
pub proof fn lemma_fold_32(v: i32)
    ensures
        (((v << 1) ^ (v >> 31)) as u32) as int == zigzag(v as int),
{
    assert((((v << 1) ^ (v >> 31)) as u32) == (if v >= 0 {
        (2 * v) as u32
    } else {
        (-2 * v - 1) as u32
    })) by (bit_vector);
}

/// The bit formula for folding at 64 bits computes [`zigzag`].
pub proof fn lemma_fold_64(v: i64)
    ensures
        (((v << 1) ^ (v >> 63)) as u64) as int == zigzag(v as int),
{
    assert((((v << 1) ^ (v >> 63)) as u64) == (if v >= 0 {
        (2 * v) as u64
    } else {
        (-2 * v - 1) as u64
    })) by (bit_vector);
}

/// The two parts into which unfolding cuts a number: its low bit and the rest.
pub proof fn lemma_parts(v: u32, w: u64)
    ensures
        v >> 1 <= 0x7fff_ffff,
        v & 1 <= 1,
        w >> 1 <= 0x7fff_ffff_ffff_ffff,
        w & 1 <= 1,
{
    assert(v >> 1 <= 0x7fff_ffff && v & 1 <= 1) by (bit_vector);
    assert(w >> 1 <= 0x7fff_ffff_ffff_ffff && w & 1 <= 1) by (bit_vector);
}

/// The bit formula for unfolding at 32 bits computes [`unzigzag`]; `mask` stands for the negated
/// low bit.
pub proof fn lemma_unfold_32(v: u32, mask: i32)
    requires
        v & 1 == 0 ==> mask == 0,
        v & 1 != 0 ==> mask == -1,
    ensures
        v >> 1 <= 0x7fff_ffff,
        v & 1 <= 1,
        (((v >> 1) as i32) ^ mask) as int == unzigzag(v as int),
{
    let h = (v >> 1) as i32;
    assert(v >> 1 <= 0x7fff_ffff && v & 1 <= 1 && ((v & 1 == 0) <==> v % 2 == 0) && v >> 1 == v
        / 2) by (bit_vector);
    assert(h ^ 0 == h && (0 <= h ==> (h ^ (-1i32)) == -h - 1)) by (bit_vector);
}

/// The bit formula for unfolding at 64 bits computes [`unzigzag`]; `mask` stands for the negated
/// low bit.
pub proof fn lemma_unfold_64(v: u64, mask: i64)
    requires
        v & 1 == 0 ==> mask == 0,
        v & 1 != 0 ==> mask == -1,
    ensures
        v >> 1 <= 0x7fff_ffff_ffff_ffff,
        v & 1 <= 1,
        (((v >> 1) as i64) ^ mask) as int == unzigzag(v as int),
{
    let h = (v >> 1) as i64;
    assert(v >> 1 <= 0x7fff_ffff_ffff_ffff && v & 1 <= 1 && ((v & 1 == 0) <==> v % 2 == 0) && v
        >> 1 == v / 2) by (bit_vector);
    assert(h ^ 0 == h && (0 <= h ==> (h ^ (-1i64)) == -h - 1)) by (bit_vector);
}

} // verus!
