//! Variable-length unsigned integers.
//!
//! A VInt is a run of bytes of which the last one, and only the last, has its high bit set. The
//! bytes before it give seven bits each, the last one gives six, most significant group first.
use crate::error::ErrorKind;
use vstd::prelude::*;

verus! {

/// The accumulator after a byte that is not the last one.
pub open spec fn step(acc: u64, b: u8) -> u64 {
    (acc << 7) | ((b as u64) & 0x7f)
}

/// The value after the last byte. The byte is masked to seven bits, as a decoder does that
/// trusts the writer to have left bit six clear.
pub open spec fn last_step(acc: u64, b: u8) -> u64 {
    (acc << 6) | ((b as u64) & 0x7f)
}

/// Whether a byte ends a VInt.
pub open spec fn is_last(b: u8) -> bool {
    b & 0x80 != 0
}

/// Reading on from position `taken` with the accumulator `acc`, at most `limit` bytes in all.
/// Gives the value with the position behind its last byte.
pub open spec fn scan(input: Seq<u8>, limit: nat, taken: nat, acc: u64) -> Result<
    (u64, nat),
    ErrorKind,
>
    decreases limit - taken,
{
    if taken >= limit {
        Err(ErrorKind::UnterminatedVint)
    } else if taken >= input.len() {
        Err(ErrorKind::EofWhileParsingValue)
    } else {
        let b = input[taken as int];
        if is_last(b) {
            Ok((last_step(acc, b), taken + 1))
        } else {
            scan(input, limit, taken + 1, step(acc, b))
        }
    }
}

/// The VInt at the start of `input`, read with a limit of `limit` bytes: its value and its
/// length, `UnterminatedVint` where `limit` bytes hold no last byte, `EofWhileParsingValue`
/// where the input ends before that.
pub open spec fn decode(input: Seq<u8>, limit: nat) -> Result<(u64, nat), ErrorKind> {
    scan(input, limit, 0, 0)
}

/// The seven-bit groups of `v`, most significant first, without leading zero groups.
pub open spec fn groups(v: nat) -> Seq<u8>
    decreases v,
{
    if v == 0 {
        Seq::empty()
    } else {
        groups(v / 128).push((v % 128) as u8)
    }
}

/// The bytes that stand for `v`: the groups of all but its low six bits, then the low six bits
/// with the high bit set.
pub open spec fn encode(v: u64) -> Seq<u8> {
    groups((v / 64) as nat).push((128 + v % 64) as u8)
}

/// A VInt that is read ends behind where the reading started, within the input and within the
/// limit.
pub proof fn lemma_scan_len(input: Seq<u8>, limit: nat, taken: nat, acc: u64)
    ensures
        scan(input, limit, taken, acc) matches Ok((_, n)) ==> taken < n <= input.len() && n
            <= limit,
    decreases limit - taken,
{
    if taken < limit && taken < input.len() && !is_last(input[taken as int]) {
        lemma_scan_len(input, limit, taken + 1, step(acc, input[taken as int]));
    }
}

/// The accumulator after a run of bytes none of which is the last.
pub open spec fn fold(run: Seq<u8>) -> u64
    decreases run.len(),
{
    if run.len() == 0 {
        0
    } else {
        step(fold(run.drop_last()), run.last())
    }
}

/// `128` to the power `k`.
pub open spec fn pow128(k: nat) -> nat
    decreases k,
{
    if k == 0 {
        1
    } else {
        128 * pow128((k - 1) as nat)
    }
}

proof fn lemma_bits(acc: u64, b: u8)
    ensures
        !is_last(b) <==> b < 128,
        (acc < 0x0200_0000_0000_0000 && b < 128) ==> step(acc, b) == acc * 128 + b,
        (acc < 0x0400_0000_0000_0000 && 128 <= b < 192) ==> last_step(acc, b) == acc * 64 + (b
            - 128),
{
    assert((b & 0x80 == 0) <==> b < 128) by (bit_vector);
    assert((acc < 0x0200_0000_0000_0000 && b < 128) ==> ((acc << 7) | ((b as u64) & 0x7f)) == acc
        * 128 + b) by (bit_vector);
    assert((acc < 0x0400_0000_0000_0000 && 128 <= b < 192) ==> ((acc << 6) | ((b as u64) & 0x7f))
        == acc * 64 + (b - 128)) by (bit_vector);
}

/// The bit operations by which a writer cuts a number into groups give the groups of
/// [`encode`].
pub proof fn lemma_cut(v: u64)
    ensures
        ((v as u8) & 0x3f) | 0x80 == 128 + v % 64,
        v >> 6 == v / 64,
        (v as u8) & 0x7f == v % 128,
        v >> 7 == v / 128,
{
    assert((((v as u8) & 0x3f) | 0x80 == 128 + v % 64) && (v >> 6 == v / 64) && ((v as u8) & 0x7f
        == v % 128) && (v >> 7 == v / 128)) by (bit_vector);
}

/// A run of bytes that are not last ones is read through to its end.
pub proof fn lemma_scan_run(input: Seq<u8>, limit: nat, k: nat)
    requires
        k <= input.len(),
        k <= limit,
        forall|j: int| 0 <= j < k ==> !is_last(#[trigger] input[j]),
    ensures
        scan(input, limit, 0, 0) == scan(input, limit, k, fold(input.take(k as int))),
    decreases k,
{
    if k > 0 {
        let before = (k - 1) as nat;
        lemma_scan_run(input, limit, before);
        assert(input.take(k as int).drop_last() =~= input.take(before as int));
        assert(input.take(k as int).last() == input[before as int]);
    }
}

/// The groups of a number are bytes below 128, as many as the number has digits to the base
/// 128, and folding them gives the number back.
pub proof fn lemma_groups(w: nat, k: nat)
    requires
        w < pow128(k),
        k <= 9,
    ensures
        groups(w).len() <= k,
        forall|j: int| 0 <= j < groups(w).len() ==> !is_last(#[trigger] groups(w)[j]),
        w <= u64::MAX,
        fold(groups(w)) == w,
    decreases w,
{
    reveal_with_fuel(pow128, 10);
    if w > 0 {
        let rest = w / 128;
        assert(k > 0);
        assert(rest < pow128((k - 1) as nat));
        lemma_groups(rest, (k - 1) as nat);
        let g = groups(w);
        assert(g.drop_last() =~= groups(rest));
        lemma_bits(rest as u64, (w % 128) as u8);
        assert forall|j: int| 0 <= j < g.len() implies !is_last(#[trigger] g[j]) by {
            if j < g.len() - 1 {
                assert(g[j] == groups(rest)[j]);
            }
        }
    }
}

/// An encoding has at most ten bytes; that of a number of 32 bits has at most five.
pub proof fn lemma_encode_len(v: u64)
    ensures
        1 <= encode(v).len() <= 10,
        v <= u32::MAX ==> encode(v).len() <= 5,
{
    reveal_with_fuel(pow128, 10);
    lemma_groups((v / 64) as nat, 9);
    if v <= u32::MAX {
        lemma_groups((v / 64) as nat, 4);
    }
}

/// Decoding an encoded number gives the number and the length of its encoding, whatever
/// follows it, as soon as the limit admits that length; the ten bytes of the 64-bit limit
/// always do.
pub proof fn lemma_decode_encode(v: u64, rest: Seq<u8>, limit: nat)
    requires
        limit >= encode(v).len(),
    ensures
        decode(encode(v) + rest, limit) == Ok::<(u64, nat), ErrorKind>((v, encode(v).len())),
        1 <= encode(v).len() <= 10,
{
    reveal_with_fuel(pow128, 10);
    let w = (v / 64) as nat;
    let g = groups(w);
    let input = encode(v) + rest;
    let last = (128 + v % 64) as u8;
    lemma_groups(w, 9);
    assert forall|j: int| 0 <= j < g.len() implies !is_last(#[trigger] input[j]) by {
        assert(input[j] == g[j]);
    }
    lemma_scan_run(input, limit, g.len());
    assert(input.take(g.len() as int) =~= g);
    assert(input[g.len() as int] == last);
    lemma_bits(w as u64, last);
}

/// A VInt whose bytes are read from `taken` on, with an accumulator below `128` to the power
/// `k`, has a value below `64` times `128` to the power of the number of bytes before its
/// last one, as long as that number is at most eight and the last byte has bit six clear.
proof fn lemma_scan_bound(input: Seq<u8>, limit: nat, taken: nat, acc: u64, k: nat)
    requires
        acc < pow128(k),
        forall|i: int| 0 <= i < input.len() && is_last(#[trigger] input[i]) ==> input[i] < 192,
    ensures
        scan(input, limit, taken, acc) matches Ok((v, n)) ==> n > taken && (k + n - taken <= 9
            ==> v < 64 * pow128((k + n - taken - 1) as nat)),
    decreases limit - taken,
{
    reveal_with_fuel(pow128, 10);
    if taken < limit && taken < input.len() {
        let b = input[taken as int];
        lemma_bits(acc, b);
        if !is_last(b) {
            if k <= 8 {
                lemma_pow128_grows(k, 8);
                assert(step(acc, b) < pow128(k + 1));
                lemma_scan_bound(input, limit, taken + 1, step(acc, b), k + 1);
            } else {
                lemma_scan_len(input, limit, taken + 1, step(acc, b));
            }
        } else {
            if k <= 8 {
                lemma_pow128_grows(k, 8);
            }
        }
    }
}

/// The powers of `128` grow.
proof fn lemma_pow128_grows(i: nat, j: nat)
    requires
        i <= j,
    ensures
        pow128(i) <= pow128(j),
        pow128(i) >= 1,
    decreases j,
{
    if i < j {
        lemma_pow128_grows(i, (j - 1) as nat);
    } else if i > 0 {
        lemma_pow128_grows((i - 1) as nat, (i - 1) as nat);
    }
}

/// The encoding of a number is as short as a VInt of that value can be: no run of bytes that is
/// read as the number is shorter, where its last byte has bit six clear, as every last byte
/// has that a writer of the format makes.
pub proof fn lemma_encode_minimal(input: Seq<u8>, limit: nat, v: u64, n: nat)
    requires
        decode(input, limit) == Ok::<(u64, nat), ErrorKind>((v, n)),
        forall|i: int| 0 <= i < input.len() && is_last(#[trigger] input[i]) ==> input[i] < 192,
    ensures
        encode(v).len() <= n,
{
    reveal_with_fuel(pow128, 10);
    lemma_encode_len(v);
    lemma_scan_bound(input, limit, 0, 0, 0);
    if n <= 9 {
        lemma_groups((v / 64) as nat, (n - 1) as nat);
    }
}

} // verus!
