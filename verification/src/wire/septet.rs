//! The seven-bit packing of binary data.
//!
//! Bytes are regrouped so that no output byte has its high bit set. A group of up to seven
//! bytes becomes one byte more than it holds: each output byte takes the next seven bits, and
//! the last one holds the bits that are left, right-aligned.
use vstd::prelude::*;

verus! {

/// Output byte `i` of a group of `group.len()` bytes, which is between one and seven; `i` runs
/// from zero to that length.
pub open spec fn septet(group: Seq<u8>, i: int) -> u8 {
    let k = group.len() as int;
    if i == 0 {
        group[0] >> 1u8
    } else if i < k {
        ((group[i - 1] << ((7 - i) as u8)) & 0x7f) | (group[i] >> ((i + 1) as u8))
    } else {
        ((group[k - 1] << ((7 - k) as u8)) & 0x7f) >> ((7 - k) as u8)
    }
}

/// The packed form of one group.
pub open spec fn pack_group(group: Seq<u8>) -> Seq<u8> {
    Seq::new(group.len() + 1, |i: int| septet(group, i))
}

/// The packed form of a byte string: its groups of seven, packed one after the other, and the
/// shorter group that may be left at the end.
pub open spec fn pack(bytes: Seq<u8>) -> Seq<u8>
    decreases bytes.len(),
{
    if bytes.len() == 0 {
        Seq::empty()
    } else if bytes.len() <= 7 {
        pack_group(bytes)
    } else {
        pack_group(bytes.take(7)) + pack(bytes.skip(7))
    }
}

/// The number of bytes that the packed form of `raw_len` bytes has.
pub open spec fn packed_len(raw_len: nat) -> nat {
    8 * (raw_len / 7) + if raw_len % 7 == 0 {
        0
    } else {
        raw_len % 7 + 1
    }
}

/// Byte `i` of the group of `k` bytes that the `k + 1` bytes of `packed` stand for. Where the
/// group is shorter than seven, its last output byte is first moved back to the left.
pub open spec fn unpack_byte(packed: Seq<u8>, k: int, i: int) -> u8 {
    let next = if i + 1 == k && k < 7 {
        packed[k] << ((7 - k) as u8)
    } else {
        packed[i + 1]
    };
    (packed[i] << ((i + 1) as u8)) | (next >> ((6 - i) as u8))
}

/// The group of `k` bytes that `packed` stands for.
pub open spec fn unpack_group(packed: Seq<u8>, k: int) -> Seq<u8> {
    Seq::new(k as nat, |i: int| unpack_byte(packed, k, i))
}

/// The `raw_len` bytes that `packed` stands for, which has `packed_len(raw_len)` bytes.
pub open spec fn unpack(packed: Seq<u8>, raw_len: nat) -> Seq<u8>
    decreases raw_len,
{
    if raw_len == 0 {
        Seq::empty()
    } else if raw_len <= 7 {
        unpack_group(packed, raw_len as int)
    } else {
        unpack_group(packed.take(8), 7) + unpack(packed.skip(8), (raw_len - 7) as nat)
    }
}

proof fn lemma_inner_byte(p: u8, c: u8, n: u8, i: u8)
    by (bit_vector)
    requires
        i < 6,
    ensures
        ({
            let ei = if i == 0 {
                c >> 1u8
            } else {
                ((p << ((7 - i) as u8)) & 0x7f) | (c >> ((i + 1) as u8))
            };
            let en = ((c << ((7 - (i + 1)) as u8)) & 0x7f) | (n >> ((i + 1 + 1) as u8));
            ((ei << ((i + 1) as u8)) | (en >> ((6 - i) as u8))) == c
        }),
        ({
            let ei = if i == 0 {
                c >> 1u8
            } else {
                ((p << ((7 - i) as u8)) & 0x7f) | (c >> ((i + 1) as u8))
            };
            ei < 128
        }),
{
}

proof fn lemma_last_byte(p: u8, c: u8, k: u8)
    by (bit_vector)
    requires
        1 <= k <= 7,
    ensures
        ({
            let i = (k - 1) as u8;
            let ei = if i == 0 {
                c >> 1u8
            } else {
                ((p << ((7 - i) as u8)) & 0x7f) | (c >> ((i + 1) as u8))
            };
            let ek = ((c << ((7 - k) as u8)) & 0x7f) >> ((7 - k) as u8);
            let next = if k < 7 {
                ek << ((7 - k) as u8)
            } else {
                ek
            };
            ((ei << ((i + 1) as u8)) | (next >> ((6 - i) as u8))) == c && ei < 128 && ek < 128
        }),
{
}

/// Unpacking a packed group gives the group back, and no packed byte has its high bit set.
pub proof fn lemma_group_round_trip(group: Seq<u8>)
    requires
        1 <= group.len() <= 7,
    ensures
        unpack_group(pack_group(group), group.len() as int) == group,
        forall|i: int| 0 <= i <= group.len() ==> #[trigger] pack_group(group)[i] < 128,
{
    let k = group.len() as int;
    let e = pack_group(group);
    assert forall|i: int| 0 <= i < k implies unpack_byte(e, k, i) == group[i] by {
        let p = if i > 0 {
            group[i - 1]
        } else {
            0u8
        };
        if i + 1 < k {
            lemma_inner_byte(p, group[i], group[i + 1], i as u8);
        } else {
            lemma_last_byte(p, group[i], k as u8);
        }
    }
    assert(unpack_group(e, k) =~= group);
    assert forall|i: int| 0 <= i <= k implies #[trigger] e[i] < 128 by {
        if i < k {
            let p = if i > 0 {
                group[i - 1]
            } else {
                0u8
            };
            if i + 1 < k {
                lemma_inner_byte(p, group[i], group[i + 1], i as u8);
            } else {
                lemma_last_byte(p, group[i], k as u8);
            }
        } else {
            let p = if k > 1 {
                group[k - 2]
            } else {
                0u8
            };
            lemma_last_byte(p, group[k - 1], k as u8);
        }
    }
}

/// The packed form has the length that the format's formula gives.
pub proof fn lemma_pack_len(bytes: Seq<u8>)
    ensures
        pack(bytes).len() == packed_len(bytes.len()),
    decreases bytes.len(),
{
    if bytes.len() > 7 {
        lemma_pack_len(bytes.skip(7));
    }
}

/// Behind whole groups of seven, packing goes on as from the start.
pub proof fn lemma_pack_append(head: Seq<u8>, rest: Seq<u8>)
    requires
        head.len() % 7 == 0,
    ensures
        pack(head + rest) == pack(head) + pack(rest),
    decreases head.len(),
{
    let all = head + rest;
    if head.len() == 0 {
        assert(all =~= rest);
        assert(pack(head) + pack(rest) =~= pack(rest));
    } else {
        assert(head.len() >= 7);
        let tail = head.skip(7);
        lemma_pack_append(tail, rest);
        assert(all.take(7) =~= head.take(7));
        assert(all.skip(7) =~= tail + rest);
        if all.len() == 7 {
            assert(rest.len() == 0);
            assert(all =~= head);
        } else if head.len() == 7 {
            assert(tail.len() == 0);
            assert(head.take(7) =~= head);
            assert(pack(tail + rest) =~= pack(rest));
        } else {
            assert(pack(head) + pack(rest) =~= pack_group(head.take(7)) + (pack(tail) + pack(
                rest,
            )));
        }
    }
}

/// No byte of a packed form has its high bit set.
pub proof fn lemma_pack_seven_bit(bytes: Seq<u8>)
    ensures
        forall|i: int| 0 <= i < pack(bytes).len() ==> #[trigger] pack(bytes)[i] < 128,
    decreases bytes.len(),
{
    if bytes.len() == 0 {
    } else if bytes.len() <= 7 {
        lemma_group_round_trip(bytes);
    } else {
        let head = pack_group(bytes.take(7));
        let tail = pack(bytes.skip(7));
        lemma_group_round_trip(bytes.take(7));
        lemma_pack_seven_bit(bytes.skip(7));
        assert forall|i: int| 0 <= i < pack(bytes).len() implies #[trigger] pack(bytes)[i]
            < 128 by {
            if i < 8 {
                assert(pack(bytes)[i] == head[i]);
            } else {
                assert(pack(bytes)[i] == tail[i - 8]);
            }
        }
    }
}

/// Unpacking the packed form of a byte string gives the byte string back.
pub proof fn lemma_unpack_pack(bytes: Seq<u8>)
    ensures
        unpack(pack(bytes), bytes.len()) == bytes,
    decreases bytes.len(),
{
    if bytes.len() == 0 {
    } else if bytes.len() <= 7 {
        lemma_group_round_trip(bytes);
    } else {
        let head = bytes.take(7);
        let tail = bytes.skip(7);
        lemma_group_round_trip(head);
        lemma_unpack_pack(tail);
        let e = pack(bytes);
        assert(e.take(8) =~= pack_group(head));
        assert(e.skip(8) =~= pack(tail));
        assert(head + tail =~= bytes);
    }
}

} // verus!
