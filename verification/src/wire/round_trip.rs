//! Reading back what was written: every value that a serializer writes, a deserializer reads as
//! the same value, under every choice of features.
use crate::wire::bytes::{is_first_index, lemma_first_index};
use crate::error::ErrorKind;
use crate::wire::cache::{add_entry, agree, eligible, lemma_agree_add, lemma_agree_empty, push_entry};
use crate::wire::decode::{
    as_str, lemma_key_progress, lemma_tree_progress, lemma_value_progress, Item, Reader, DEPTH,
};
use crate::wire::encode::{
    big_decimal_token, big_integer_token, binary_token, double_token, float_token, i128_token,
    packed, u128_token, u64_token, Writer,
};
use crate::wire::header::{header, lemma_parse_header, Features};
use crate::wire::number::{
    be_bytes, double_septets, float_septets, int_token, lemma_be_round_trip,
    lemma_double_round_trip, lemma_float_round_trip, long_token, sign_extended,
};
use crate::wire::septet::{lemma_pack_len, lemma_unpack_pack, pack, packed_len};
use crate::wire::text::{key_literal, key_reference, string_literal, string_reference};
use crate::wire::tree::{distinct_keys, lemma_merged_same, Tree};
use crate::wire::vint;
use crate::wire::zigzag::{lemma_unzigzag_zigzag, lemma_zigzag_range, zigzag};
use vstd::prelude::*;
use vstd::utf8::{
    encode_scalar, encode_utf8, encode_utf8_decode_utf8, encode_utf8_valid_utf8, is_ascii_chars,
};

verus! {

/// Whether `a` is the start of `b`.
pub open spec fn prefix(a: Seq<u8>, b: Seq<u8>) -> bool {
    a.len() <= b.len() && b.take(a.len() as int) == a
}

/// Whether a writer's cache and a reader's cache are both absent, or both there and in
/// agreement.
pub open spec fn caches_agree(w: Option<Map<Seq<char>, u16>>, r: Option<Seq<Seq<char>>>) -> bool {
    match (w, r) {
        (Some(m), Some(e)) => agree(m, e),
        (None, None) => true,
        _ => false,
    }
}

/// Whether a reader stands, in the document `total`, where a writer has got to: the writer has
/// written its header and a start of `total`, the reader has the rest of `total` before it, and
/// their caches agree.
pub open spec fn linked(w: Writer, r: Reader, total: Seq<u8>) -> bool {
    &&& placed(w, r, total)
    &&& caches_agree(w.strings, r.strings)
    &&& caches_agree(w.properties, r.properties)
}

/// Whether a reader has before it what follows, in the document `total`, on what a writer has
/// written, the header being part of that.
pub open spec fn placed(w: Writer, r: Reader, total: Seq<u8>) -> bool {
    &&& w.header is None
    &&& prefix(w.out, total)
    &&& r.rest == total.skip(w.out.len() as int)
}

/// Whether a value can be written and read back with `depth` levels of nesting left: its
/// containers are nested less deep than that, its maps hold no key twice, its 64-bit integers
/// do not fit 32 bits (those that do are written, and so read, as 32-bit integers), and the
/// packed form of its binary data has a length that the platform's size type holds.
pub open spec fn readable(t: Tree, depth: nat) -> bool
    decreases t,
{
    match t {
        Tree::Long(v) => !(i32::MIN <= v <= i32::MAX),
        Tree::BigInteger(b) => packed_len(b.len()) <= usize::MAX,
        Tree::BigDecimal(_, b) => packed_len(b.len()) <= usize::MAX,
        Tree::Binary(b) => packed_len(b.len()) <= usize::MAX,
        Tree::Array(items) => depth > 1 && forall|i: int|
            0 <= i < items.len() ==> readable(#[trigger] items[i], (depth - 1) as nat),
        Tree::Object(entries) => depth > 1 && distinct_keys(entries) && forall|i: int|
            0 <= i < entries.len() ==> readable((#[trigger] entries[i]).1, (depth - 1) as nat),
        _ => true,
    }
}

/// A reader with this much of its input left.
pub open spec fn at(r: Reader, rest: Seq<u8>) -> Reader {
    Reader { rest, ..r }
}

/// What stands in a document behind what a writer has written, where the writer goes on to
/// write `token`.
pub proof fn lemma_next_token(w: Writer, total: Seq<u8>, token: Seq<u8>)
    requires
        prefix(w.out, total),
        prefix(w.out + token, total),
    ensures
        total.skip(w.out.len() as int) == token + total.skip((w.out.len() + token.len()) as int),
{
    let n = w.out.len() as int;
    let joined = w.out + token;
    assert(total.skip(n) =~= token + total.skip(n + token.len())) by {
        assert forall|i: int| 0 <= i < token.len() implies total[n + i] == token[i] by {
            assert(total.take(joined.len() as int)[n + i] == joined[n + i]);
        }
    }
}

/// A character is its code, which 32 bits hold.
pub proof fn lemma_char_code(c: char)
    ensures
        (c as u32) as int == c as int,
{
}

/// The bytes of a text: none of them is `0xF8` or above, so none is the end mark of a long
/// string; there are at least as many as the text has characters, and at least two where the
/// text is not ASCII.
pub proof fn lemma_text_bytes(s: Seq<char>)
    ensures
        forall|i: int| 0 <= i < encode_utf8(s).len() ==> #[trigger] encode_utf8(s)[i] < 0xf8,
        encode_utf8(s).len() >= s.len(),
        !is_ascii_chars(s) ==> encode_utf8(s).len() >= 2,
    decreases s.len(),
{
    if s.len() > 0 {
        let c = s[0] as u32;
        let head = encode_scalar(c);
        let rest = s.drop_first();
        let tail = encode_utf8(rest);
        lemma_text_bytes(rest);
        vstd::utf8::char_is_scalar(s[0]);
        assert(((c & 0x7F) as u8) < 0xf8 && (0xC0u8 | (((c >> 6) & 0x1F) as u8)) < 0xf8 && (0xE0u8
            | (((c >> 12) & 0x0F) as u8)) < 0xf8 && (0xF0u8 | (((c >> 18) & 0x7) as u8)) < 0xf8 && (
        0x80u8 | ((c & 0x3F) as u8)) < 0xf8 && (0x80u8 | (((c >> 6) & 0x3F) as u8)) < 0xf8 && (
        0x80u8 | (((c >> 12) & 0x3F) as u8)) < 0xf8) by (bit_vector);
        assert forall|i: int| 0 <= i < encode_utf8(s).len() implies #[trigger] encode_utf8(s)[i]
            < 0xf8 by {
            if i < head.len() {
                assert(encode_utf8(s)[i] == head[i]);
            } else {
                assert(encode_utf8(s)[i] == tail[i - head.len()]);
            }
        }
        lemma_char_code(s[0]);
        if c <= 0x7f && is_ascii_chars(rest) {
            assert(s[0] <= '\u{7f}');
            assert forall|i: int| 0 <= i < s.len() implies '\0' <= #[trigger] s[i] <= '\u{7f}' by {
                if i > 0 {
                    assert(s[i] == rest[i - 1]);
                    assert('\0' <= rest[i - 1] <= '\u{7f}');
                }
            }
            assert(is_ascii_chars(s));
        }
    }
}

/// A VInt that was written is read as the number it stands for, whatever follows it, where
/// the limit admits its length; five bytes do for a number of 32 bits, ten for any.
pub proof fn lemma_read_vint(r: Reader, v: u64, tail: Seq<u8>, limit: nat)
    requires
        r.rest == vint::encode(v) + tail,
        limit >= 10 || (limit >= 5 && v <= u32::MAX),
    ensures
        r.vint(limit) == Ok::<(u64, Reader), (ErrorKind, Reader)>((v, at(r, tail))),
{
    vint::lemma_encode_len(v);
    vint::lemma_decode_encode(v, tail, limit);
    assert(r.rest.skip(vint::encode(v).len() as int) =~= tail);
}

/// Binary data that was written packed is read as it was, whatever follows it.
pub proof fn lemma_read_packed(r: Reader, b: Seq<u8>, tail: Seq<u8>)
    requires
        r.rest == packed(b) + tail,
        packed_len(b.len()) <= usize::MAX,
    ensures
        r.packed() == Ok::<(Seq<u8>, Reader), (ErrorKind, Reader)>((b, at(r, tail))),
{
    let len = b.len() as u64;
    let after = pack(b) + tail;
    assert(r.rest =~= vint::encode(len) + after);
    lemma_read_vint(r, len, after, 10);
    lemma_pack_len(b);
    lemma_unpack_pack(b);
    let r1 = at(r, after);
    assert(after.take(pack(b).len() as int) =~= pack(b));
    assert(after.skip(pack(b).len() as int) =~= tail);
}

/// The tokens of one byte are read as what they stand for.
pub proof fn lemma_read_simple(r: Reader, tail: Seq<u8>)
    ensures
        r.rest == seq![0x20u8] + tail ==> r.value() == Ok::<(Item, Reader), (ErrorKind, Reader)>(
            (Item::Str(Seq::empty()), at(r, tail)),
        ),
        r.rest == seq![0x21u8] + tail ==> r.value() == Ok::<(Item, Reader), (ErrorKind, Reader)>(
            (Item::Null, at(r, tail)),
        ),
        r.rest == seq![0x22u8] + tail ==> r.value() == Ok::<(Item, Reader), (ErrorKind, Reader)>(
            (Item::Bool(false), at(r, tail)),
        ),
        r.rest == seq![0x23u8] + tail ==> r.value() == Ok::<(Item, Reader), (ErrorKind, Reader)>(
            (Item::Bool(true), at(r, tail)),
        ),
{
    reveal(Reader::value);
    if r.rest.len() > 0 && r.rest.skip(1) == tail {
        assert(r.skip(1) == at(r, tail));
    }
    assert((seq![0x20u8] + tail).skip(1) =~= tail);
    assert((seq![0x21u8] + tail).skip(1) =~= tail);
    assert((seq![0x22u8] + tail).skip(1) =~= tail);
    assert((seq![0x23u8] + tail).skip(1) =~= tail);
}

/// A 32-bit integer that was written is read as it was.
pub proof fn lemma_read_int(r: Reader, v: i32, tail: Seq<u8>)
    requires
        r.rest == int_token(v) + tail,
    ensures
        r.value() == Ok::<(Item, Reader), (ErrorKind, Reader)>((Item::I32(v), at(r, tail))),
{
    reveal(Reader::value);
    let z = zigzag(v as int);
    lemma_zigzag_range(v as int);
    lemma_unzigzag_zigzag(v as int);
    if z < 32 {
        assert(r.rest.skip(1) =~= tail);
    } else {
        let r1 = r.skip(1);
        assert(r1.rest =~= vint::encode(z as u64) + tail);
        lemma_read_vint(r1, z as u64, tail, 5);
    }
}

/// A 64-bit integer that was written with the lead byte of its own is read as it was.
pub proof fn lemma_read_long(r: Reader, v: i64, tail: Seq<u8>)
    requires
        r.rest == seq![0x25u8] + vint::encode(zigzag(v as int) as u64) + tail,
    ensures
        r.value() == Ok::<(Item, Reader), (ErrorKind, Reader)>((Item::I64(v), at(r, tail))),
{
    reveal(Reader::value);
    let z = zigzag(v as int);
    lemma_zigzag_range(v as int);
    lemma_unzigzag_zigzag(v as int);
    let r1 = r.skip(1);
    assert(r1.rest =~= vint::encode(z as u64) + tail);
    lemma_read_vint(r1, z as u64, tail, 10);
}

/// The bit patterns of floating-point values that were written are read as they were.
pub proof fn lemma_read_float(r: Reader, tail: Seq<u8>, single: u32, double: u64)
    ensures
        r.rest == float_token(single) + tail ==> r.value() == Ok::<(Item, Reader), (ErrorKind, Reader)>(
            (Item::F32(single), at(r, tail)),
        ),
        r.rest == double_token(double) + tail ==> r.value() == Ok::<(Item, Reader), (ErrorKind, Reader)>(
            (Item::F64(double), at(r, tail)),
        ),
{
    reveal(Reader::value);
    lemma_float_round_trip(single);
    lemma_double_round_trip(double);
    if r.rest == float_token(single) + tail {
        let r1 = r.skip(1);
        assert(r1.rest =~= float_septets(single) + tail);
        assert(r1.rest.take(5) =~= float_septets(single));
        assert(r1.rest.skip(5) =~= tail);
    }
    if r.rest == double_token(double) + tail {
        let r1 = r.skip(1);
        assert(r1.rest =~= double_septets(double) + tail);
        assert(r1.rest.take(10) =~= double_septets(double));
        assert(r1.rest.skip(10) =~= tail);
    }
}

/// Binary data that was written, raw or packed, is read as it was.
pub proof fn lemma_read_binary(r: Reader, raw: bool, b: Seq<u8>, tail: Seq<u8>)
    requires
        r.rest == binary_token(raw, b) + tail,
        packed_len(b.len()) <= usize::MAX,
    ensures
        r.value() == Ok::<(Item, Reader), (ErrorKind, Reader)>((Item::Bytes(b), at(r, tail))),
{
    reveal(Reader::value);
    let r1 = r.skip(1);
    if raw {
        let len = b.len() as u64;
        assert(r1.rest =~= vint::encode(len) + (b + tail));
        lemma_read_vint(r1, len, b + tail, 10);
        assert((b + tail).take(b.len() as int) =~= b);
        assert((b + tail).skip(b.len() as int) =~= tail);
    } else {
        assert(r1.rest =~= packed(b) + tail);
        lemma_read_packed(r1, b, tail);
    }
}

/// A big decimal that was written is read as it was.
pub proof fn lemma_read_big_decimal(r: Reader, scale: i32, b: Seq<u8>, tail: Seq<u8>)
    requires
        r.rest == big_decimal_token(scale, b) + tail,
        packed_len(b.len()) <= usize::MAX,
    ensures
        r.value() == Ok::<(Item, Reader), (ErrorKind, Reader)>((Item::BigDecimal(scale, b), at(r, tail))),
{
    reveal(Reader::value);
    let z = zigzag(scale as int);
    lemma_zigzag_range(scale as int);
    lemma_unzigzag_zigzag(scale as int);
    let r1 = r.skip(1);
    assert(r1.rest =~= vint::encode(z as u64) + (packed(b) + tail));
    lemma_read_vint(r1, z as u64, packed(b) + tail, 5);
    lemma_read_packed(at(r1, packed(b) + tail), b, tail);
}

/// What a signed integer is read as: the narrowest of the integers of 32, 64 and 128 bits
/// that holds it.
pub open spec fn signed_item(v: i128) -> Item {
    if i32::MIN <= v <= i32::MAX {
        Item::I32(v as i32)
    } else if i64::MIN <= v <= i64::MAX {
        Item::I64(v as i64)
    } else {
        Item::I128(v)
    }
}

/// What an unsigned integer of 64 bits is read as: a signed integer where one of 64 bits holds
/// it, else itself.
pub open spec fn u64_item(v: u64) -> Item {
    if v <= i64::MAX {
        signed_item(v as i128)
    } else {
        Item::U64(v)
    }
}

/// What an unsigned integer of 128 bits is read as: a signed integer where one holds it, else
/// itself.
pub open spec fn u128_item(v: u128) -> Item {
    if v <= i128::MAX {
        signed_item(v as i128)
    } else {
        Item::U128(v)
    }
}

/// A big integer that was written is read as a token: as the machine integer that its bytes
/// stand for where there are at most sixteen of them, or seventeen with a zero in front.
pub proof fn lemma_read_big_integer(r: Reader, b: Seq<u8>, tail: Seq<u8>)
    requires
        r.rest == big_integer_token(b) + tail,
        packed_len(b.len()) <= usize::MAX,
    ensures
        r.value() == Ok::<(Item, Reader), (ErrorKind, Reader)>(
            (crate::wire::decode::big_integer_item(b), at(r, tail)),
        ),
{
    reveal(Reader::value);
    let r1 = r.skip(1);
    assert(r1.rest =~= packed(b) + tail);
    lemma_read_packed(r1, b, tail);
}

/// Integers. An integer of any width that was written, as the narrowest token that holds it,
/// is read as the same integer.
pub proof fn theorem_integers(r: Reader, tail: Seq<u8>, signed: i128, wide: u128, unsigned: u64)
    ensures
        r.rest == i128_token(signed) + tail ==> r.value() == Ok::<(Item, Reader), (ErrorKind, Reader)>(
            (signed_item(signed), at(r, tail)),
        ),
        r.rest == u128_token(wide) + tail ==> r.value() == Ok::<(Item, Reader), (ErrorKind, Reader)>(
            (u128_item(wide), at(r, tail)),
        ),
        r.rest == u64_token(unsigned) + tail ==> r.value() == Ok::<(Item, Reader), (ErrorKind, Reader)>(
            (u64_item(unsigned), at(r, tail)),
        ),
{
    if r.rest == i128_token(signed) + tail {
        lemma_read_signed(r, signed, tail);
    }
    if r.rest == u128_token(wide) + tail {
        if wide <= i128::MAX {
            lemma_read_signed(r, wide as i128, tail);
        } else {
            let b = seq![0u8] + be_bytes(wide, 16);
            lemma_read_big_integer(r, b, tail);
            lemma_be_round_trip(wide, 16);
            assert(b.skip(1) =~= be_bytes(wide, 16));
        }
    }
    if r.rest == u64_token(unsigned) + tail {
        if unsigned <= i64::MAX {
            lemma_read_signed(r, unsigned as i128, tail);
        } else {
            let x = unsigned as u128;
            let b = seq![0u8] + be_bytes(x, 8);
            lemma_read_big_integer(r, b, tail);
            assert(x <= u64::MAX ==> x >> 64u128 == 0) by (bit_vector);
            lemma_be_round_trip(x, 8);
            assert(b.skip(1) =~= be_bytes(x, 8));
        }
    }
}

/// The part of [`theorem_integers`] that speaks of signed integers.
pub proof fn lemma_read_signed(r: Reader, v: i128, tail: Seq<u8>)
    requires
        r.rest == i128_token(v) + tail,
    ensures
        r.value() == Ok::<(Item, Reader), (ErrorKind, Reader)>((signed_item(v), at(r, tail))),
{
    if i32::MIN <= v <= i32::MAX {
        lemma_read_int(r, v as i32, tail);
    } else if i64::MIN <= v <= i64::MAX {
        lemma_read_long(r, v as i64, tail);
    } else {
        let x = v as u128;
        let b = be_bytes(x, 16);
        lemma_read_big_integer(r, b, tail);
        lemma_be_round_trip(x, 16);
        assert(sign_extended(b, 16) =~= b);
        assert((v as u128) as i128 == v) by (bit_vector);
    }
}

/// Where the end mark of a long text stands: behind the text.
pub proof fn lemma_until_end(r: Reader, s: Seq<char>, tail: Seq<u8>)
    requires
        r.rest == encode_utf8(s) + seq![0xfcu8] + tail,
    ensures
        r.until(0xfc) == Ok::<(Seq<u8>, Reader), (ErrorKind, Reader)>((encode_utf8(s), at(r, tail))),
{
    let b = encode_utf8(s);
    lemma_text_bytes(s);
    assert(is_first_index(r.rest, 0xfc, b.len() as int)) by {
        assert(r.rest[b.len() as int] == 0xfc);
        assert forall|j: int| 0 <= j < b.len() implies r.rest[j] != 0xfc by {
            assert(r.rest[j] == b[j]);
        }
    }
    lemma_first_index(r.rest, 0xfc, b.len() as int);
    assert(r.rest.take(b.len() as int) =~= b);
    assert(r.rest.skip(b.len() as int + 1) =~= tail);
}

/// A string value that was written out is read as it was, and the reader's cache takes it in
/// where it is not longer than 64 bytes.
pub proof fn lemma_read_string_literal(r: Reader, s: Seq<char>, tail: Seq<u8>)
    requires
        s.len() > 0,
        r.rest == string_literal(s) + tail,
    ensures
        r.value() == Ok::<(Item, Reader), (ErrorKind, Reader)>(
            (
                Item::Str(s),
                if encode_utf8(s).len() <= 64 {
                    at(r, tail).remember_string(encode_utf8(s))
                } else {
                    at(r, tail)
                },
            ),
        ),
{
    reveal(Reader::value);
    let b = encode_utf8(s);
    let n = b.len() as int;
    lemma_text_bytes(s);
    encode_utf8_valid_utf8(s);
    encode_utf8_decode_utf8(s);
    let r1 = r.skip(1);
    if n <= 64 {
        assert(r1.rest =~= b + tail);
        assert(r1.rest.take(n) =~= b);
        assert(r1.rest.skip(n) =~= tail);
        assert(r1.skip(n) == at(r, tail));
    } else {
        assert(r1.rest =~= b + seq![0xfcu8] + tail);
        lemma_until_end(r1, s, tail);
    }
}

/// The two bytes of a long back-reference hold its index.
pub proof fn lemma_reference_bits(index: u16)
    requires
        index < 1024,
    ensures
        0xec <= (0xecu8 | ((index >> 8) as u8)) <= 0xef,
        0x30 <= (0x30u8 | ((index >> 8) as u8)) <= 0x33,
        (((((0xecu8 | ((index >> 8) as u8)) - 0xec) as u8) as u16) << 8) | ((index as u8) as u16)
            == index,
        (((((0x30u8 | ((index >> 8) as u8)) - 0x30) as u8) as u16) << 8) | ((index as u8) as u16)
            == index,
{
    assert(index < 1024 ==> 0xec <= (0xecu8 | ((index >> 8) as u8)) <= 0xef && 0x30 <= (0x30u8 | ((
    index >> 8) as u8)) <= 0x33 && (((((0xecu8 | ((index >> 8) as u8)) - 0xec) as u8) as u16) << 8)
        | ((index as u8) as u16) == index && (((((0x30u8 | ((index >> 8) as u8)) - 0x30) as u8) as u16)
        << 8) | ((index as u8) as u16) == index) by (bit_vector);
}

/// A back-reference to a string value is read as the string under its index.
pub proof fn lemma_read_string_reference(r: Reader, index: u16, tail: Seq<u8>)
    requires
        index < 1024,
        r.rest == string_reference(index) + tail,
    ensures
        r.value() == as_str(at(r, tail).shared_string(index)),
{
    reveal(Reader::value);
    if index <= 30 {
        assert(r.rest.skip(1) =~= tail);
        assert(r.skip(1) == at(r, tail));
    } else {
        lemma_reference_bits(index);
        let r1 = r.skip(1);
        assert(r1.rest.skip(1) =~= tail);
        assert(r1.skip(1) == at(r, tail));
        assert(r1.rest[0] == index as u8);
    }
}

/// A key that was written out is read as it was, and the reader's cache takes it in where it
/// is not longer than 64 bytes. The empty key is read as it was.
pub proof fn lemma_read_key_literal(r: Reader, s: Seq<char>, tail: Seq<u8>)
    ensures
        s.len() > 0 && r.rest == key_literal(s) + tail ==> r.key() == Ok::<(Seq<char>, Reader), (ErrorKind, Reader)>((s, at(r, tail).remember_property(encode_utf8(s)))),
        r.rest == seq![0x20u8] + tail ==> r.key() == Ok::<(Seq<char>, Reader), (ErrorKind, Reader)>(
            (Seq::empty(), at(r, tail)),
        ),
{
    reveal(Reader::key);
    if r.rest == seq![0x20u8] + tail {
        assert(r.rest.skip(1) =~= tail);
        assert(r.skip(1) == at(r, tail));
    }
    if s.len() > 0 && r.rest == key_literal(s) + tail {
        let b = encode_utf8(s);
        let n = b.len() as int;
        lemma_text_bytes(s);
        encode_utf8_valid_utf8(s);
        encode_utf8_decode_utf8(s);
        let r1 = r.skip(1);
        if (n <= 64 && is_ascii_chars(s)) || n < 57 {
            assert(r1.rest =~= b + tail);
            assert(r1.rest.take(n) =~= b);
            assert(r1.rest.skip(n) =~= tail);
            assert(r1.skip(n) == at(r, tail));
        } else {
            assert(r1.rest =~= b + seq![0xfcu8] + tail);
            lemma_until_end(r1, s, tail);
        }
    }
}

/// A back-reference to a key is read as the key under its index.
pub proof fn lemma_read_key_reference(r: Reader, index: u16, tail: Seq<u8>)
    requires
        index < 1024,
        r.rest == key_reference(index) + tail,
    ensures
        r.key() == at(r, tail).shared_property(index),
{
    reveal(Reader::key);
    if index <= 63 {
        assert(r.rest.skip(1) =~= tail);
        assert(r.skip(1) == at(r, tail));
    } else {
        lemma_reference_bits(index);
        let r1 = r.skip(1);
        assert(r1.rest.skip(1) =~= tail);
        assert(r1.skip(1) == at(r, tail));
        assert(r1.rest[0] == index as u8);
    }
}

/// The start of a start is a start.
pub proof fn lemma_prefix_trans(a: Seq<u8>, b: Seq<u8>, c: Seq<u8>)
    requires
        prefix(a, b),
        prefix(b, c),
    ensures
        prefix(a, c),
{
    assert(c.take(a.len() as int) =~= c.take(b.len() as int).take(a.len() as int));
}

/// What is written stands behind what was written before.
pub proof fn lemma_write_grows(w: Writer, token: Seq<u8>)
    ensures
        prefix(w.out, w.write(token).out),
        w.header is None ==> w.token(token) == w.write(token),
{
    assert((w.out + token).take(w.out.len() as int) =~= w.out);
}

/// A string value is written behind what was written before.
pub proof fn lemma_string_grows(w: Writer, s: Seq<char>)
    requires
        w.header is None,
    ensures
        prefix(w.out, w.string(s).out),
        w.string(s).header is None,
        prefix(w.out, w.key(s).out),
        w.key(s).header is None,
{
    lemma_write_grows(w, seq![0x20u8]);
    let (w1, found) = w.share_string(s);
    match found {
        Some(index) => lemma_write_grows(w1, string_reference(index)),
        None => lemma_write_grows(w1, string_literal(s)),
    }
    let (w2, found2) = w.share_property(s);
    match found2 {
        Some(index) => lemma_write_grows(w2, key_reference(index)),
        None => lemma_write_grows(w2, key_literal(s)),
    }
}

/// A value is written behind what was written before, and so are the values of a sequence and
/// the entries of a map.
pub proof fn lemma_tree_grows(w: Writer, t: Tree)
    requires
        w.header is None,
    ensures
        prefix(w.out, w.tree(t).out),
        w.tree(t).header is None,
    decreases t, 0nat,
{
    match t {
        Tree::Null => lemma_write_grows(w, seq![0x21u8]),
        Tree::Boolean(v) => lemma_write_grows(
            w,
            seq![if v {
                0x23u8
            } else {
                0x22u8
            }],
        ),
        Tree::Integer(v) => lemma_write_grows(w, int_token(v)),
        Tree::Long(v) => lemma_write_grows(w, long_token(v)),
        Tree::BigInteger(v) => lemma_write_grows(w, big_integer_token(v)),
        Tree::Float(v) => lemma_write_grows(w, float_token(v)),
        Tree::Double(v) => lemma_write_grows(w, double_token(v)),
        Tree::BigDecimal(scale, v) => lemma_write_grows(w, big_decimal_token(scale, v)),
        Tree::String(v) => lemma_string_grows(w, v),
        Tree::Binary(v) => lemma_write_grows(w, binary_token(w.raw_binary, v)),
        Tree::Array(items) => {
            let w0 = w.write(seq![0xf8u8]);
            lemma_write_grows(w, seq![0xf8u8]);
            lemma_trees_grow(w0, items, 0);
            let w1 = w0.trees(items, 0);
            lemma_write_grows(w1, seq![0xf9u8]);
            lemma_prefix_trans(w.out, w0.out, w1.out);
            lemma_prefix_trans(w.out, w1.out, w1.write(seq![0xf9u8]).out);
        },
        Tree::Object(entries) => {
            let w0 = w.write(seq![0xfau8]);
            lemma_write_grows(w, seq![0xfau8]);
            lemma_entries_grow(w0, entries, 0);
            let w1 = w0.entries(entries, 0);
            lemma_write_grows(w1, seq![0xfbu8]);
            lemma_prefix_trans(w.out, w0.out, w1.out);
            lemma_prefix_trans(w.out, w1.out, w1.write(seq![0xfbu8]).out);
        },
    }
}

/// The part of [`lemma_tree_grows`] that speaks of the values of a sequence.
pub proof fn lemma_trees_grow(w: Writer, items: Seq<Tree>, from: int)
    requires
        w.header is None,
    ensures
        prefix(w.out, w.trees(items, from).out),
        w.trees(items, from).header is None,
    decreases items, items.len() - from,
{
    if 0 <= from < items.len() {
        let w1 = w.tree(items[from]);
        lemma_tree_grows(w, items[from]);
        lemma_trees_grow(w1, items, from + 1);
        lemma_prefix_trans(w.out, w1.out, w1.trees(items, from + 1).out);
    } else {
        assert(w.out.take(w.out.len() as int) =~= w.out);
    }
}

/// The part of [`lemma_tree_grows`] that speaks of the entries of a map.
pub proof fn lemma_entries_grow(w: Writer, entries: Seq<(Seq<char>, Tree)>, from: int)
    requires
        w.header is None,
    ensures
        prefix(w.out, w.entries(entries, from).out),
        w.entries(entries, from).header is None,
    decreases entries, entries.len() - from,
{
    if 0 <= from < entries.len() {
        let w1 = w.key(entries[from].0);
        lemma_string_grows(w, entries[from].0);
        let w2 = w1.tree(entries[from].1);
        lemma_tree_grows(w1, entries[from].1);
        lemma_entries_grow(w2, entries, from + 1);
        lemma_prefix_trans(w.out, w1.out, w2.out);
        lemma_prefix_trans(w.out, w2.out, w2.entries(entries, from + 1).out);
    } else {
        assert(w.out.take(w.out.len() as int) =~= w.out);
    }
}

/// Whether a result of reading is the value `v`, with the reader then standing where the
/// writer `w2` has got to, at the depth `depth`.
pub open spec fn read_as<T>(
    res: Result<(T, Reader), (ErrorKind, Reader)>,
    v: T,
    w2: Writer,
    total: Seq<u8>,
    depth: nat,
) -> bool {
    res matches Ok((got, r2)) && got == v && linked(w2, r2, total) && r2.depth == depth
}

/// The reader behind what was read.
pub open spec fn after<T>(res: Result<(T, Reader), (ErrorKind, Reader)>) -> Reader {
    match res {
        Ok((_, r)) => r,
        Err((_, r)) => r,
    }
}

/// A reader that stands where a writer has got to, behind the token that the writer goes on to
/// write.
pub proof fn lemma_step(w: Writer, r: Reader, total: Seq<u8>, token: Seq<u8>) -> (tail: Seq<u8>)
    requires
        placed(w, r, total),
        prefix(w.write(token).out, total),
    ensures
        r.rest == token + tail,
        tail == total.skip((w.out.len() + token.len()) as int),
        placed(w.write(token), at(r, tail), total),
        forall|r2: Reader| r2.rest == tail ==> placed(w.write(token), r2, total),
{
    lemma_next_token(w, total, token);
    total.skip((w.out.len() + token.len()) as int)
}

/// A value or a key that is read does not start with the end mark of a sequence or of a map.
pub proof fn lemma_lead(r: Reader)
    ensures
        r.tree() is Ok ==> r.rest.len() > 0 && r.rest[0] != 0xf9 && r.rest[0] != 0xfb,
        r.key() is Ok ==> r.rest.len() > 0 && r.rest[0] != 0xfb,
{
    reveal(Reader::value);
    reveal(Reader::key);
}

/// A token that opens no container and is no big integer is read as a value like as a token.
pub proof fn lemma_leaf(r: Reader, item: Item, r2: Reader, t: Tree)
    requires
        r.value() == Ok::<(Item, Reader), (ErrorKind, Reader)>((item, r2)),
        r.rest.len() > 0,
        r.rest[0] != 0x26,
        match item {
            Item::Null => t == Tree::Null,
            Item::Bool(v) => t == Tree::Boolean(v),
            Item::I32(v) => t == Tree::Integer(v),
            Item::I64(v) => t == Tree::Long(v),
            Item::F32(v) => t == Tree::Float(v),
            Item::F64(v) => t == Tree::Double(v),
            Item::BigDecimal(scale, v) => t == Tree::BigDecimal(scale, v),
            Item::Str(v) => t == Tree::String(v),
            Item::Bytes(v) => t == Tree::Binary(v),
            _ => false,
        },
    ensures
        r.tree() == Ok::<(Tree, Reader), (ErrorKind, Reader)>((t, r2)),
{
}

/// A key that was written is read as it was.
pub proof fn lemma_read_key(k: Seq<char>, w: Writer, r: Reader, total: Seq<u8>)
    requires
        linked(w, r, total),
        prefix(w.key(k).out, total),
    ensures
        read_as(r.key(), k, w.key(k), total, r.depth),
{
    if k.len() == 0 {
        let tail = lemma_step(w, r, total, seq![0x20u8]);
        lemma_read_key_literal(r, k, tail);
        assert(k =~= Seq::<char>::empty());
    } else {
        let (w1, found) = w.share_property(k);
        match found {
            Some(index) => {
                let tail = lemma_step(w, r, total, key_reference(index));
                lemma_read_key_reference(r, index, tail);
            },
            None => {
                let tail = lemma_step(w1, r, total, key_literal(k));
                lemma_read_key_literal(r, k, tail);
                encode_utf8_decode_utf8(k);
                match w.properties {
                    Some(m) if eligible(k) => {
                        lemma_agree_add(m, r.properties->0, k);
                    },
                    _ => {},
                }
            },
        }
    }
}

/// A string value that was written is read as it was.
pub proof fn lemma_read_string(s: Seq<char>, w: Writer, r: Reader, total: Seq<u8>)
    requires
        linked(w, r, total),
        prefix(w.string(s).out, total),
    ensures
        read_as(r.tree(), Tree::String(s), w.string(s), total, r.depth),
{
    if s.len() == 0 {
        let tail = lemma_step(w, r, total, seq![0x20u8]);
        lemma_read_simple(r, tail);
        assert(s =~= Seq::<char>::empty());
        lemma_leaf(r, Item::Str(s), at(r, tail), Tree::String(s));
    } else {
        let (w1, found) = w.share_string(s);
        match found {
            Some(index) => {
                let tail = lemma_step(w, r, total, string_reference(index));
                lemma_read_string_reference(r, index, tail);
                lemma_reference_bits(index);
                lemma_leaf(r, Item::Str(s), at(r, tail), Tree::String(s));
            },
            None => {
                let tail = lemma_step(w1, r, total, string_literal(s));
                lemma_read_string_literal(r, s, tail);
                encode_utf8_decode_utf8(s);
                lemma_text_bytes(s);
                match w.strings {
                    Some(m) if eligible(s) => {
                        lemma_agree_add(m, r.strings->0, s);
                    },
                    _ => {},
                }
                let r2 = if encode_utf8(s).len() <= 64 {
                    at(r, tail).remember_string(encode_utf8(s))
                } else {
                    at(r, tail)
                };
                lemma_leaf(r, Item::Str(s), r2, Tree::String(s));
            },
        }
    }
}

/// A value that was written is read as it was, wherever in a document it stands: the reader
/// that stands where the writer stood before the value reads the value, and then stands where
/// the writer has got to, with its caches in agreement with the writer's and at the depth at
/// which it started.
pub proof fn lemma_read_tree(t: Tree, w: Writer, r: Reader, total: Seq<u8>)
    requires
        linked(w, r, total),
        prefix(w.tree(t).out, total),
        readable(t, r.depth),
        r.depth <= DEPTH,
    ensures
        read_as(r.tree(), t, w.tree(t), total, r.depth),
    decreases t, 0nat,
{
    match t {
        Tree::Null => {
            let tail = lemma_step(w, r, total, seq![0x21u8]);
            lemma_read_simple(r, tail);
            lemma_leaf(r, Item::Null, at(r, tail), t);
        },
        Tree::Boolean(v) => {
            let tail = lemma_step(
                w,
                r,
                total,
                seq![if v {
                    0x23u8
                } else {
                    0x22u8
                }],
            );
            lemma_read_simple(r, tail);
            lemma_leaf(r, Item::Bool(v), at(r, tail), t);
        },
        Tree::Integer(v) => {
            let tail = lemma_step(w, r, total, int_token(v));
            lemma_read_int(r, v, tail);
            lemma_zigzag_range(v as int);
            lemma_leaf(r, Item::I32(v), at(r, tail), t);
        },
        Tree::Long(v) => {
            let tail = lemma_step(w, r, total, long_token(v));
            lemma_read_long(r, v, tail);
            lemma_leaf(r, Item::I64(v), at(r, tail), t);
        },
        Tree::BigInteger(v) => {
            let tail = lemma_step(w, r, total, big_integer_token(v));
            let r1 = r.skip(1);
            assert(r1.rest =~= packed(v) + tail);
            lemma_read_packed(r1, v, tail);
        },
        Tree::Float(v) => {
            let tail = lemma_step(w, r, total, float_token(v));
            lemma_read_float(r, tail, v, 0);
            lemma_leaf(r, Item::F32(v), at(r, tail), t);
        },
        Tree::Double(v) => {
            let tail = lemma_step(w, r, total, double_token(v));
            lemma_read_float(r, tail, 0, v);
            lemma_leaf(r, Item::F64(v), at(r, tail), t);
        },
        Tree::BigDecimal(scale, v) => {
            let tail = lemma_step(w, r, total, big_decimal_token(scale, v));
            lemma_read_big_decimal(r, scale, v, tail);
            lemma_leaf(r, Item::BigDecimal(scale, v), at(r, tail), t);
        },
        Tree::String(v) => {
            lemma_read_string(v, w, r, total);
        },
        Tree::Binary(v) => {
            let tail = lemma_step(w, r, total, binary_token(w.raw_binary, v));
            lemma_read_binary(r, w.raw_binary, v, tail);
            lemma_leaf(r, Item::Bytes(v), at(r, tail), t);
        },
        Tree::Array(items) => {
            let w0 = w.write(seq![0xf8u8]);
            let w1 = w0.trees(items, 0);
            let w2 = w1.write(seq![0xf9u8]);
            lemma_trees_grow(w0, items, 0);
            lemma_write_grows(w1, seq![0xf9u8]);
            lemma_prefix_trans(w1.out, w2.out, total);
            lemma_prefix_trans(w0.out, w1.out, total);
            let tail = lemma_step(w, r, total, seq![0xf8u8]);
            let r0 = Reader { depth: (r.depth - 1) as nat, ..at(r, tail) };
            assert(r.value() == Ok::<(Item, Reader), (ErrorKind, Reader)>((Item::SeqStart, r0))) by {
                reveal(Reader::value);
                assert(r.rest.skip(1) =~= tail);
            }
            assert forall|i: int| 0 <= i < items.len() implies readable(
                #[trigger] items[i],
                r0.depth,
            ) by {}
            lemma_read_elements(items, 0, w0, r0, total);
            assert(items.skip(0) =~= items);
            let r1 = after(r0.elements());
            let end = lemma_step(w1, r1, total, seq![0xf9u8]);
            assert(r1.rest.skip(1) =~= end);
        },
        Tree::Object(entries) => {
            let w0 = w.write(seq![0xfau8]);
            let w1 = w0.entries(entries, 0);
            let w2 = w1.write(seq![0xfbu8]);
            lemma_entries_grow(w0, entries, 0);
            lemma_write_grows(w1, seq![0xfbu8]);
            lemma_prefix_trans(w1.out, w2.out, total);
            lemma_prefix_trans(w0.out, w1.out, total);
            let tail = lemma_step(w, r, total, seq![0xfau8]);
            let r0 = Reader { depth: (r.depth - 1) as nat, ..at(r, tail) };
            assert(r.value() == Ok::<(Item, Reader), (ErrorKind, Reader)>((Item::MapStart, r0))) by {
                reveal(Reader::value);
                assert(r.rest.skip(1) =~= tail);
            }
            assert forall|i: int| 0 <= i < entries.len() implies readable(
                (#[trigger] entries[i]).1,
                r0.depth,
            ) by {}
            lemma_read_entries(entries, 0, w0, r0, total);
            assert(entries.skip(0) =~= entries);
            lemma_merged_same(entries);
            let r1 = after(r0.entries());
            let end = lemma_step(w1, r1, total, seq![0xfbu8]);
            assert(r1.rest.skip(1) =~= end);
        },
    }
}

/// The part of [`lemma_read_tree`] that speaks of the values of a sequence, from the index
/// `from` on, up to the end mark that is written behind them.
pub proof fn lemma_read_elements(
    items: Seq<Tree>,
    from: int,
    w: Writer,
    r: Reader,
    total: Seq<u8>,
)
    requires
        0 <= from <= items.len(),
        linked(w, r, total),
        prefix(w.trees(items, from).write(seq![0xf9u8]).out, total),
        forall|i: int| 0 <= i < items.len() ==> readable(#[trigger] items[i], r.depth),
        r.depth <= DEPTH,
    ensures
        read_as(r.elements(), items.skip(from), w.trees(items, from), total, r.depth),
    decreases items, items.len() - from,
{
    let w_end = w.trees(items, from);
    lemma_write_grows(w_end, seq![0xf9u8]);
    if from == items.len() {
        let tail = lemma_step(w, r, total, seq![0xf9u8]);
        assert(items.skip(from) =~= Seq::<Tree>::empty());
    } else {
        let first = items[from];
        let w1 = w.tree(first);
        lemma_tree_grows(w, first);
        lemma_trees_grow(w1, items, from + 1);
        lemma_prefix_trans(w_end.out, w_end.write(seq![0xf9u8]).out, total);
        lemma_prefix_trans(w1.out, w_end.out, total);
        lemma_read_tree(first, w, r, total);
        lemma_lead(r);
        lemma_tree_progress(r);
        let r1 = after(r.tree());
        lemma_read_elements(items, from + 1, w1, r1, total);
        assert(seq![first] + items.skip(from + 1) =~= items.skip(from));
    }
}

/// The part of [`lemma_read_tree`] that speaks of the entries of a map, from the index `from`
/// on, up to the end mark that is written behind them.
pub proof fn lemma_read_entries(
    entries: Seq<(Seq<char>, Tree)>,
    from: int,
    w: Writer,
    r: Reader,
    total: Seq<u8>,
)
    requires
        0 <= from <= entries.len(),
        linked(w, r, total),
        prefix(w.entries(entries, from).write(seq![0xfbu8]).out, total),
        forall|i: int| 0 <= i < entries.len() ==> readable((#[trigger] entries[i]).1, r.depth),
        r.depth <= DEPTH,
    ensures
        read_as(r.entries(), entries.skip(from), w.entries(entries, from), total, r.depth),
    decreases entries, entries.len() - from,
{
    let w_end = w.entries(entries, from);
    lemma_write_grows(w_end, seq![0xfbu8]);
    if from == entries.len() {
        let tail = lemma_step(w, r, total, seq![0xfbu8]);
        assert(entries.skip(from) =~= Seq::<(Seq<char>, Tree)>::empty());
    } else {
        let (key, value) = entries[from];
        let w1 = w.key(key);
        let w2 = w1.tree(value);
        lemma_string_grows(w, key);
        lemma_tree_grows(w1, value);
        lemma_entries_grow(w2, entries, from + 1);
        lemma_prefix_trans(w_end.out, w_end.write(seq![0xfbu8]).out, total);
        lemma_prefix_trans(w2.out, w_end.out, total);
        lemma_prefix_trans(w1.out, w2.out, total);
        lemma_read_key(key, w, r, total);
        lemma_lead(r);
        lemma_key_progress(r);
        let r1 = after(r.key());
        lemma_read_tree(value, w1, r1, total);
        lemma_tree_progress(r1);
        let r2 = after(r1.tree());
        lemma_read_entries(entries, from + 1, w2, r2, total);
        assert(seq![(key, value)] + entries.skip(from + 1) =~= entries.skip(from));
    }
}

/// Shared strings. A string value of at most 64 bytes that the cache does not hold is written
/// out the first time and as a back-reference the second time, and the reference is to the
/// index that the cache gave the string: the number of strings it held, or zero where it was
/// full and started afresh. A reader whose cache agrees reads the same string both times.
pub proof fn theorem_shared_string(s: Seq<char>, w: Writer, r: Reader, total: Seq<u8>)
    requires
        linked(w, r, total),
        s.len() > 0,
        eligible(s),
        w.strings matches Some(m) && !m.contains_key(s),
        prefix(w.string(s).string(s).out, total),
    ensures
        w.string(s).out == w.out + string_literal(s),
        w.string(s).string(s).out == w.string(s).out + string_reference(
            if w.strings->0.len() >= crate::wire::cache::LIMIT {
                0u16
            } else {
                w.strings->0.len() as u16
            },
        ),
        read_as(r.tree(), Tree::String(s), w.string(s), total, r.depth),
        read_as(
            after(r.tree()).tree(),
            Tree::String(s),
            w.string(s).string(s),
            total,
            r.depth,
        ),
{
    let w1 = w.string(s);
    let w2 = w1.string(s);
    lemma_string_grows(w1, s);
    lemma_prefix_trans(w1.out, w2.out, total);
    lemma_read_string(s, w, r, total);
    lemma_read_string(s, w1, after(r.tree()), total);
}

/// The header comes with the first value, and only with the first: to write a value is to
/// write the header, where that is still to be done, and then the value.
pub proof fn lemma_header_first(w: Writer, t: Tree)
    ensures
        w.tree(t) == w.write_header().tree(t),
{
}

/// Round trip. A document that a serializer writes for a value, under any choice of the three
/// features, holds that value for a deserializer: the header is read as the features, the
/// value is read as it was, and the end of the document is accepted, with or without the
/// end-of-stream mark, from a slice as from a stream.
pub proof fn theorem_round_trip(f: Features, t: Tree, drains: bool)
    requires
        readable(t, DEPTH as nat),
    ensures
        match Reader::open(Writer::new(f).tree(t).out) {
            Ok(r) => (Reader { drains, ..r }).document() == Ok::<Tree, ErrorKind>(t),
            Err(_) => false,
        },
        match Reader::open(Writer::new(f).tree(t).end().out) {
            Ok(r) => (Reader { drains, ..r }).document() == Ok::<Tree, ErrorKind>(t),
            Err(_) => false,
        },
{
    let w0 = Writer::new(f).write_header();
    let w1 = w0.tree(t);
    lemma_header_first(Writer::new(f), t);
    assert(w0.out =~= header(f));
    lemma_tree_grows(w0, t);
    lemma_agree_empty();
    // without the end-of-stream mark
    {
        let total = w1.out;
        assert(total.take(total.len() as int) =~= total);
        assert(total =~= header(f) + total.skip(4)) by {
            assert(total.take(4) =~= header(f));
        }
        lemma_parse_header(f, total.skip(4));
        let r = Reader { drains, ..Reader::new(f, total.skip(4)) };
        lemma_read_tree(t, w0, r, total);
        let r1 = after(r.tree());
        assert(r1.rest =~= Seq::<u8>::empty());
    }
    // with it
    {
        let w2 = w1.end();
        let total = w2.out;
        lemma_write_grows(w1, seq![0xffu8]);
        lemma_prefix_trans(w0.out, w1.out, total);
        assert(total =~= header(f) + total.skip(4)) by {
            assert(total.take(4) =~= header(f));
        }
        lemma_parse_header(f, total.skip(4));
        let r = Reader { drains, ..Reader::new(f, total.skip(4)) };
        lemma_read_tree(t, w0, r, total);
        let r1 = after(r.tree());
        assert(r1.rest =~= seq![0xffu8]);
    }
}

} // verus!
