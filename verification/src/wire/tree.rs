//! The values that a document can hold, as mathematical trees.
use vstd::prelude::*;

verus! {

/// A value of the data model.
pub enum Tree {
    /// Null.
    Null,
    /// A boolean.
    Boolean(bool),
    /// A 32-bit integer.
    Integer(i32),
    /// A 64-bit integer.
    Long(i64),
    /// A big integer, as its big-endian two's complement bytes.
    BigInteger(Seq<u8>),
    /// A 32-bit floating-point value, as its bit pattern.
    Float(u32),
    /// A 64-bit floating-point value, as its bit pattern.
    Double(u64),
    /// A big decimal: its scale and the big-endian two's complement bytes of its unscaled
    /// value.
    BigDecimal(i32, Seq<u8>),
    /// A string.
    String(Seq<char>),
    /// Binary data.
    Binary(Seq<u8>),
    /// A sequence of values.
    Array(Seq<Tree>),
    /// A sequence of keys with their values.
    Object(Seq<(Seq<char>, Tree)>),
}

impl Tree {
    /// Whether every map in the value holds each of its keys once. A value that was read does;
    /// one that does not is written as it stands, and read as another.
    pub open spec fn keys_once(self) -> bool
        decreases self,
    {
        match self {
            Tree::Array(items) => forall|i: int|
                0 <= i < items.len() ==> (#[trigger] items[i]).keys_once(),
            Tree::Object(entries) => distinct_keys(entries) && forall|i: int|
                0 <= i < entries.len() ==> (#[trigger] entries[i]).1.keys_once(),
            _ => true,
        }
    }
}

/// Whether entry `i` of `entries` has the key `key`.
pub open spec fn key_at(entries: Seq<(Seq<char>, Tree)>, key: Seq<char>, i: int) -> bool {
    0 <= i < entries.len() && entries[i].0 == key
}

/// Whether no key occurs twice.
pub open spec fn distinct_keys(entries: Seq<(Seq<char>, Tree)>) -> bool {
    forall|i: int, j: int|
        0 <= i < entries.len() && 0 <= j < entries.len() && i != j ==> (#[trigger] entries[i]).0
            != (#[trigger] entries[j]).0
}

/// The entries after a key has been given a value: where the key is there, its value is
/// replaced and it stays in its place, else the entry comes last.
pub open spec fn put(entries: Seq<(Seq<char>, Tree)>, key: Seq<char>, value: Tree) -> Seq<
    (Seq<char>, Tree),
> {
    if exists|i: int| key_at(entries, key, i) {
        entries.update(choose|i: int| key_at(entries, key, i), (key, value))
    } else {
        entries.push((key, value))
    }
}

/// The entries of a map, as a document gives them one after the other: each key once, in the
/// place of its first appearance and with the value of its last.
pub open spec fn merged(pairs: Seq<(Seq<char>, Tree)>) -> Seq<(Seq<char>, Tree)>
    decreases pairs.len(),
{
    if pairs.len() == 0 {
        Seq::empty()
    } else {
        put(merged(pairs.drop_last()), pairs.last().0, pairs.last().1)
    }
}

/// Giving a key a value leaves every key there once.
pub proof fn lemma_put_distinct(entries: Seq<(Seq<char>, Tree)>, key: Seq<char>, value: Tree)
    requires
        distinct_keys(entries),
    ensures
        distinct_keys(put(entries, key, value)),
{
    let after = put(entries, key, value);
    if exists|i: int| key_at(entries, key, i) {
        let c = choose|i: int| key_at(entries, key, i);
        assert forall|i: int, j: int|
            0 <= i < after.len() && 0 <= j < after.len() && i != j implies (#[trigger] after[i]).0
            != (#[trigger] after[j]).0 by {
            assert(after[i].0 == entries[i].0);
            assert(after[j].0 == entries[j].0);
        }
    } else {
        assert forall|i: int, j: int|
            0 <= i < after.len() && 0 <= j < after.len() && i != j implies (#[trigger] after[i]).0
            != (#[trigger] after[j]).0 by {
            if i < entries.len() {
                assert(key_at(entries, after[i].0, i));
            }
            if j < entries.len() {
                assert(key_at(entries, after[j].0, j));
            }
        }
    }
}

/// What a document gives as a map holds every key once.
pub proof fn lemma_merged_distinct(pairs: Seq<(Seq<char>, Tree)>)
    ensures
        distinct_keys(merged(pairs)),
    decreases pairs.len(),
{
    if pairs.len() > 0 {
        lemma_merged_distinct(pairs.drop_last());
        lemma_put_distinct(merged(pairs.drop_last()), pairs.last().0, pairs.last().1);
    }
}

/// Where the maps in the values of the entries hold their keys once, the map that a document
/// gives of the entries is such a value too.
pub proof fn lemma_merged_keys_once(pairs: Seq<(Seq<char>, Tree)>)
    requires
        forall|i: int| 0 <= i < pairs.len() ==> (#[trigger] pairs[i]).1.keys_once(),
    ensures
        Tree::Object(merged(pairs)).keys_once(),
    decreases pairs.len(),
{
    lemma_merged_distinct(pairs);
    if pairs.len() > 0 {
        let before = pairs.drop_last();
        assert forall|i: int| 0 <= i < before.len() implies (#[trigger] before[i]).1.keys_once() by {
            assert(before[i] == pairs[i]);
        }
        lemma_merged_keys_once(before);
        let all = merged(pairs);
        assert forall|i: int| 0 <= i < all.len() implies (#[trigger] all[i]).1.keys_once() by {
            assert(pairs.last() == pairs[pairs.len() - 1]);
            if all[i] != (pairs.last().0, pairs.last().1) {
                assert(all[i] == merged(before)[i]);
            }
        }
    }
}

/// Entries that hold every key once are given by a document as they are.
pub proof fn lemma_merged_same(pairs: Seq<(Seq<char>, Tree)>)
    requires
        distinct_keys(pairs),
    ensures
        merged(pairs) == pairs,
    decreases pairs.len(),
{
    if pairs.len() > 0 {
        let before = pairs.drop_last();
        lemma_merged_same(before);
        let last = pairs.last();
        if exists|i: int| key_at(before, last.0, i) {
            let c = choose|i: int| key_at(before, last.0, i);
            assert(pairs[c].0 == pairs[pairs.len() - 1].0);
        }
        assert(before.push(last) =~= pairs);
    }
}

} // verus!
