//! The string caches behind back-references.
//!
//! A writer and a reader each keep the strings they have seen in the order of their first
//! appearance, so that a later appearance can be written as the index of the first. The writer
//! looks strings up, the reader looks indices up. Both start afresh when 1024 entries are
//! reached.
use vstd::prelude::*;
use vstd::utf8::encode_utf8;

verus! {

/// The number of entries at which a cache starts afresh.
pub const LIMIT: usize = 1024;

/// The longest string, in bytes, that a cache takes.
pub const MAX_SHARED_LEN: usize = 64;

/// Whether a string is short enough to be cached.
pub open spec fn eligible(s: Seq<char>) -> bool {
    encode_utf8(s).len() <= MAX_SHARED_LEN
}

/// A reader's cache after it has taken in `s`.
pub open spec fn push_entry(entries: Seq<Seq<char>>, s: Seq<char>) -> Seq<Seq<char>> {
    if entries.len() >= LIMIT {
        seq![s]
    } else {
        entries.push(s)
    }
}

/// A writer's cache after it has taken in `s`: `s` gets the number of entries as its index,
/// counted after the cache has started afresh where it was full.
pub open spec fn add_entry(indices: Map<Seq<char>, u16>, s: Seq<char>) -> Map<Seq<char>, u16> {
    let base = if indices.len() >= LIMIT {
        Map::empty()
    } else {
        indices
    };
    base.insert(s, base.len() as u16)
}

/// Whether a writer's cache and a reader's cache hold the same strings under the same indices.
pub open spec fn agree(indices: Map<Seq<char>, u16>, entries: Seq<Seq<char>>) -> bool {
    &&& indices.dom().finite()
    &&& indices.len() == entries.len()
    &&& entries.len() <= LIMIT
    &&& forall|s: Seq<char>| #[trigger]
        indices.contains_key(s) ==> indices[s] < entries.len() && entries[indices[s] as int] == s
    &&& forall|i: int|
        0 <= i < entries.len() ==> indices.contains_key(#[trigger] entries[i]) && indices[entries[i]]
            == i
}

/// Two empty caches agree.
pub proof fn lemma_agree_empty()
    ensures
        agree(Map::empty(), Seq::empty()),
{
}

/// Caches that agree still agree after both have taken in a string that they did not hold.
pub proof fn lemma_agree_add(indices: Map<Seq<char>, u16>, entries: Seq<Seq<char>>, s: Seq<char>)
    requires
        agree(indices, entries),
        !indices.contains_key(s),
    ensures
        agree(add_entry(indices, s), push_entry(entries, s)),
{
    let m = add_entry(indices, s);
    let e = push_entry(entries, s);
    if indices.len() >= LIMIT {
        assert(m =~= Map::<Seq<char>, u16>::empty().insert(s, 0));
        assert(m.dom() =~= set![s]);
    } else {
        assert(m.len() == indices.len() + 1);
        assert forall|i: int| 0 <= i < e.len() implies m.contains_key(#[trigger] e[i]) && m[e[i]]
            == i by {
            if i < entries.len() {
                assert(indices.contains_key(entries[i]));
            }
        }
    }
}

} // verus!
