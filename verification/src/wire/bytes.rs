//! Sequences of bytes: what stands first in them, and where a byte first occurs.
use vstd::prelude::*;

verus! {

/// The first byte of a sequence, if it has one.
pub open spec fn first(s: Seq<u8>) -> Option<u8> {
    if s.len() > 0 {
        Some(s[0])
    } else {
        None
    }
}

/// A sequence without its first byte; the empty sequence stays as it is.
pub open spec fn tail(s: Seq<u8>) -> Seq<u8> {
    if s.len() > 0 {
        s.skip(1)
    } else {
        s
    }
}

/// Whether `i` is the first index of `s` that holds `byte`.
pub open spec fn is_first_index(s: Seq<u8>, byte: u8, i: int) -> bool {
    &&& 0 <= i < s.len()
    &&& s[i] == byte
    &&& forall|j: int| 0 <= j < i ==> s[j] != byte
}

/// The first index of `s` that holds `byte`, if one does.
pub open spec fn first_index(s: Seq<u8>, byte: u8) -> Option<int> {
    if exists|i: int| is_first_index(s, byte, i) {
        Some(choose|i: int| is_first_index(s, byte, i))
    } else {
        None
    }
}

/// The first index is the only one that holds the byte with none before it, and where no index
/// holds the byte there is none.
pub proof fn lemma_first_index(s: Seq<u8>, byte: u8, i: int)
    ensures
        is_first_index(s, byte, i) ==> first_index(s, byte) == Some(i),
        (forall|j: int| 0 <= j < s.len() ==> s[j] != byte) ==> first_index(s, byte).is_none(),
        first_index(s, byte) matches Some(k) ==> is_first_index(s, byte, k),
{
    if exists|k: int| is_first_index(s, byte, k) {
        let k = choose|k: int| is_first_index(s, byte, k);
        if is_first_index(s, byte, i) {
            if k < i {
                assert(s[k] != byte);
            }
            if i < k {
                assert(s[i] != byte);
            }
        }
    }
}

/// Where a byte has no first index, no index holds it.
pub proof fn lemma_absent(s: Seq<u8>, byte: u8, j: int)
    requires
        first_index(s, byte) is None,
        0 <= j < s.len(),
    ensures
        s[j] != byte,
    decreases j,
{
    if s[j] == byte {
        if forall|i: int| 0 <= i < j ==> s[i] != byte {
            assert(is_first_index(s, byte, j));
        } else {
            let i = choose|i: int| 0 <= i < j && s[i] == byte;
            lemma_absent(s, byte, i);
        }
    }
}

} // verus!
