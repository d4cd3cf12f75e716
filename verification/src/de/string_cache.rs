//! The reader's side of a string cache.
use crate::wire::cache::{push_entry, LIMIT};
use std::borrow::Cow;
use vstd::prelude::*;

verus! {

/// The strings that a deserializer has read, in their order.
pub struct StringCache<'de> {
    vec: Vec<Cow<'de, str>>,
}

impl<'de> View for StringCache<'de> {
    type V = Seq<Seq<char>>;

    closed spec fn view(&self) -> Seq<Seq<char>> {
        Seq::new(self.vec@.len(), |i: int| self.vec@[i]@)
    }
}

impl<'de> StringCache<'de> {
    /// An empty cache.
    pub fn new() -> (r: Self)
        ensures
            r@ == Seq::<Seq<char>>::empty(),
    {
        let r = StringCache { vec: Vec::new() };
        proof {
            assert(r@ =~= Seq::<Seq<char>>::empty());
        }
        r
    }

    /// Takes a string in, under the next index. A cache that holds 1024 strings forgets them
    /// first.
    pub fn intern(&mut self, s: Cow<'de, str>)
        ensures
            final(self)@ == push_entry(old(self)@, s@),
    {
        if self.vec.len() >= LIMIT {
            self.vec.clear();
        }
        self.vec.push(s);
        proof {
            assert(self@ =~= push_entry(old(self)@, s@));
        }
    }

    /// The string under an index, if the cache holds that many.
    pub fn get(&self, reference: u16) -> (r: Option<&Cow<'de, str>>)
        ensures
            match r {
                Some(s) => reference < self@.len() && s@ == self@[reference as int],
                None => reference >= self@.len(),
            },
    {
        let i = reference as usize;
        if i < self.vec.len() {
            Some(&self.vec[i])
        } else {
            None
        }
    }
}

} // verus!
