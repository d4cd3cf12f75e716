//! The writer's side of a string cache.
use crate::wire::cache::{add_entry, LIMIT};
use vstd::hash_map::StringHashMap;
use vstd::prelude::*;

verus! {

/// The strings that a serializer has written, each with the index that stands for it.
pub struct StringCache {
    map: StringHashMap<u16>,
}

impl View for StringCache {
    type V = Map<Seq<char>, u16>;

    closed spec fn view(&self) -> Map<Seq<char>, u16> {
        self.map@
    }
}

impl StringCache {
    /// An empty cache.
    pub fn new() -> (r: Self)
        ensures
            r@ == Map::<Seq<char>, u16>::empty(),
    {
        StringCache { map: StringHashMap::new() }
    }

    /// Takes a string in, under the next index. A cache that holds 1024 strings forgets them
    /// first.
    pub fn intern(&mut self, s: String)
        ensures
            final(self)@ == add_entry(old(self)@, s@),
    {
        if self.map.len() >= LIMIT {
            self.map.clear();
        }
        let id = self.map.len() as u16;
        self.map.insert(s, id);
    }

    /// The index of a string, if the cache holds it.
    pub fn get(&mut self, s: &str) -> (r: Option<u16>)
        ensures
            final(self)@ == old(self)@,
            r == if old(self)@.contains_key(s@) {
                Some(old(self)@[s@])
            } else {
                None
            },
    {
        match self.map.get(s) {
            Some(id) => Some(*id),
            None => None,
        }
    }
}

} // verus!
