//! Definition of a Smile value.
use crate::de::key_deserializer::KeyDeserializer;
use crate::de::Read;
use crate::de::{Deserializer, Event};
use crate::error::{Error, ErrorKind};
use crate::ser::Serializer;
use crate::wire::decode::{
    lemma_key_progress, lemma_tree_progress, lemma_value_progress, of_format,
};
use crate::ser::same_text;
use crate::wire::tree::{
    distinct_keys, key_at, lemma_merged_keys_once, lemma_put_distinct, merged, put, Tree,
};
use vstd::prelude::*;
use vstd::slice::slice_to_vec;

pub mod big_decimal;
pub mod big_integer;

pub use big_decimal::BigDecimal;
pub use big_integer::BigInteger;

verus! {

/// A representation of a Smile value.
#[derive(PartialEq, Debug)]
pub enum Value {
    /// A null value.
    Null,
    /// A boolean value.
    Boolean(bool),
    /// An integer value.
    Integer(i32),
    /// A long value.
    Long(i64),
    /// A big integer value.
    BigInteger(BigInteger),
    /// A float value, as the bit pattern of an IEEE 754 single.
    Float(u32),
    /// A double value, as the bit pattern of an IEEE 754 double.
    Double(u64),
    /// A big decimal value.
    BigDecimal(BigDecimal),
    /// A string value.
    String(String),
    /// A binary value.
    Binary(Vec<u8>),
    /// An array value.
    Array(Vec<Value>),
    /// An object value: its keys with their values, in their order. An object that was read
    /// holds each key once.
    Object(Vec<(String, Value)>),
}

/// The trees of some values.
pub open spec fn trees_of(items: Seq<Value>) -> Seq<Tree>
    decreases items,
{
    Seq::new(
        items.len(),
        |i: int|
            if 0 <= i < items.len() {
                items[i]@
            } else {
                Tree::Null
            },
    )
}

/// The keys of some entries with the trees of their values.
pub open spec fn entries_of(entries: Seq<(String, Value)>) -> Seq<(Seq<char>, Tree)>
    decreases entries,
{
    Seq::new(
        entries.len(),
        |i: int|
            if 0 <= i < entries.len() {
                (entries[i].0@, entries[i].1@)
            } else {
                (Seq::empty(), Tree::Null)
            },
    )
}

impl View for Value {
    type V = Tree;

    open spec fn view(&self) -> Tree
        decreases self,
    {
        match self {
            Value::Null => Tree::Null,
            Value::Boolean(v) => Tree::Boolean(*v),
            Value::Integer(v) => Tree::Integer(*v),
            Value::Long(v) => Tree::Long(*v),
            Value::BigInteger(v) => Tree::BigInteger(v@),
            Value::Float(v) => Tree::Float(*v),
            Value::Double(v) => Tree::Double(*v),
            Value::BigDecimal(v) => Tree::BigDecimal(v@.0, v@.1),
            Value::String(v) => Tree::String(v@),
            Value::Binary(v) => Tree::Binary(v@),
            Value::Array(items) => Tree::Array(trees_of(items@)),
            Value::Object(entries) => Tree::Object(entries_of(entries@)),
        }
    }
}

/// What a token that is no container gives, as a value; nothing for the start of a container
/// and for what only a big integer can give.
fn leaf<'a, 'de>(event: Event<'a, 'de>) -> (r: Option<Value>)
    ensures
        match event@ {
            crate::wire::decode::Item::Null => r matches Some(v) && v@ == Tree::Null,
            crate::wire::decode::Item::Bool(b) => r matches Some(v) && v@ == Tree::Boolean(b),
            crate::wire::decode::Item::I32(i) => r matches Some(v) && v@ == Tree::Integer(i),
            crate::wire::decode::Item::I64(i) => r matches Some(v) && v@ == Tree::Long(i),
            crate::wire::decode::Item::F32(f) => r matches Some(v) && v@ == Tree::Float(f),
            crate::wire::decode::Item::F64(f) => r matches Some(v) && v@ == Tree::Double(f),
            crate::wire::decode::Item::BigDecimal(scale, b) => r matches Some(v) && v@
                == Tree::BigDecimal(scale, b),
            crate::wire::decode::Item::Str(s) => r matches Some(v) && v@ == Tree::String(s),
            crate::wire::decode::Item::Bytes(b) => r matches Some(v) && v@ == Tree::Binary(b),
            _ => r is None,
        },
{
    match event {
        Event::Null => Some(Value::Null),
        Event::Bool(v) => Some(Value::Boolean(v)),
        Event::I32(v) => Some(Value::Integer(v)),
        Event::I64(v) => Some(Value::Long(v)),
        Event::F32(v) => Some(Value::Float(v)),
        Event::F64(v) => Some(Value::Double(v)),
        Event::BigDecimal(scale, v) => Some(
            Value::BigDecimal(
                BigDecimal::new(BigInteger::from_be_bytes(slice_to_vec(v.deref())), scale),
            ),
        ),
        Event::Str(v) => Some(Value::String(v.deref().to_owned())),
        Event::Bytes(v) => Some(Value::Binary(slice_to_vec(v.deref()))),
        _ => None,
    }
}

/// The kind of a token, for what follows it.
enum Kind {
    Leaf(Value),
    Array,
    Object,
    Other,
}

/// The kind of a token.
fn kind_of<'a, 'de>(event: Event<'a, 'de>) -> (r: Kind)
    ensures
        event@ is SeqStart <==> r is Array,
        event@ is MapStart <==> r is Object,
        r matches Kind::Leaf(v) ==> leaf_tree(event@) == Some(v@),
        r is Other ==> leaf_tree(event@) is None && !(event@ is SeqStart) && !(event@ is MapStart),
        r is Leaf <==> leaf_tree(event@) is Some,
{
    match event {
        Event::SeqStart => Kind::Array,
        Event::MapStart => Kind::Object,
        event => match leaf(event) {
            Some(v) => Kind::Leaf(v),
            None => Kind::Other,
        },
    }
}

/// The tree of what a token that is no container gives.
pub open spec fn leaf_tree(item: crate::wire::decode::Item) -> Option<Tree> {
    match item {
        crate::wire::decode::Item::Null => Some(Tree::Null),
        crate::wire::decode::Item::Bool(b) => Some(Tree::Boolean(b)),
        crate::wire::decode::Item::I32(i) => Some(Tree::Integer(i)),
        crate::wire::decode::Item::I64(i) => Some(Tree::Long(i)),
        crate::wire::decode::Item::F32(f) => Some(Tree::Float(f)),
        crate::wire::decode::Item::F64(f) => Some(Tree::Double(f)),
        crate::wire::decode::Item::BigDecimal(scale, b) => Some(Tree::BigDecimal(scale, b)),
        crate::wire::decode::Item::Str(s) => Some(Tree::String(s)),
        crate::wire::decode::Item::Bytes(b) => Some(Tree::Binary(b)),
        _ => None,
    }
}

/// Reads the elements of a sequence up to its end mark, which is left in place.
fn deserialize_elements<'de, R: Read<'de>>(de: &mut Deserializer<'de, R>) -> (r: Result<
    Vec<Value>,
    Error,
>)
    requires
        old(de).wf(),
    ensures
        final(de).wf(),
        r matches Err(e) ==> e@ is Io || of_format(e@),
        final(de).depth() == old(de).depth(),
        old(de)@ is None ==> final(de)@ is None,
        old(de)@ matches Some(st) ==> match st.elements() {
            Ok((ts, st2)) => r matches Ok(v) && trees_of(v@) == ts && final(de)@ == Some(st2),
            Err((k, sf)) => r matches Err(e) && e@ == k && final(de)@ == Some(sf),
        },
        r matches Ok(v) ==> forall|i: int| 0 <= i < v.len() ==> (#[trigger] v@[i])@.keys_once(),
    decreases old(de).depth(), 1nat,
{
    let ghost st1 = old(de)@;
    let mut items: Vec<Value> = Vec::new();
    let mut more = de.next_element()?;
    proof {
        if st1 is Some {
            assert(trees_of(items@) =~= Seq::<Tree>::empty());
            match st1->0.elements() {
                Ok((others, r2)) => {
                    assert(trees_of(items@) + others =~= others);
                },
                Err(_) => {},
            }
        }
    }
    while more
        invariant
            de.wf(),
            de.depth() == old(de).depth(),
            st1 == old(de)@,
            st1 is None ==> de@ is None,
            st1 is Some ==> de@ is Some && de@->0.element() == Ok::<bool, ErrorKind>(more)
                && st1->0.elements() == prepend(trees_of(items@), de@->0.elements()),
            forall|i: int| 0 <= i < items.len() ==> (#[trigger] items@[i])@.keys_once(),
        decreases usize::MAX - items.len(),
    {
        proof {
            de.lemma_depth();
            if de@ is Some {
                lemma_tree_progress(de@->0);
            }
        }
        let ghost had = items@;
        let item = Value::deserialize(de)?;
        items.push(item);
        more = de.next_element()?;
        proof {
            if st1 is Some {
                assert(trees_of(items@) =~= trees_of(had).push(item@));
                match de@->0.elements() {
                    Ok((others, r2)) => {
                        assert(trees_of(had) + (seq![item@] + others) =~= trees_of(items@) + others);
                    },
                    Err(_) => {},
                }
            }
        }
    }
    proof {
        if st1 is Some {
            assert(trees_of(items@) + Seq::<Tree>::empty() =~= trees_of(items@));
        }
    }
    Ok(items)
}

/// A result of reading on, with what was read before in front.
pub open spec fn prepend<T>(
    head: Seq<T>,
    r: Result<(Seq<T>, crate::wire::decode::Reader), (ErrorKind, crate::wire::decode::Reader)>,
) -> Result<(Seq<T>, crate::wire::decode::Reader), (ErrorKind, crate::wire::decode::Reader)> {
    match r {
        Ok((others, r2)) => Ok((head + others, r2)),
        Err(e) => Err(e),
    }
}

/// Reads the entries of a map up to its end mark, which is left in place.
fn deserialize_entries<'de, R: Read<'de>>(de: &mut Deserializer<'de, R>) -> (r: Result<
    Vec<(String, Value)>,
    Error,
>)
    requires
        old(de).wf(),
    ensures
        final(de).wf(),
        r matches Err(e) ==> e@ is Io || of_format(e@),
        final(de).depth() == old(de).depth(),
        old(de)@ is None ==> final(de)@ is None,
        old(de)@ matches Some(st) ==> match st.entries() {
            Ok((ts, st2)) => r matches Ok(v) && entries_of(v@) == ts && final(de)@ == Some(st2),
            Err((k, sf)) => r matches Err(e) && e@ == k && final(de)@ == Some(sf),
        },
        r matches Ok(v) ==> forall|i: int| 0 <= i < v.len() ==> (#[trigger] v@[i]).1@.keys_once(),
    decreases old(de).depth(), 1nat,
{
    let ghost st1 = old(de)@;
    let mut entries: Vec<(String, Value)> = Vec::new();
    let mut more = de.next_key()?;
    proof {
        if st1 is Some {
            assert(entries_of(entries@) =~= Seq::<(Seq<char>, Tree)>::empty());
            match st1->0.entries() {
                Ok((others, r2)) => {
                    assert(entries_of(entries@) + others =~= others);
                },
                Err(_) => {},
            }
        }
    }
    while more
        invariant
            de.wf(),
            de.depth() == old(de).depth(),
            st1 == old(de)@,
            st1 is None ==> de@ is None,
            st1 is Some ==> de@ is Some && de@->0.entry() == Ok::<bool, ErrorKind>(more)
                && st1->0.entries() == prepend(entries_of(entries@), de@->0.entries()),
            forall|i: int| 0 <= i < entries.len() ==> (#[trigger] entries@[i]).1@.keys_once(),
        decreases usize::MAX - entries.len(),
    {
        proof {
            de.lemma_depth();
            if de@ is Some {
                lemma_key_progress(de@->0);
            }
        }
        let ghost had = entries@;
        let key = {
            let mut keys = KeyDeserializer { de: &mut *de };
            keys.parse_str()?.deref().to_owned()
        };
        proof {
            de.lemma_depth();
            if de@ is Some {
                lemma_tree_progress(de@->0);
            }
        }
        let value = Value::deserialize(de)?;
        let ghost pair = (key@, value@);
        entries.push((key, value));
        more = de.next_key()?;
        proof {
            if st1 is Some {
                assert(entries_of(entries@) =~= entries_of(had).push(pair));
                match de@->0.entries() {
                    Ok((others, r2)) => {
                        assert(entries_of(had) + (seq![pair] + others) =~= entries_of(entries@)
                            + others);
                    },
                    Err(_) => {},
                }
            }
        }
    }
    proof {
        if st1 is Some {
            assert(entries_of(entries@) + Seq::<(Seq<char>, Tree)>::empty() =~= entries_of(
                entries@,
            ));
        }
    }
    Ok(entries)
}

/// Gives a key a value: where the entries hold the key, its value is replaced and it stays in
/// its place, else the entry comes last.
fn put_entry(entries: &mut Vec<(String, Value)>, key: String, value: Value)
    requires
        distinct_keys(entries_of(old(entries)@)),
    ensures
        entries_of(final(entries)@) == put(entries_of(old(entries)@), key@, value@),
        distinct_keys(entries_of(final(entries)@)),
{
    let ghost before = entries_of(entries@);
    let mut i: usize = 0;
    while i < entries.len()
        invariant
            i <= entries.len(),
            entries@ == old(entries)@,
            before == entries_of(entries@),
            distinct_keys(before),
            forall|j: int| 0 <= j < i ==> !key_at(before, key@, j),
        decreases entries.len() - i,
    {
        if same_text(entries[i].0.as_str(), key.as_str()) {
            let ghost pair = (key@, value@);
            entries.set(i, (key, value));
            proof {
                assert(key_at(before, pair.0, i as int));
                let c = choose|c: int| key_at(before, pair.0, c);
                assert(c == i) by {
                    if c != i {
                        assert(before[c].0 != before[i as int].0);
                    }
                }
                assert(entries_of(entries@) =~= before.update(i as int, pair));
                lemma_put_distinct(before, pair.0, pair.1);
            }
            return;
        }
        i += 1;
    }
    let ghost pair = (key@, value@);
    entries.push((key, value));
    proof {
        assert(entries_of(entries@) =~= before.push(pair));
        lemma_put_distinct(before, pair.0, pair.1);
    }
}

/// Makes a map of the entries that a document gave one after the other: each key once, in the
/// place of its first appearance and with the value of its last.
fn merge(raw: Vec<(String, Value)>) -> (out: Vec<(String, Value)>)
    ensures
        entries_of(out@) == merged(entries_of(raw@)),
        distinct_keys(entries_of(out@)),
        (forall|i: int| 0 <= i < raw.len() ==> (#[trigger] raw@[i]).1@.keys_once())
            ==> Tree::Object(entries_of(out@)).keys_once(),
{
    proof {
        let pairs = entries_of(raw@);
        if forall|i: int| 0 <= i < raw.len() ==> (#[trigger] raw@[i]).1@.keys_once() {
            assert forall|i: int| 0 <= i < pairs.len() implies (#[trigger] pairs[i]).1.keys_once() by {
                assert(pairs[i].1 == raw@[i].1@);
            }
            lemma_merged_keys_once(pairs);
        }
    }
    let mut raw = raw;
    let ghost all = entries_of(raw@);
    let mut out: Vec<(String, Value)> = Vec::new();
    let mut i: usize = 0;
    proof {
        assert(all.take(0) =~= Seq::<(Seq<char>, Tree)>::empty());
        assert(entries_of(out@) =~= Seq::<(Seq<char>, Tree)>::empty());
    }
    while i < raw.len()
        invariant
            i <= raw.len(),
            raw.len() == all.len(),
            forall|j: int| i <= j < raw.len() ==> (#[trigger] raw@[j]).0@ == all[j].0 && raw@[j].1@
                == all[j].1,
            entries_of(out@) == merged(all.take(i as int)),
            distinct_keys(entries_of(out@)),
        decreases raw.len() - i,
    {
        let mut pair = (String::new(), Value::Null);
        raw.set_and_swap(i, &mut pair);
        let (key, value) = pair;
        put_entry(&mut out, key, value);
        proof {
            assert(all.take(i + 1).drop_last() =~= all.take(i as int));
            assert(all.take(i + 1).last() == all[i as int]);
        }
        i += 1;
    }
    proof {
        assert(all.take(all.len() as int) =~= all);
    }
    out
}

impl Value {
    /// Reads the value that stands next. A big integer stays a big integer whatever its size,
    /// and every map in the value holds each of its keys once, whatever the source handed
    /// out. Whether the value is read or not, the deserializer is afterwards as deep in the
    /// nesting as it was before.
    pub fn deserialize<'de, R: Read<'de>>(de: &mut Deserializer<'de, R>) -> (r: Result<
        Value,
        Error,
    >)
        requires
            old(de).wf(),
        ensures
            final(de).wf(),
            r matches Err(e) ==> e@ is Io || of_format(e@),
            r matches Ok(v) ==> v@.keys_once(),
            final(de).depth() == old(de).depth(),
            old(de)@ is None ==> final(de)@ is None,
            old(de)@ matches Some(st) ==> match st.tree() {
                Ok((t, st2)) => r matches Ok(v) && v@ == t && final(de)@ == Some(st2),
                Err((k, sf)) => r matches Err(e) && e@ == k && final(de)@ == Some(sf),
            },
        decreases old(de).depth(), 0nat,
    {
        let ghost st0 = old(de)@;
        proof {
            de.lemma_depth();
            if st0 is Some {
                lemma_value_progress(st0->0);
            }
        }
        if de.accept(0x26)? {
            let buf = de.parse_7_bit_binary()?;
            return Ok(Value::BigInteger(BigInteger::from_be_bytes(slice_to_vec(buf.deref()))));
        }
        let kind = kind_of(de.parse_value()?);
        proof {
            de.lemma_depth();
        }
        match kind {
            Kind::Leaf(v) => Ok(v),
            Kind::Other => Err(Error::unsupported_big_integer()),
            Kind::Array => {
                let items = match deserialize_elements(de) {
                    Ok(items) => items,
                    Err(e) => {
                        de.recursion_done();
                        return Err(e);
                    },
                };
                de.end_array()?;
                proof {
                    de.lemma_depth();
                }
                proof {
                    let trees = trees_of(items@);
                    assert forall|i: int| 0 <= i < trees.len() implies (#[trigger] trees[i]).keys_once() by {
                        assert(trees[i] == items@[i]@);
                    }
                }
                Ok(Value::Array(items))
            },
            Kind::Object => {
                let entries = match deserialize_entries(de) {
                    Ok(entries) => merge(entries),
                    Err(e) => {
                        de.recursion_done();
                        return Err(e);
                    },
                };
                de.end_map()?;
                proof {
                    de.lemma_depth();
                }
                Ok(Value::Object(entries))
            },
        }
    }

    /// Writes the value.
    pub fn serialize(&self, serializer: &mut Serializer) -> (r: Result<(), Error>)
        ensures
            r is Ok,
            final(serializer)@ == old(serializer)@.tree(self@),
        decreases self,
    {
        match self {
            Value::Null => serializer.serialize_unit(),
            Value::Boolean(v) => serializer.serialize_bool(*v),
            Value::Integer(v) => serializer.serialize_i32(*v),
            Value::Long(v) => serializer.serialize_i64(*v),
            Value::BigInteger(v) => serializer.serialize_big_integer(v.as_be_bytes()),
            Value::Float(v) => serializer.serialize_f32(*v),
            Value::Double(v) => serializer.serialize_f64(*v),
            Value::BigDecimal(v) => {
                serializer.serialize_big_decimal_scale(v.scale())?;
                serializer.serialize_7_bit_binary(v.unscaled_value().as_be_bytes())?;
                proof {
                    let w = old(serializer)@.write_header();
                    assert(serializer@.out =~= w.out + crate::wire::encode::big_decimal_token(
                        v@.0,
                        v@.1,
                    ));
                }
                Ok(())
            },
            Value::String(v) => serializer.serialize_str(v.as_str()),
            Value::Binary(v) => serializer.serialize_bytes(v.as_slice()),
            Value::Array(items) => {
                serializer.write_header()?;
                serializer.put1(0xf8);
                let ghost start = serializer@;
                let mut i: usize = 0;
                while i < items.len()
                    invariant
                        i <= items.len(),
                        *self == Value::Array(*items),
                        serializer@.trees(trees_of(items@), i as int) == start.trees(
                            trees_of(items@),
                            0,
                        ),
                    decreases items.len() - i,
                {
                    proof {
                        assert(decreases_to!(*items => items[i as int]));
                    }
                    items[i].serialize(serializer)?;
                    i += 1;
                }
                serializer.put1(0xf9);
                Ok(())
            },
            Value::Object(entries) => {
                serializer.write_header()?;
                serializer.put1(0xfa);
                let ghost start = serializer@;
                let mut i: usize = 0;
                while i < entries.len()
                    invariant
                        i <= entries.len(),
                        *self == Value::Object(*entries),
                        serializer@.entries(entries_of(entries@), i as int) == start.entries(
                            entries_of(entries@),
                            0,
                        ),
                    decreases entries.len() - i,
                {
                    proof {
                        assert(decreases_to!(*entries => entries[i as int]));
                        assert(decreases_to!(entries[i as int] => entries[i as int].1));
                    }
                    let mut key = crate::ser::KeySerializer { ser: &mut *serializer };
                    key.serialize_maybe_static_str(entries[i].0.as_str())?;
                    entries[i].1.serialize(serializer)?;
                    i += 1;
                }
                serializer.put1(0xfb);
                Ok(())
            },
        }
    }
}

} // verus!
