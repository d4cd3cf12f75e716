//! A stream of values behind one header.
use crate::de::Read;
use crate::de::Deserializer;
use crate::error::{Error, ErrorKind};
use crate::value::Value;
use crate::wire::decode::{of_format, Reader};
use crate::wire::tree::Tree;
use vstd::prelude::*;

verus! {

/// An iterator that deserializes a stream into multiple Smile values.
///
/// A stream deserializer can be created from any Smile deserializer using the
/// [`Deserializer::into_iter`] method.
///
/// The iterator will stop at either the Smile end-of-stream marker or the end of the
/// underlying reader's stream, and after the first error.
pub struct StreamDeserializer<'de, R> {
    pub(crate) de: Deserializer<'de, R>,
    pub(crate) done: bool,
}

/// Whether a value follows in a stream, and the state in which that is known: behind the
/// end-of-stream mark where that stands next, else unchanged. No value follows at the mark and
/// at the end of the input.
pub open spec fn step_of(st: Reader) -> (bool, Reader) {
    if st.rest.len() == 0 {
        (false, st)
    } else if st.rest[0] == 0xff {
        (false, st.skip(1))
    } else {
        (true, st)
    }
}

/// What a stream gives next, and the state behind it: nothing at the end of the input and at
/// the end-of-stream mark, which is stepped over and nothing behind it; else the next value,
/// or the error of reading it with the state in which the reading stopped.
pub open spec fn next_of(st: Reader) -> (Option<Result<Tree, ErrorKind>>, Reader) {
    let (more, st1) = step_of(st);
    if !more {
        (None, st1)
    } else {
        match st1.tree() {
            Ok((t, st2)) => (Some(Ok(t)), st2),
            Err((k, sf)) => (Some(Err(k)), sf),
        }
    }
}

impl<'de, R: Read<'de>> Deserializer<'de, R> {
    /// Consumes the deserializer, returning an iterator over the values of a stream.
    pub fn into_iter(self) -> (r: StreamDeserializer<'de, R>)
        requires
            self.wf(),
        ensures
            r.wf(),
            !r.is_done(),
            r.deserializer()@ == self@,
    {
        StreamDeserializer { de: self, done: false }
    }
}

impl<'de, R: Read<'de>> StreamDeserializer<'de, R> {
    /// The invariant of the stream.
    pub closed spec fn wf(&self) -> bool {
        self.de.wf()
    }

    /// Whether the stream has ended.
    pub closed spec fn is_done(&self) -> bool {
        self.done
    }

    /// The deserializer that reads the stream.
    pub closed spec fn deserializer(&self) -> Deserializer<'de, R> {
        self.de
    }

    /// One step of a stream, before a value is read from `de`: says that the stream has ended
    /// (`None`), that its source failed (an error), or that a value follows. `done` says
    /// whether the stream has ended before; it is set where the stream ends now, at the
    /// end-of-stream mark, which is stepped over, at the end of the input, and with an error.
    pub fn step(de: &mut Deserializer<'de, R>, done: &mut bool) -> (r: Option<Result<(), Error>>)
        requires
            old(de).wf(),
        ensures
            final(de).wf(),
            final(de).depth() == old(de).depth(),
            old(de)@ is None ==> final(de)@ is None,
            *old(done) ==> r is None && *final(done) && final(de)@ == old(de)@,
            *final(done) == !(r matches Some(Ok(_))),
            r matches Some(Err(e)) ==> e@ is Io,
            !*old(done) ==> (old(de)@ matches Some(st) ==> final(de)@ == Some(step_of(st).1) && (
            if step_of(st).0 {
                r matches Some(Ok(_))
            } else {
                r is None
            })),
    {
        if *done {
            return None;
        }
        match de.accept(0xff) {
            Ok(true) => {
                *done = true;
                return None;
            },
            Ok(false) => {},
            Err(e) => {
                *done = true;
                return Some(Err(e));
            },
        }
        match de.at_end() {
            Ok(true) => {
                *done = true;
                None
            },
            Ok(false) => Some(Ok(())),
            Err(e) => {
                *done = true;
                Some(Err(e))
            },
        }
    }

    /// Takes note of how the reading of a value went: a stream ends with the first value that
    /// is not read.
    pub fn value_read(done: &mut bool, failed: bool)
        ensures
            *final(done) == (*old(done) || failed),
    {
        if failed {
            *done = true;
        }
    }

    /// The next value of the stream. A stream that has ended, with or without an error, gives
    /// nothing more.
    pub fn next(&mut self) -> (r: Option<Result<Value, Error>>)
        requires
            old(self).wf(),
        ensures
            final(self).wf(),
            old(self).is_done() ==> r is None && final(self).is_done() && final(self).deserializer()@ == old(self).deserializer()@,
            final(self).is_done() == !(r matches Some(Ok(_))),
            r matches Some(Err(e)) ==> e@ is Io || of_format(e@),
            r matches Some(Ok(v)) ==> v@.keys_once(),
            old(self).deserializer()@ is None ==> final(self).deserializer()@ is None,
            !old(self).is_done() ==> (old(self).deserializer()@ matches Some(st) ==> final(self).deserializer()@ == Some(next_of(st).1) && match next_of(st).0 {
                None => r is None,
                Some(Ok(t)) => r matches Some(Ok(v)) && v@ == t,
                Some(Err(k)) => r matches Some(Err(e)) && e@ == k,
            }),
    {
        match Self::step(&mut self.de, &mut self.done) {
            None => None,
            Some(Err(e)) => Some(Err(e)),
            Some(Ok(())) => {
                let r = Value::deserialize(&mut self.de);
                Self::value_read(&mut self.done, r.is_err());
                Some(r)
            },
        }
    }
}

} // verus!
