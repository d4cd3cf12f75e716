//! Byte sources: a uniform way to peek at, step over and take bytes from a shared slice, an
//! exclusively borrowed slice or a buffered stream.
use crate::error::Error;
use crate::wire::bytes::{
    first, first_index, is_first_index, lemma_absent, lemma_first_index, tail,
};
use vstd::prelude::*;
use vstd::slice::slice_subrange;

verus! {

/// `memchr::memchr` finds the first occurrence of a byte in a slice: the index that comes back
/// holds the byte and no earlier index does, and nothing comes back only where the byte does
/// not occur.
pub assume_specification[ memchr::memchr ](needle: u8, haystack: &[u8]) -> (found: Option<usize>)
    ensures
        match found {
            Some(i) => first_index(haystack@, needle) == Some(i as int),
            None => first_index(haystack@, needle).is_none(),
        },
;

/// `std::mem::take` hands out the value behind the reference, leaving the type's default there.
/// Only the value handed out is described.
pub assume_specification<T: Default>[ std::mem::take ](dest: &mut T) -> (taken: T)
    ensures
        taken == *old(dest),
;

/// Seals [`Read`]: the sources of this module are the only ones.
pub trait Sealed {

}

/// Bytes handed out by a source.
pub enum Buf<'a, 'de> {
    /// Bytes that stay valid until the source is used again.
    Short(&'a [u8]),
    /// Bytes that stay valid as long as the input does.
    Long(&'de [u8]),
}

impl<'a, 'de> View for Buf<'a, 'de> {
    type V = Seq<u8>;

    open spec fn view(&self) -> Seq<u8> {
        match self {
            Buf::Short(b) => b@,
            Buf::Long(b) => b@,
        }
    }
}

impl<'a, 'de> Buf<'a, 'de> {
    /// The bytes.
    pub fn deref(&self) -> (s: &[u8])
        ensures
            s@ == self@,
    {
        match self {
            Buf::Short(buf) => buf,
            Buf::Long(buf) => buf,
        }
    }
}

/// Bytes handed out by a source for rewriting in place.
pub enum MutBuf<'a, 'de> {
    /// Bytes in the source's own buffer.
    Short(&'a mut [u8]),
    /// Bytes of the input itself.
    Long(&'de mut [u8]),
}

impl<'a, 'de> View for MutBuf<'a, 'de> {
    type V = Seq<u8>;

    open spec fn view(&self) -> Seq<u8> {
        match self {
            MutBuf::Short(b) => b@,
            MutBuf::Long(b) => b@,
        }
    }
}

impl<'a, 'de> MutBuf<'a, 'de> {
    /// The bytes.
    pub fn deref(&self) -> (s: &[u8])
        ensures
            s@ == self@,
    {
        match self {
            MutBuf::Short(buf) => buf,
            MutBuf::Long(buf) => buf,
        }
    }

    /// The bytes, for writing.
    pub fn deref_mut(&mut self) -> (s: &mut [u8])
        ensures
            s@ == old(self)@,
            final(self)@ == final(s)@,
            *final(self) is Short <==> *old(self) is Short,
    {
        match self {
            MutBuf::Short(buf) => buf,
            MutBuf::Long(buf) => buf,
        }
    }
}

/// What is left of `s` in a source that was asked for more than `s`: nothing where the source
/// is read to its end then, else `s`.
pub open spec fn left(drains: bool, s: Seq<u8>) -> Seq<u8> {
    if drains {
        Seq::empty()
    } else {
        s
    }
}

/// The input types that a [`Deserializer`](crate::Deserializer) reads from.
///
/// A source that knows its whole input, as the two slice sources do and a stream over bytes in
/// memory, says in `rest` which bytes are still to come, and every method is then a function of
/// them. A stream that does not know what is to come has `None` as its `rest`, and its methods
/// promise only what holds of every outcome.
///
/// A source that is asked for more than it has hands out nothing. A slice then keeps what it
/// has; a stream has been read to its end.
pub trait Read<'de>: Sealed {
    /// The invariant of the source.
    spec fn wf(&self) -> bool;

    /// The bytes that are still to be read, where the source holds them all.
    spec fn rest(&self) -> Option<Seq<u8>>;

    /// Whether the last call was a `peek` that found a byte.
    spec fn peeked(&self) -> bool;

    /// Whether the source is a stream. A stream has been read to its end once it was asked for
    /// more than it had, and `read` and `read_until` hand out a buffer of its own; a slice keeps
    /// what it has, and the two hand out the input itself.
    spec fn drains(&self) -> bool;

    /// Takes one byte.
    fn next(&mut self) -> (r: Result<Option<u8>, Error>)
        requires
            old(self).wf(),
        ensures
            final(self).wf(),
            final(self).drains() == old(self).drains(),
            r matches Err(e) ==> e@ is Io,
            old(self).rest() is None ==> final(self).rest() is None,
            old(self).rest() matches Some(s) ==> r matches Ok(b) && b == first(s) && final(self).rest() == Some(tail(s)),
    ;

    /// Looks at the next byte and leaves it in place.
    fn peek(&mut self) -> (r: Result<Option<u8>, Error>)
        requires
            old(self).wf(),
        ensures
            final(self).wf(),
            final(self).drains() == old(self).drains(),
            r matches Err(e) ==> e@ is Io,
            final(self).rest() == old(self).rest(),
            r matches Ok(Some(_)) ==> final(self).peeked(),
            old(self).rest() matches Some(s) ==> r matches Ok(b) && b == first(s),
    ;

    /// Steps over the byte that the `peek` just before has found.
    fn consume(&mut self)
        requires
            old(self).wf(),
            old(self).peeked(),
        ensures
            final(self).wf(),
            final(self).drains() == old(self).drains(),
            old(self).rest() is None ==> final(self).rest() is None,
            old(self).rest() matches Some(s) ==> final(self).rest() == Some(tail(s)),
    ;

    /// Takes the next `n` bytes, or nothing where fewer are left.
    fn read<'a>(&'a mut self, n: usize) -> (r: Result<Option<Buf<'a, 'de>>, Error>)
        requires
            old(self).wf(),
        ensures
            final(self).wf(),
            final(self).drains() == old(self).drains(),
            r matches Err(e) ==> e@ is Io,
            r matches Ok(Some(buf)) ==> buf@.len() == n && (buf is Short <==> old(self).drains()),
            old(self).rest() is None ==> final(self).rest() is None,
            old(self).rest() matches Some(s) ==> if n <= s.len() {
                r matches Ok(Some(buf)) && buf@ == s.take(n as int) && final(self).rest() == Some(
                    s.skip(n as int),
                )
            } else {
                r matches Ok(None) && final(self).rest() == Some(left(old(self).drains(), s))
            },
    ;

    /// Takes the next `n` bytes for rewriting in place, or nothing where fewer are left. What is
    /// written to them does not change what is still to be read.
    fn read_mut<'a>(&'a mut self, n: usize) -> (r: Result<Option<MutBuf<'a, 'de>>, Error>)
        requires
            old(self).wf(),
        ensures
            final(self).wf(),
            final(self).drains() == old(self).drains(),
            r matches Err(e) ==> e@ is Io,
            r matches Ok(Some(buf)) ==> buf@.len() == n,
            old(self).rest() is None ==> final(self).rest() is None,
            old(self).rest() matches Some(s) ==> if n <= s.len() {
                r matches Ok(Some(buf)) && buf@ == s.take(n as int) && final(self).rest() == Some(
                    s.skip(n as int),
                )
            } else {
                r matches Ok(None) && final(self).rest() == Some(left(old(self).drains(), s))
            },
    ;

    /// Takes the bytes up to the next `end`, and steps over that `end`; takes nothing where no
    /// `end` is left.
    fn read_until<'a>(&'a mut self, end: u8) -> (r: Result<Option<Buf<'a, 'de>>, Error>)
        requires
            old(self).wf(),
        ensures
            final(self).wf(),
            final(self).drains() == old(self).drains(),
            r matches Err(e) ==> e@ is Io,
            r matches Ok(Some(buf)) ==> (buf is Short <==> old(self).drains()),
            old(self).rest() is None ==> final(self).rest() is None,
            old(self).rest() matches Some(s) ==> match first_index(s, end) {
                Some(i) => r matches Ok(Some(buf)) && buf@ == s.take(i) && final(self).rest() == Some(s.skip(i + 1)),
                None => r matches Ok(None) && final(self).rest() == Some(
                    left(old(self).drains(), s),
                ),
            },
    ;
}

/// A [`Read`] implementation for shared slices.
pub struct SliceRead<'a> {
    slice: &'a [u8],
    index: usize,
    buf: Vec<u8>,
}

impl<'a> SliceRead<'a> {
    /// Creates a new `SliceRead`.
    pub fn new(slice: &'a [u8]) -> (r: Self)
        ensures
            r.wf(),
            r.rest() == Some(slice@),
            !r.drains(),
    {
        SliceRead { slice, index: 0, buf: Vec::new() }
    }
}

impl Sealed for SliceRead<'_> {

}

impl<'de> Read<'de> for SliceRead<'de> {
    closed spec fn wf(&self) -> bool {
        self.index <= self.slice@.len()
    }

    closed spec fn rest(&self) -> Option<Seq<u8>> {
        Some(self.slice@.skip(self.index as int))
    }

    closed spec fn peeked(&self) -> bool {
        self.index < self.slice@.len()
    }

    closed spec fn drains(&self) -> bool {
        false
    }

    #[inline]
    fn next(&mut self) -> (r: Result<Option<u8>, Error>) {
        if self.index < self.slice.len() {
            let ch = self.slice[self.index];
            proof {
                assert(self.slice@.skip(self.index as int).skip(1) =~= self.slice@.skip(
                    self.index + 1,
                ));
            }
            self.index += 1;
            Ok(Some(ch))
        } else {
            Ok(None)
        }
    }

    #[inline]
    fn peek(&mut self) -> (r: Result<Option<u8>, Error>) {
        if self.index < self.slice.len() {
            Ok(Some(self.slice[self.index]))
        } else {
            Ok(None)
        }
    }

    #[inline]
    fn consume(&mut self) {
        proof {
            vstd::slice::axiom_spec_len(self.slice);
            assert(self.slice@.skip(self.index as int).skip(1) =~= self.slice@.skip(
                self.index + 1,
            ));
        }
        self.index += 1;
    }

    /// The bytes are those of the input itself. Where fewer than `n` are left, the source stays
    /// where it is.
    #[inline]
    fn read<'a>(&'a mut self, n: usize) -> (r: Result<Option<Buf<'a, 'de>>, Error>)
        ensures
            r is Ok,
            r matches Ok(Some(buf)) ==> buf is Long,
            r matches Ok(None) ==> final(self).rest() == old(self).rest(),
    {
        let len = self.slice.len();
        if n <= len - self.index {
            let start = self.index;
            self.index += n;
            let taken = slice_subrange(self.slice, start, start + n);
            proof {
                let s = self.slice@.skip(start as int);
                assert(taken@ =~= s.take(n as int));
                assert(self.slice@.skip(start + n) =~= s.skip(n as int));
            }
            Ok(Some(Buf::Long(taken)))
        } else {
            Ok(None)
        }
    }

    /// The bytes are a copy in the source's own buffer, since the input is shared. Where fewer
    /// than `n` are left, the source stays where it is.
    fn read_mut<'a>(&'a mut self, n: usize) -> (r: Result<Option<MutBuf<'a, 'de>>, Error>)
        ensures
            r is Ok,
            r matches Ok(Some(buf)) ==> buf is Short,
            r matches Ok(None) ==> final(self).rest() == old(self).rest(),
    {
        let len = self.slice.len();
        if n <= len - self.index {
            let start = self.index;
            self.index += n;
            self.buf.clear();
            self.buf.extend_from_slice(slice_subrange(self.slice, start, start + n));
            proof {
                let s = self.slice@.skip(start as int);
                assert(self.buf@ =~= s.take(n as int));
                assert(self.slice@.skip(start + n) =~= s.skip(n as int));
            }
            Ok(Some(MutBuf::Short(self.buf.as_mut_slice())))
        } else {
            Ok(None)
        }
    }

    /// The bytes are those of the input itself. Where no `end` is left, the source stays where
    /// it is.
    fn read_until<'a>(&'a mut self, end: u8) -> (r: Result<Option<Buf<'a, 'de>>, Error>)
        ensures
            r is Ok,
            r matches Ok(Some(buf)) ==> buf is Long,
            r matches Ok(None) ==> final(self).rest() == old(self).rest(),
    {
        let len = self.slice.len();
        let start = self.index;
        let s = slice_subrange(self.slice, start, len);
        proof {
            assert(s@ =~= self.slice@.skip(start as int));
            lemma_first_index(s@, end, 0);
        }
        match memchr::memchr(end, s) {
            Some(end) => {
                self.index += end + 1;
                let taken = slice_subrange(s, 0, end);
                proof {
                    assert(taken@ =~= s@.take(end as int));
                    assert(self.slice@.skip(start + end + 1) =~= s@.skip(end + 1));
                }
                Ok(Some(Buf::Long(taken)))
            },
            None => Ok(None),
        }
    }
}

/// A [`Read`] implementation for mutable slices.
pub struct MutSliceRead<'a> {
    slice: &'a mut [u8],
}

impl<'a> MutSliceRead<'a> {
    /// Creates a new `MutSliceRead`.
    pub fn new(slice: &'a mut [u8]) -> (r: Self)
        ensures
            r.wf(),
            r.rest() == Some(old(slice)@),
            !r.drains(),
    {
        MutSliceRead { slice }
    }
}

impl Sealed for MutSliceRead<'_> {

}

impl<'de> Read<'de> for MutSliceRead<'de> {
    closed spec fn wf(&self) -> bool {
        true
    }

    closed spec fn rest(&self) -> Option<Seq<u8>> {
        Some(self.slice@)
    }

    closed spec fn peeked(&self) -> bool {
        self.slice@.len() > 0
    }

    closed spec fn drains(&self) -> bool {
        false
    }

    fn next(&mut self) -> (r: Result<Option<u8>, Error>) {
        if !self.slice.is_empty() {
            let slice = std::mem::take(&mut self.slice);
            let b = slice[0];
            let (_, b_rest) = slice.split_at_mut(1);
            self.slice = b_rest;
            Ok(Some(b))
        } else {
            Ok(None)
        }
    }

    fn peek(&mut self) -> (r: Result<Option<u8>, Error>) {
        if !self.slice.is_empty() {
            Ok(Some(self.slice[0]))
        } else {
            Ok(None)
        }
    }

    fn consume(&mut self) {
        let slice = std::mem::take(&mut self.slice);
        let (_, b) = slice.split_at_mut(1);
        self.slice = b;
    }

    /// The bytes are those of the input itself. Where fewer than `n` are left, the source stays
    /// where it is.
    fn read<'a>(&'a mut self, n: usize) -> (r: Result<Option<Buf<'a, 'de>>, Error>)
        ensures
            r is Ok,
            r matches Ok(Some(buf)) ==> buf is Long,
            r matches Ok(None) ==> final(self).rest() == old(self).rest(),
    {
        if n <= self.slice.len() {
            let (a, b) = std::mem::take(&mut self.slice).split_at_mut(n);
            self.slice = b;
            Ok(Some(Buf::Long(a)))
        } else {
            Ok(None)
        }
    }

    /// The bytes are those of the input itself, which the source has to itself. Where fewer
    /// than `n` are left, the source stays where it is.
    fn read_mut<'a>(&'a mut self, n: usize) -> (r: Result<Option<MutBuf<'a, 'de>>, Error>)
        ensures
            r is Ok,
            r matches Ok(Some(buf)) ==> buf is Long,
            r matches Ok(None) ==> final(self).rest() == old(self).rest(),
    {
        if n <= self.slice.len() {
            let (a, b) = std::mem::take(&mut self.slice).split_at_mut(n);
            self.slice = b;
            Ok(Some(MutBuf::Long(a)))
        } else {
            Ok(None)
        }
    }

    /// The bytes are those of the input itself. Where no `end` is left, the source stays where
    /// it is.
    fn read_until<'a>(&'a mut self, end: u8) -> (r: Result<Option<Buf<'a, 'de>>, Error>)
        ensures
            r is Ok,
            r matches Ok(Some(buf)) ==> buf is Long,
            r matches Ok(None) ==> final(self).rest() == old(self).rest(),
    {
        proof {
            lemma_first_index(self.slice@, end, 0);
        }
        match memchr::memchr(end, self.slice) {
            Some(end) => {
                let ghost s = self.slice@;
                let (a, b) = std::mem::take(&mut self.slice).split_at_mut(end);
                let (_, c) = b.split_at_mut(1);
                proof {
                    assert(c@ =~= s.skip(end + 1));
                }
                self.slice = c;
                Ok(Some(Buf::Long(a)))
            },
            None => Ok(None),
        }
    }
}

/// A stream that hands out its bytes in chunks, as a buffered reader does.
///
/// A stream that knows what it has still to hand out says so in `pending`, and hands out just
/// that: slices of bytes in memory do. Of any other stream nothing is promised.
pub trait Source {
    /// The bytes that the stream has still to hand out, where it knows them. A stream that
    /// does not say knows none.
    open spec fn pending(&self) -> Option<Seq<u8>> {
        None
    }

    /// The bytes that are at hand: a start of what is pending, and more than nothing as long as
    /// anything is pending. None at the end of the stream. They stay pending.
    fn fill_buf(&mut self) -> (r: Result<&[u8], std::io::Error>)
        ensures
            final(self).pending() == old(self).pending(),
            old(self).pending() matches Some(s) ==> r matches Ok(chunk) && chunk@.len() <= s.len()
                && chunk@ == s.take(chunk@.len() as int) && (s.len() > 0 ==> chunk@.len() > 0),
    ;

    /// Marks the first `amt` of the bytes at hand as read: they are pending no more.
    fn consume(&mut self, amt: usize)
        ensures
            old(self).pending() is None ==> final(self).pending() is None,
            old(self).pending() matches Some(s) ==> final(self).pending() == Some(
                s.skip(taken(amt, s)),
            ),
    ;
}

/// The number of bytes that leave `s` where `amt` are marked as read: `amt`, or all there are.
pub open spec fn taken(amt: usize, s: Seq<u8>) -> int {
    if amt <= s.len() {
        amt as int
    } else {
        s.len() as int
    }
}

impl<'a> Source for &'a [u8] {
    /// A slice has its own bytes pending.
    open spec fn pending(&self) -> Option<Seq<u8>> {
        Some((*self)@)
    }

    /// All the bytes of the slice are at hand.
    fn fill_buf(&mut self) -> (r: Result<&[u8], std::io::Error>)
        ensures
            r matches Ok(chunk) && chunk@ == (*old(self))@,
            (*final(self))@ == (*old(self))@,
    {
        proof {
            assert((*self)@.take((*self)@.len() as int) =~= (*self)@);
        }
        Ok(*self)
    }

    /// The slice goes on behind the bytes that are marked as read.
    fn consume(&mut self, amt: usize)
        ensures
            (*final(self))@ == (*old(self))@.skip(taken(amt, (*old(self))@)),
    {
        let s: &'a [u8] = *self;
        let len = s.len();
        let n = if amt < len { amt } else { len };
        *self = slice_subrange(s, n, len);
        proof {
            assert(s@.subrange(n as int, len as int) =~= s@.skip(n as int));
        }
    }
}

impl<S: Source> Source for &mut S {
    /// What is pending behind the reference.
    open spec fn pending(&self) -> Option<Seq<u8>> {
        (**self).pending()
    }

    fn fill_buf(&mut self) -> (r: Result<&[u8], std::io::Error>) {
        (**self).fill_buf()
    }

    fn consume(&mut self, amt: usize) {
        (**self).consume(amt)
    }
}

/// A [`Read`] implementation for buffered streams.
pub struct IoRead<R> {
    reader: R,
    buf: Vec<u8>,
    peeked: Ghost<bool>,
}

impl<R> IoRead<R> {
    /// Creates a new `IoRead`.
    pub fn new(reader: R) -> (r: Self)
        ensures
            r.inner() == reader,
    {
        IoRead { reader, buf: Vec::new(), peeked: Ghost(false) }
    }

    /// The inner reader.
    pub closed spec fn inner(&self) -> R {
        self.reader
    }

    /// What [`Read`] says of a stream: it is ready whatever it holds, and what is still to be
    /// read from it is what its reader has pending.
    pub proof fn lemma_stream<'de>(&self)
        where R: Source
        ensures
            <Self as Read<'de>>::wf(self),
            <Self as Read<'de>>::rest(self) == self.inner().pending(),
            <Self as Read<'de>>::drains(self),
    {
    }

    /// Returns a shared reference to the inner reader.
    pub fn get_ref(&self) -> (r: &R)
        ensures
            *r == self.inner(),
    {
        &self.reader
    }

    /// Returns a mutable reference to the inner reader.
    pub fn get_mut(&mut self) -> (r: &mut R)
        ensures
            *r == old(self).inner(),
            final(self).inner() == *final(r),
    {
        &mut self.reader
    }

    /// Consumes the `IoRead`, returning the inner reader.
    pub fn into_inner(self) -> (r: R)
        ensures
            r == self.inner(),
    {
        self.reader
    }
}

impl<R: Source> IoRead<R> {
    /// Fills the buffer with the next `n` bytes of the stream. Says whether the stream held
    /// that many; a stream that did not has been read to its end.
    fn fill_buf(&mut self, n: usize) -> (r: Result<bool, Error>)
        ensures
            r matches Ok(true) ==> final(self).buf@.len() == n,
            r matches Err(e) ==> e@ is Io,
            old(self).reader.pending() is None ==> final(self).reader.pending() is None,
            old(self).reader.pending() matches Some(s) ==> if n <= s.len() {
                r matches Ok(true) && final(self).buf@ == s.take(n as int) && final(self).reader.pending() == Some(s.skip(n as int))
            } else {
                r matches Ok(false) && final(self).reader.pending() == Some(Seq::<u8>::empty())
            },
    {
        let ghost start = self.reader.pending();
        self.peeked = Ghost(false);
        self.buf.clear();
        // a length that the input only claims reserves no more than this
        self.buf.reserve(if n < 16 * 1024 { n } else { 16 * 1024 });
        let mut remaining = n;
        proof {
            if start is Some {
                assert(self.buf@ =~= start->0.take(0));
                assert(start->0.skip(0) =~= start->0);
            }
        }
        while remaining > 0
            invariant
                remaining <= n,
                self.buf@.len() + remaining == n,
                start == old(self).reader.pending(),
                start is None ==> self.reader.pending() is None,
                start matches Some(s) ==> n - remaining <= s.len() && self.buf@ == s.take(
                    n - remaining,
                ) && self.reader.pending() == Some(s.skip(n - remaining)),
            decreases remaining,
        {
            let ghost had = self.buf@;
            let chunk = match self.reader.fill_buf() {
                Ok(chunk) => chunk,
                Err(e) => return Err(Error::io(e)),
            };
            if chunk.is_empty() {
                proof {
                    if start is Some {
                        let s = start->0;
                        assert(s.skip(s.len() as int) =~= Seq::<u8>::empty());
                    }
                }
                return Ok(false);
            }
            let len = if remaining < chunk.len() { remaining } else { chunk.len() };
            let piece = slice_subrange(chunk, 0, len);
            let ghost piece_bytes = piece@;
            self.buf.extend_from_slice(piece);
            self.reader.consume(len);
            proof {
                if start is Some {
                    let s = start->0;
                    let at = n - remaining;
                    assert(piece_bytes =~= s.skip(at).take(len as int));
                    assert(self.buf@ =~= had + piece_bytes);
                    assert(self.buf@ =~= s.take(at + len));
                    assert(s.skip(at).skip(len as int) =~= s.skip(at + len));
                }
            }
            remaining -= len;
        }
        Ok(true)
    }
}

impl<R> Sealed for IoRead<R> {

}

impl<'de, R: Source> Read<'de> for IoRead<R> {
    closed spec fn wf(&self) -> bool {
        true
    }

    closed spec fn rest(&self) -> Option<Seq<u8>> {
        self.reader.pending()
    }

    closed spec fn peeked(&self) -> bool {
        self.peeked@
    }

    closed spec fn drains(&self) -> bool {
        true
    }

    fn next(&mut self) -> (r: Result<Option<u8>, Error>) {
        let r = self.peek();
        if let Ok(Some(_)) = r {
            self.consume();
        }
        r
    }

    fn peek(&mut self) -> (r: Result<Option<u8>, Error>) {
        let buf = match self.reader.fill_buf() {
            Ok(buf) => buf,
            Err(e) => return Err(Error::io(e)),
        };
        let found = if buf.is_empty() {
            None
        } else {
            Some(buf[0])
        };
        self.peeked = Ghost(found is Some);
        Ok(found)
    }

    fn consume(&mut self) {
        self.reader.consume(1);
        self.peeked = Ghost(false);
        proof {
            if old(self).reader.pending() is Some {
                let s = old(self).reader.pending()->0;
                assert(s.skip(taken(1, s)) =~= tail(s));
            }
        }
    }

    /// The bytes are a copy in the source's own buffer.
    fn read<'a>(&'a mut self, n: usize) -> (r: Result<Option<Buf<'a, 'de>>, Error>)
        ensures
            r matches Ok(Some(buf)) ==> buf is Short,
    {
        if self.fill_buf(n)? {
            Ok(Some(Buf::Short(self.buf.as_slice())))
        } else {
            Ok(None)
        }
    }

    /// The bytes are a copy in the source's own buffer.
    fn read_mut<'a>(&'a mut self, n: usize) -> (r: Result<Option<MutBuf<'a, 'de>>, Error>)
        ensures
            r matches Ok(Some(buf)) ==> buf is Short,
    {
        if self.fill_buf(n)? {
            Ok(Some(MutBuf::Short(self.buf.as_mut_slice())))
        } else {
            Ok(None)
        }
    }

    /// The bytes are a copy in the source's own buffer.
    fn read_until<'a>(&'a mut self, end: u8) -> (r: Result<Option<Buf<'a, 'de>>, Error>)
        ensures
            r matches Ok(Some(buf)) ==> buf is Short,
    {
        let ghost start = self.reader.pending();
        self.peeked = Ghost(false);
        self.buf.clear();
        proof {
            if start is Some {
                assert(self.buf@ =~= start->0.take(0));
                assert(start->0.skip(0) =~= start->0);
            }
        }
        loop
            invariant
                start == old(self).reader.pending(),
                start is None ==> self.reader.pending() is None,
                start matches Some(s) ==> self.buf@.len() <= s.len() && self.buf@ == s.take(
                    self.buf@.len() as int,
                ) && self.reader.pending() == Some(s.skip(self.buf@.len() as int)) && forall|
                    j: int,
                | 0 <= j < self.buf@.len() ==> s[j] != end,
            decreases usize::MAX - self.buf@.len(),
        {
            let ghost had = self.buf@;
            let buf = match self.reader.fill_buf() {
                Ok(buf) => buf,
                Err(e) => return Err(Error::io(e)),
            };
            let ghost chunk = buf@;
            if buf.is_empty() {
                proof {
                    if start is Some {
                        let s = start->0;
                        assert(s.skip(s.len() as int) =~= Seq::<u8>::empty());
                        lemma_first_index(s, end, 0);
                    }
                }
                return Ok(None);
            }
            proof {
                lemma_first_index(chunk, end, 0);
                vstd::slice::axiom_spec_len(buf);
            }
            match memchr::memchr(end, buf) {
                Some(found) => {
                    let piece = slice_subrange(buf, 0, found);
                    let ghost piece_bytes = piece@;
                    self.buf.extend_from_slice(piece);
                    self.reader.consume(found + 1);
                    proof {
                        if start is Some {
                            let s = start->0;
                            let at = had.len() as int;
                            assert(chunk =~= s.skip(at).take(chunk.len() as int));
                            assert(self.buf@ =~= had + piece_bytes);
                            assert(self.buf@ =~= s.take(at + found));
                            assert(s.skip(at).skip(found + 1) =~= s.skip(at + found + 1));
                            assert(is_first_index(s, end, at + found)) by {
                                assert(s[at + found] == chunk[found as int]);
                                assert forall|j: int| 0 <= j < at + found implies s[j] != end by {
                                    if j >= at {
                                        assert(s[j] == chunk[j - at]);
                                    }
                                }
                            }
                            lemma_first_index(s, end, at + found);
                        }
                    }
                    return Ok(Some(Buf::Short(self.buf.as_slice())));
                },
                None => {
                    self.buf.extend_from_slice(buf);
                    let len = buf.len();
                    self.reader.consume(len);
                    proof {
                        vstd::std_specs::vec::axiom_spec_len(&self.buf);
                        if start is Some {
                            let s = start->0;
                            let at = had.len() as int;
                            assert(chunk =~= s.skip(at).take(chunk.len() as int));
                            assert(self.buf@ =~= had + chunk);
                            assert(self.buf@ =~= s.take(at + len));
                            assert(s.skip(at).skip(len as int) =~= s.skip(at + len));
                            assert forall|j: int| 0 <= j < at + len implies s[j] != end by {
                                if j >= at {
                                    lemma_absent(chunk, end, j - at);
                                    assert(s[j] == chunk[j - at]);
                                }
                            }
                        }
                    }
                },
            }
        }
    }
}

} // verus!
