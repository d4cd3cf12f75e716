//! Map keys.
use crate::de::{Buf, Read};
use crate::de::Deserializer;
use crate::error::Error;
use crate::wire::decode::of_format;
use std::borrow::Cow;
use vstd::prelude::*;
use vstd::utf8::{decode_utf8, valid_utf8};

verus! {

/// `core::str::from_utf8` takes bytes as text where they are well-formed UTF-8, and only then;
/// the text is the one that the bytes encode.
#[verifier::external_body]
pub(crate) fn from_utf8<'x>(bytes: &'x [u8]) -> (r: Option<&'x str>)
    ensures
        r is Some <==> valid_utf8(bytes@),
        r matches Some(s) ==> s@ == decode_utf8(bytes@),
{
    core::str::from_utf8(bytes).ok()
}

/// A string handed out by a deserializer.
pub enum Str<'a, 'de> {
    /// A string that stays valid until the deserializer is used again.
    Short(&'a str),
    /// A string that stays valid as long as the input does.
    Long(&'de str),
}

impl<'a, 'de> View for Str<'a, 'de> {
    type V = Seq<char>;

    open spec fn view(&self) -> Seq<char> {
        match self {
            Str::Short(s) => s@,
            Str::Long(s) => s@,
        }
    }
}

impl<'a, 'de> Str<'a, 'de> {
    /// The string.
    pub fn deref(&self) -> (s: &str)
        ensures
            s@ == self@,
    {
        match self {
            Str::Short(s) => s,
            Str::Long(s) => s,
        }
    }
}

/// Reads map keys from a [`Deserializer`].
pub struct KeyDeserializer<'a, 'de, R> {
    /// The deserializer that holds the keys.
    pub de: &'a mut Deserializer<'de, R>,
}

impl<'x, 'de, R: Read<'de>> KeyDeserializer<'x, 'de, R> {
    /// The key that a back-reference stands for.
    pub fn parse_shared_str<'a>(&'a mut self, reference: u16) -> (r: Result<Str<'a, 'de>, Error>)
        requires
            old(self).de.wf(),
        ensures
            final(self).de.wf(),
            r matches Err(e) ==> e@ is Io || of_format(e@),
            final(self).de.depth() == old(self).de.depth(),
            *final(final(self).de) == *final(old(self).de),
            old(self).de@ is None ==> final(self).de@ is None,
            old(self).de@ matches Some(st) ==> match st.shared_property(reference) {
                Ok((key, st2)) => r matches Ok(s) && s@ == key && final(self).de@ == Some(st2),
                Err((k, sf)) => r matches Err(e) && e@ == k && final(self).de@ == Some(sf),
            },
    {
        self.de.shared_property(reference)
    }

    /// The key that a back-reference of two bytes stands for, behind its lead byte.
    pub fn parse_long_shared_str<'a>(&'a mut self, reference_hi: u8) -> (r: Result<
        Str<'a, 'de>,
        Error,
    >)
        requires
            old(self).de.wf(),
        ensures
            final(self).de.wf(),
            r matches Err(e) ==> e@ is Io || of_format(e@),
            final(self).de.depth() == old(self).de.depth(),
            *final(final(self).de) == *final(old(self).de),
            old(self).de@ is None ==> final(self).de@ is None,
            old(self).de@ matches Some(st) ==> match st.byte() {
                Ok((lo, st1)) => match st1.shared_property(
                    ((reference_hi as u16) << 8) | (lo as u16),
                ) {
                    Ok((key, st2)) => r matches Ok(s) && s@ == key && final(self).de@ == Some(st2),
                    Err((k, sf)) => r matches Err(e) && e@ == k && final(self).de@ == Some(sf),
                },
                Err((k, sf)) => r matches Err(e) && e@ == k && final(self).de@ == Some(sf),
            },
    {
        let reference_lo = self.de.parse_u8()?;
        let reference = (reference_hi as u16) << 8 | reference_lo as u16;
        self.parse_shared_str(reference)
    }

    /// A key between its lead byte and the end mark. A slice hands out the input itself, a
    /// stream a buffer of its own.
    pub fn parse_long_str<'a>(&'a mut self) -> (r: Result<Str<'a, 'de>, Error>)
        requires
            old(self).de.wf(),
        ensures
            final(self).de.wf(),
            r matches Err(e) ==> e@ is Io || of_format(e@),
            final(self).de.depth() == old(self).de.depth(),
            *final(final(self).de) == *final(old(self).de),
            old(self).de@ is None ==> final(self).de@ is None,
            old(self).de@ matches Some(st) ==> match st.until(0xfc) {
                Ok((bytes, st1)) => match st1.literal_key(bytes) {
                    Ok((key, st2)) => r matches Ok(s) && s@ == key && final(self).de@ == Some(st2),
                    Err((k, sf)) => r matches Err(e) && e@ == k && final(self).de@ == Some(sf),
                },
                Err((k, sf)) => r matches Err(e) && e@ == k && final(self).de@ == Some(sf),
            },
            old(self).de@ matches Some(st) ==> (r matches Ok(s) ==> (s is Short <==> st.drains)),
    {
        self.de.parse_str_inner(None)
    }

    /// A key of `len` bytes behind its lead byte. A slice hands out the input itself, a stream
    /// a buffer of its own.
    pub fn parse_short_str<'a>(&'a mut self, len: usize) -> (r: Result<Str<'a, 'de>, Error>)
        requires
            old(self).de.wf(),
        ensures
            final(self).de.wf(),
            r matches Err(e) ==> e@ is Io || of_format(e@),
            final(self).de.depth() == old(self).de.depth(),
            *final(final(self).de) == *final(old(self).de),
            old(self).de@ is None ==> final(self).de@ is None,
            old(self).de@ matches Some(st) ==> match st.take(len as nat) {
                Ok((bytes, st1)) => match st1.literal_key(bytes) {
                    Ok((key, st2)) => r matches Ok(s) && s@ == key && final(self).de@ == Some(st2),
                    Err((k, sf)) => r matches Err(e) && e@ == k && final(self).de@ == Some(sf),
                },
                Err((k, sf)) => r matches Err(e) && e@ == k && final(self).de@ == Some(sf),
            },
            old(self).de@ matches Some(st) ==> (r matches Ok(s) ==> (s is Short <==> st.drains)),
    {
        self.de.parse_str_inner(Some(len))
    }

    /// The key that the next token gives.
    pub fn parse_str<'a>(&'a mut self) -> (r: Result<Str<'a, 'de>, Error>)
        requires
            old(self).de.wf(),
        ensures
            final(self).de.wf(),
            r matches Err(e) ==> e@ is Io || of_format(e@),
            final(self).de.depth() == old(self).de.depth(),
            *final(final(self).de) == *final(old(self).de),
            old(self).de@ is None ==> final(self).de@ is None,
            old(self).de@ matches Some(st) ==> match st.key() {
                Ok((key, st2)) => r matches Ok(s) && s@ == key && final(self).de@ == Some(st2),
                Err((k, sf)) => r matches Err(e) && e@ == k && final(self).de@ == Some(sf),
            },
    {
        proof {
            reveal(crate::wire::decode::Reader::key);
        }
        let token = self.de.parse_u8()?;
        if token <= 0x1f {
            Err(Error::reserved_token())
        } else if token == 0x20 {
            proof {
                reveal_strlit("");
                assert(""@ =~= Seq::<char>::empty());
            }
            Ok(Str::Long(""))
        } else if token <= 0x2f {
            Err(Error::reserved_token())
        } else if token <= 0x33 {
            self.parse_long_shared_str(token - 0x30)
        } else if token == 0x34 {
            self.parse_long_str()
        } else if token <= 0x39 {
            Err(Error::reserved_token())
        } else if token == 0x3a {
            Err(Error::unexpected_token())
        } else if token <= 0x3f {
            Err(Error::reserved_token())
        } else if token <= 0x7f {
            self.parse_shared_str(token as u16 - 0x40)
        } else if token <= 0xbf {
            self.parse_short_str(token as usize - (0x80 - 1))
        } else if token <= 0xf7 {
            self.parse_short_str(token as usize - (0xc0 - 2))
        } else if token <= 0xfa {
            Err(Error::reserved_token())
        } else if token == 0xfb {
            Err(Error::unexpected_token())
        } else {
            Err(Error::reserved_token())
        }
    }

    /// The format is binary.
    pub fn is_human_readable(&self) -> (r: bool)
        ensures
            !r,
    {
        false
    }
}

impl<'de, R: Read<'de>> Deserializer<'de, R> {
    /// The key under an index of the cache of keys.
    pub(crate) fn shared_property<'a>(&'a mut self, reference: u16) -> (r: Result<
        Str<'a, 'de>,
        Error,
    >)
        requires
            old(self).wf(),
        ensures
            final(self).wf(),
            r matches Err(e) ==> e@ is Io || of_format(e@),
            final(self).depth() == old(self).depth(),
            old(self)@ is None ==> final(self)@ is None,
            old(self)@ matches Some(st) ==> match st.shared_property(reference) {
                Ok((key, st2)) => r matches Ok(s) && s@ == key && final(self)@ == Some(st2),
                Err((k, sf)) => r matches Err(e) && e@ == k && final(self)@ == Some(sf),
            },
    {
        let cow = match &self.shared_properties {
            Some(c) => match c.get(reference) {
                Some(cow) => cow,
                None => return Err(Error::invalid_string_reference()),
            },
            None => return Err(Error::invalid_string_reference()),
        };
        let s = match cow {
            Cow::Borrowed(s) => Str::Long(*s),
            Cow::Owned(s) => Str::Short(s.as_str()),
        };
        Ok(s)
    }

    /// A key that is written out: of `len` bytes, or up to the end mark where no length is
    /// given. The cache of keys takes it in where it is not longer than 64 bytes.
    pub(crate) fn parse_str_inner<'a>(&'a mut self, len: Option<usize>) -> (r: Result<
        Str<'a, 'de>,
        Error,
    >)
        requires
            old(self).wf(),
        ensures
            final(self).wf(),
            r matches Err(e) ==> e@ is Io || of_format(e@),
            final(self).depth() == old(self).depth(),
            old(self)@ is None ==> final(self)@ is None,
            old(self)@ matches Some(st) ==> match (match len {
                Some(n) => st.take(n as nat),
                None => st.until(0xfc),
            }) {
                Ok((bytes, st1)) => match st1.literal_key(bytes) {
                    Ok((key, st2)) => r matches Ok(s) && s@ == key && final(self)@ == Some(st2),
                    Err((k, sf)) => r matches Err(e) && e@ == k && final(self)@ == Some(sf),
                },
                Err((k, sf)) => r matches Err(e) && e@ == k && final(self)@ == Some(sf),
            },
            old(self)@ matches Some(st) ==> (r matches Ok(s) ==> (s is Short <==> st.drains)),
    {
        let found = match len {
            Some(n) => self.reader.read(n)?,
            None => self.reader.read_until(0xfc)?,
        };
        let buf = match found {
            Some(buf) => buf,
            None => return Err(Error::eof_while_parsing_value()),
        };
        match buf {
            Buf::Short(buf) => {
                let s = match from_utf8(buf) {
                    Some(s) => s,
                    None => return Err(Error::invalid_utf8()),
                };
                if buf.len() <= 64 {
                    if let Some(shared_properties) = &mut self.shared_properties {
                        shared_properties.intern(Cow::Owned(s.to_owned()));
                    }
                }
                Ok(Str::Short(s))
            },
            Buf::Long(buf) => {
                let s = match from_utf8(buf) {
                    Some(s) => s,
                    None => return Err(Error::invalid_utf8()),
                };
                if buf.len() <= 64 {
                    if let Some(shared_properties) = &mut self.shared_properties {
                        shared_properties.intern(Cow::Borrowed(s));
                    }
                }
                Ok(Str::Long(s))
            },
        }
    }
}

} // verus!
