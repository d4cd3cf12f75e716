//! The errors of encoding and decoding.
use vstd::prelude::*;

verus! {

/// `std::io::Error`, the error of the input and output layer. Nothing is said of what is in it:
/// it is carried through as the cause of [`ErrorKind::Io`].
#[verifier::external_type_specification]
#[verifier::external_body]
pub struct ExIoError(std::io::Error);

/// What went wrong.
#[derive(Debug)]
pub enum ErrorKind {
    /// The byte source or sink failed.
    Io(std::io::Error),
    /// A message from the layer that drives the codec.
    Custom(String),
    /// A map key that is not a string.
    KeyMustBeAString,
    /// The input ended inside a value.
    EofWhileParsingValue,
    /// A token that the format reserves.
    ReservedToken,
    /// A back-reference to a string that the cache does not hold.
    InvalidStringReference,
    /// A variable-length integer without a terminating byte within its limit.
    UnterminatedVint,
    /// A length that does not fit the platform's size type.
    BufferLengthOverflow,
    /// A big integer where none can be taken.
    UnsupportedBigInteger,
    /// A big decimal where none can be taken.
    UnsupportedBigDecimal,
    /// String bytes that are not UTF-8.
    InvalidUtf8,
    /// Containers nested deeper than the decoder follows.
    RecursionLimitExceeded,
    /// Bytes after the end of a value or a container.
    TrailingData,
    /// The input ended inside an array.
    EofWhileParsingArray,
    /// A framing token where a value or key should start.
    UnexpectedToken,
    /// The input ended inside a map.
    EofWhileParsingMap,
    /// The first three bytes are not the Smile signature.
    InvalidHeader,
    /// A version nibble other than zero.
    UnsupportedVersion,
    /// The input ended inside the header.
    EofWhileParsingHeader,
}

/// An error encountered when serializing or deserializing to or from Smile.
#[derive(Debug)]
pub struct Error(Box<ErrorKind>);

impl View for Error {
    type V = ErrorKind;

    closed spec fn view(&self) -> ErrorKind {
        *self.0
    }
}

impl Error {
    /// The kind of this error.
    pub fn kind(&self) -> (k: &ErrorKind)
        ensures
            *k == self@,
    {
        &*self.0
    }

    /// A short description, the text that the error displays as.
    pub fn message(&self) -> (s: String)
        ensures
            self@ matches ErrorKind::Custom(m) ==> s@ == m@,
            self@ is Io ==> s@ == "IO error"@,
            self@ is KeyMustBeAString ==> s@ == "key must be a string"@,
            self@ is EofWhileParsingValue ==> s@ == "EOF while parsing a value"@,
            self@ is ReservedToken ==> s@ == "reserved token"@,
            self@ is InvalidStringReference ==> s@ == "invalid string reference"@,
            self@ is UnterminatedVint ==> s@ == "unterminated vint"@,
            self@ is BufferLengthOverflow ==> s@ == "buffer length overflow"@,
            self@ is UnsupportedBigInteger ==> s@ == "unsupported BigInteger"@,
            self@ is UnsupportedBigDecimal ==> s@ == "unsupported BigDecimal"@,
            self@ is InvalidUtf8 ==> s@ == "invalid UTF-8"@,
            self@ is RecursionLimitExceeded ==> s@ == "recursion limit exceeded"@,
            self@ is TrailingData ==> s@ == "trailing data"@,
            self@ is EofWhileParsingArray ==> s@ == "EOF while parsing array"@,
            self@ is UnexpectedToken ==> s@ == "unexpected token"@,
            self@ is EofWhileParsingMap ==> s@ == "EOF while parsing map"@,
            self@ is InvalidHeader ==> s@ == "invalid header"@,
            self@ is UnsupportedVersion ==> s@ == "unsupported version"@,
            self@ is EofWhileParsingHeader ==> s@ == "EOF while parsing header"@,
    {
        match &*self.0 {
            ErrorKind::Io(_) => "IO error".to_owned(),
            ErrorKind::Custom(e) => e.clone(),
            ErrorKind::KeyMustBeAString => "key must be a string".to_owned(),
            ErrorKind::EofWhileParsingValue => "EOF while parsing a value".to_owned(),
            ErrorKind::ReservedToken => "reserved token".to_owned(),
            ErrorKind::InvalidStringReference => "invalid string reference".to_owned(),
            ErrorKind::UnterminatedVint => "unterminated vint".to_owned(),
            ErrorKind::BufferLengthOverflow => "buffer length overflow".to_owned(),
            ErrorKind::UnsupportedBigInteger => "unsupported BigInteger".to_owned(),
            ErrorKind::UnsupportedBigDecimal => "unsupported BigDecimal".to_owned(),
            ErrorKind::InvalidUtf8 => "invalid UTF-8".to_owned(),
            ErrorKind::RecursionLimitExceeded => "recursion limit exceeded".to_owned(),
            ErrorKind::TrailingData => "trailing data".to_owned(),
            ErrorKind::EofWhileParsingArray => "EOF while parsing array".to_owned(),
            ErrorKind::UnexpectedToken => "unexpected token".to_owned(),
            ErrorKind::EofWhileParsingMap => "EOF while parsing map".to_owned(),
            ErrorKind::InvalidHeader => "invalid header".to_owned(),
            ErrorKind::UnsupportedVersion => "unsupported version".to_owned(),
            ErrorKind::EofWhileParsingHeader => "EOF while parsing header".to_owned(),
        }
    }

    /// The underlying cause, which only an [`ErrorKind::Io`] error has.
    pub fn source(&self) -> (cause: Option<&std::io::Error>)
        ensures
            cause matches Some(e) ==> self@ == ErrorKind::Io(*e),
            cause is Some <==> self@ is Io,
    {
        match &*self.0 {
            ErrorKind::Io(e) => Some(e),
            _ => None,
        }
    }

    /// An error with a message of the caller's.
    pub fn custom(msg: String) -> (e: Error)
        ensures
            e@ == ErrorKind::Custom(msg),
    {
        Error(Box::new(ErrorKind::Custom(msg)))
    }

    /// An error of the byte source or sink, with its cause.
    pub fn io(e: std::io::Error) -> (r: Error)
        ensures
            r@ == ErrorKind::Io(e),
    {
        Error(Box::new(ErrorKind::Io(e)))
    }

    /// The error of a map key that is not a string.
    pub fn key_must_be_a_string() -> (e: Error)
        ensures
            e@ == ErrorKind::KeyMustBeAString,
    {
        Error(Box::new(ErrorKind::KeyMustBeAString))
    }

    /// The error of an input that ends inside a value.
    pub fn eof_while_parsing_value() -> (e: Error)
        ensures
            e@ == ErrorKind::EofWhileParsingValue,
    {
        Error(Box::new(ErrorKind::EofWhileParsingValue))
    }

    /// The error of a token that the format reserves.
    pub fn reserved_token() -> (e: Error)
        ensures
            e@ == ErrorKind::ReservedToken,
    {
        Error(Box::new(ErrorKind::ReservedToken))
    }

    /// The error of a back-reference to nothing.
    pub fn invalid_string_reference() -> (e: Error)
        ensures
            e@ == ErrorKind::InvalidStringReference,
    {
        Error(Box::new(ErrorKind::InvalidStringReference))
    }

    /// The error of a variable-length integer without an end.
    pub fn unterminated_vint() -> (e: Error)
        ensures
            e@ == ErrorKind::UnterminatedVint,
    {
        Error(Box::new(ErrorKind::UnterminatedVint))
    }

    /// The error of a length that the platform cannot address.
    pub fn buffer_length_overflow() -> (e: Error)
        ensures
            e@ == ErrorKind::BufferLengthOverflow,
    {
        Error(Box::new(ErrorKind::BufferLengthOverflow))
    }

    /// The error of a big integer where none can be taken.
    pub fn unsupported_big_integer() -> (e: Error)
        ensures
            e@ == ErrorKind::UnsupportedBigInteger,
    {
        Error(Box::new(ErrorKind::UnsupportedBigInteger))
    }

    /// The error of a big decimal where none can be taken.
    pub fn unsupported_big_decimal() -> (e: Error)
        ensures
            e@ == ErrorKind::UnsupportedBigDecimal,
    {
        Error(Box::new(ErrorKind::UnsupportedBigDecimal))
    }

    /// The error of string bytes that are not UTF-8.
    pub fn invalid_utf8() -> (e: Error)
        ensures
            e@ == ErrorKind::InvalidUtf8,
    {
        Error(Box::new(ErrorKind::InvalidUtf8))
    }

    /// The error of containers nested too deep.
    pub fn recursion_limit_exceeded() -> (e: Error)
        ensures
            e@ == ErrorKind::RecursionLimitExceeded,
    {
        Error(Box::new(ErrorKind::RecursionLimitExceeded))
    }

    /// The error of bytes where a value or a container should end.
    pub fn trailing_data() -> (e: Error)
        ensures
            e@ == ErrorKind::TrailingData,
    {
        Error(Box::new(ErrorKind::TrailingData))
    }

    /// The error of an input that ends inside an array.
    pub fn eof_while_parsing_array() -> (e: Error)
        ensures
            e@ == ErrorKind::EofWhileParsingArray,
    {
        Error(Box::new(ErrorKind::EofWhileParsingArray))
    }

    /// The error of a framing token where a value or key should start.
    pub fn unexpected_token() -> (e: Error)
        ensures
            e@ == ErrorKind::UnexpectedToken,
    {
        Error(Box::new(ErrorKind::UnexpectedToken))
    }

    /// The error of an input that ends inside a map.
    pub fn eof_while_parsing_map() -> (e: Error)
        ensures
            e@ == ErrorKind::EofWhileParsingMap,
    {
        Error(Box::new(ErrorKind::EofWhileParsingMap))
    }

    /// The error of a signature that is not the one of the format.
    pub fn invalid_header() -> (e: Error)
        ensures
            e@ == ErrorKind::InvalidHeader,
    {
        Error(Box::new(ErrorKind::InvalidHeader))
    }

    /// The error of a version other than zero.
    pub fn unsupported_version() -> (e: Error)
        ensures
            e@ == ErrorKind::UnsupportedVersion,
    {
        Error(Box::new(ErrorKind::UnsupportedVersion))
    }

    /// The error of an input that ends inside the header.
    pub fn eof_while_parsing_header() -> (e: Error)
        ensures
            e@ == ErrorKind::EofWhileParsingHeader,
    {
        Error(Box::new(ErrorKind::EofWhileParsingHeader))
    }
}

} // verus!
