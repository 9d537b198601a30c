use vstd::prelude::*;

verus! {

/// Everything that can go wrong while decoding.
#[derive(Debug, Clone, Copy, PartialEq, Eq, Hash, Structural)]
pub enum Error {
    /// The source ran out of bytes before the value was complete.
    BufferTooShort,
    /// The discriminant names no variant of the tagged union being read.
    InvalidEnumVariant,
    /// An extension was expected, or the payload of a reserved extension is malformed.
    InvalidExtension,
    /// The body of a string is not valid UTF-8.
    InvalidUtf8,
    /// The format tag does not belong to the family the decoder accepts.
    UnexpectedFormatTag,
    /// A fixed-size array was announced with another length than its static one.
    UnexpectedArrayLength,
    /// The operation is not supported.
    NotImplemented,
}

impl Error {
    /// The name of the error, as it is written in the code.
    pub open spec fn name(&self) -> Seq<char> {
        match self {
            Error::BufferTooShort => "BufferTooShort"@,
            Error::InvalidEnumVariant => "InvalidEnumVariant"@,
            Error::InvalidExtension => "InvalidExtension"@,
            Error::InvalidUtf8 => "InvalidUtf8"@,
            Error::UnexpectedFormatTag => "UnexpectedFormatTag"@,
            Error::UnexpectedArrayLength => "UnexpectedArrayLength"@,
            Error::NotImplemented => "NotImplemented"@,
        }
    }

    /// A short, stable description of the error: its name.
    pub fn message(&self) -> (s: &'static str)
        ensures
            s@ == self.name(),
    {
        match self {
            Error::BufferTooShort => "BufferTooShort",
            Error::InvalidEnumVariant => "InvalidEnumVariant",
            Error::InvalidExtension => "InvalidExtension",
            Error::InvalidUtf8 => "InvalidUtf8",
            Error::UnexpectedFormatTag => "UnexpectedFormatTag",
            Error::UnexpectedArrayLength => "UnexpectedArrayLength",
            Error::NotImplemented => "NotImplemented",
        }
    }
}

} // verus!
