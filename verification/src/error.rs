//! The ways in which decoding or editing a container can fail.

use vstd::prelude::*;

verus! {

/// A failure reported by the chunk codec or the container.
#[derive(Debug, Clone, Copy, PartialEq, Eq, Structural)]
pub enum Error {
    /// The input does not begin with the container signature.
    BadSignature,
    /// Fewer bytes than the smallest possible chunk frame.
    TooShort,
    /// The declared payload length does not account for the bytes at hand.
    LengthMismatch,
    /// The four type bytes are not four ASCII letters.
    InvalidType,
    /// The stored checksum is not the checksum of type and payload.
    ChecksumMismatch,
    /// The payload was asked for as text and is not valid UTF-8.
    NotUtf8,
    /// No chunk of the requested type is in the container.
    NotFound,
    /// A chunk type was given as text that is not four characters long.
    InvalidLength,
    /// A chunk type was given as text that holds something other than an ASCII letter.
    InvalidCharacter,
}

impl Error {
    /// The text of [`Error::message`].
    pub open spec fn spec_message(self) -> Seq<char> {
        match self {
            Error::BadSignature => "bad signature"@,
            Error::TooShort => "value length less than 12"@,
            Error::LengthMismatch => "parse err"@,
            Error::InvalidType => "chunk_type is invalid"@,
            Error::ChecksumMismatch => "verify crc"@,
            Error::NotUtf8 => "data is not valid UTF-8"@,
            Error::NotFound => "chunk not found"@,
            Error::InvalidLength => "invalid str"@,
            Error::InvalidCharacter => "invalid character"@,
        }
    }

    /// A short description of the failure, for display.
    pub fn message(&self) -> (text: &'static str)
        ensures
            text@ == self.spec_message(),
    {
        match self {
            Error::BadSignature => "bad signature",
            Error::TooShort => "value length less than 12",
            Error::LengthMismatch => "parse err",
            Error::InvalidType => "chunk_type is invalid",
            Error::ChecksumMismatch => "verify crc",
            Error::NotUtf8 => "data is not valid UTF-8",
            Error::NotFound => "chunk not found",
            Error::InvalidLength => "invalid str",
            Error::InvalidCharacter => "invalid character",
        }
    }
}

} // verus!
