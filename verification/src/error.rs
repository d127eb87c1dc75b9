//! The ways in which reading or editing a PNG buffer can fail.
use vstd::prelude::*;

verus! {

/// Why an operation on tags, chunks or whole buffers was refused.
#[derive(Clone, Copy, Debug, PartialEq, Eq, Structural)]
pub enum PngError {
    /// A chunk type that is not four ASCII letters.
    MalformedTag,
    /// Fewer bytes than a chunk's header or its declared length needs.
    TruncatedRecord,
    /// The stored CRC-32 differs from the one computed over type and data.
    ChecksumMismatch,
    /// The buffer does not start with the eight bytes of the PNG signature.
    SignatureMismatch,
    /// No chunk of the requested type is present.
    TagNotFound,
    /// Bytes that were asked for as text are not valid UTF-8.
    NonTextPayload,
}

impl PngError {
    /// A short description for people.
    pub fn message(&self) -> (r: &'static str)
        ensures
            r@ == self.spec_message()@,
    {
        match self {
            PngError::MalformedTag => "invalid chunk type: four ASCII letters expected",
            PngError::TruncatedRecord => "invalid data: chunk is truncated",
            PngError::ChecksumMismatch => "invalid chunk: checksum mismatch",
            PngError::SignatureMismatch => "invalid signature",
            PngError::TagNotFound => "no chunk of the requested type found",
            PngError::NonTextPayload => "bytes are not valid UTF-8 text",
        }
    }

    /// The text that [`PngError::message`] returns.
    pub open spec fn spec_message(&self) -> &'static str {
        match self {
            PngError::MalformedTag => "invalid chunk type: four ASCII letters expected",
            PngError::TruncatedRecord => "invalid data: chunk is truncated",
            PngError::ChecksumMismatch => "invalid chunk: checksum mismatch",
            PngError::SignatureMismatch => "invalid signature",
            PngError::TagNotFound => "no chunk of the requested type found",
            PngError::NonTextPayload => "bytes are not valid UTF-8 text",
        }
    }
}

} // verus!
