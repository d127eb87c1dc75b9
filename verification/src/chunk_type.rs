//! The four-byte type of a chunk and the properties that its bytes encode.
use crate::error::PngError;
use crate::text::{all_letters, ascii_chars, is_letter, lemma_letters_are_text, text_of};
use std::str::FromStr;
use vstd::prelude::*;
use vstd::std_specs::convert::TryFromSpecImpl;
use vstd::string::*;
use vstd::utf8::*;

verus! {

/// Bit 5 (value 32) of `b` is set: for a letter, that it is lower case.
pub open spec fn bit5(b: u8) -> bool {
    b & 32 != 0
}

/// A chunk type: four bytes, meant to be ASCII letters.
///
/// [`ChunkType::new`] takes any four bytes; `try_from` and `from_str` take
/// letters only. Whether a value also conforms to the PNG standard is a
/// separate question, answered by [`ChunkType::is_valid`].
#[derive(PartialEq, Eq, Debug, Clone, Copy)]
pub struct ChunkType([u8; 4]);

impl View for ChunkType {
    type V = Seq<u8>;

    /// The four bytes, in order.
    open spec fn view(&self) -> Seq<u8> {
        self.raw()@
    }
}

impl ChunkType {
    /// The four bytes as an array.
    pub closed spec fn raw(&self) -> [u8; 4] {
        self.0
    }

    /// The chunk type that holds `bytes`.
    pub closed spec fn of(bytes: [u8; 4]) -> ChunkType {
        ChunkType(bytes)
    }

    /// [`ChunkType::of`] and [`ChunkType::raw`] undo each other.
    pub proof fn lemma_of_raw(&self, bytes: [u8; 4])
        ensures
            ChunkType::of(bytes).raw() == bytes,
            ChunkType::of(self.raw()) == *self,
    {
    }

    /// All four bytes are letters and the reserved bit is clear.
    pub open spec fn conforms(&self) -> bool {
        all_letters(self@) && !bit5(self@[2])
    }

    /// Takes four bytes as a chunk type without looking at them.
    pub fn new(bytes: [u8; 4]) -> (r: Self)
        ensures
            r.raw() == bytes,
    {
        Self(bytes)
    }

    /// The four bytes.
    pub fn bytes(&self) -> (r: [u8; 4])
        ensures
            r == self.raw(),
    {
        self.0
    }

    /// Whether `b` is an ASCII letter.
    pub fn is_byte_valid(b: &u8) -> (r: bool)
        ensures
            r == is_letter(*b),
    {
        (0x41 <= *b && *b <= 0x5A) || (0x61 <= *b && *b <= 0x7A)
    }

    /// Whether all four bytes are ASCII letters.
    pub fn is_chunk_valid(chunk: &[u8; 4]) -> (r: bool)
        ensures
            r == all_letters(chunk@),
    {
        let r = Self::is_byte_valid(&chunk[0]) && Self::is_byte_valid(&chunk[1])
            && Self::is_byte_valid(&chunk[2]) && Self::is_byte_valid(&chunk[3]);
        proof {
            if !r {
                assert(!is_letter(chunk@[0]) || !is_letter(chunk@[1]) || !is_letter(chunk@[2])
                    || !is_letter(chunk@[3]));
            }
        }
        r
    }

    /// Whether the type conforms to the standard: letters only, reserved bit clear.
    pub fn is_valid(&self) -> (r: bool)
        ensures
            r == self.conforms(),
    {
        self.is_reserved_bit_valid() && Self::is_chunk_valid(&self.0)
    }

    /// Critical chunks have bit 5 of the first byte clear.
    pub fn is_critical(&self) -> (r: bool)
        ensures
            r == !bit5(self@[0]),
    {
        (self.0[0] & 32u8) == 0
    }

    /// Public chunks have bit 5 of the second byte clear.
    pub fn is_public(&self) -> (r: bool)
        ensures
            r == !bit5(self@[1]),
    {
        (self.0[1] & 32u8) == 0
    }

    /// The reserved bit, bit 5 of the third byte, must be clear.
    pub fn is_reserved_bit_valid(&self) -> (r: bool)
        ensures
            r == !bit5(self@[2]),
    {
        (self.0[2] & 32u8) == 0
    }

    /// Chunks that are safe to copy have bit 5 of the fourth byte set.
    pub fn is_safe_to_copy(&self) -> (r: bool)
        ensures
            r == bit5(self@[3]),
    {
        (self.0[3] & 32u8) != 0
    }

    /// The type as text.
    ///
    /// Fails with [`PngError::NonTextPayload`] exactly if the bytes are not
    /// valid UTF-8, which letters always are.
    pub fn to_text(&self) -> (r: Result<String, PngError>)
        ensures
            match r {
                Ok(s) => valid_utf8(self@) && s@ == decode_utf8(self@),
                Err(e) => !valid_utf8(self@) && e == PngError::NonTextPayload,
            },
    {
        match text_of(self.0.as_slice()) {
            Some(s) => Ok(s),
            None => Err(PngError::NonTextPayload),
        }
    }

    /// A type made of letters always has a text, one character per byte, and
    /// that text read as a type gives the same four bytes again.
    pub proof fn lemma_text_round_trip(&self)
        requires
            all_letters(self@),
        ensures
            valid_utf8(self@),
            decode_utf8(self@) == ascii_chars(self@),
            encode_utf8(decode_utf8(self@)) == self@,
    {
        lemma_letters_are_text(self@);
        decode_utf8_encode_utf8(self@);
    }

    /// The type's bytes are those of a text exactly if the type reads as
    /// that text.
    pub proof fn lemma_bytes_of_text(&self, text: Seq<char>)
        ensures
            self@ == encode_utf8(text) <==> valid_utf8(self@) && decode_utf8(self@) == text,
    {
        if self@ == encode_utf8(text) {
            encode_utf8_valid_utf8(text);
            encode_utf8_decode_utf8(text);
        }
        if valid_utf8(self@) && decode_utf8(self@) == text {
            decode_utf8_encode_utf8(self@);
        }
    }

    /// Whether the type's bytes are those of `text`, that is, whether the
    /// type reads as `text`.
    pub fn matches_text(&self, text: &str) -> (r: bool)
        ensures
            r == (self@ == text.spec_bytes()),
    {
        let b = text.as_bytes();
        if b.len() != 4 {
            return false;
        }
        let r = self.0[0] == b[0] && self.0[1] == b[1] && self.0[2] == b[2] && self.0[3] == b[3];
        proof {
            if r {
                assert(self@ =~= b@);
            }
        }
        r
    }
}

impl TryFrom<[u8; 4]> for ChunkType {
    type Error = PngError;

    /// A chunk type from four bytes, which must all be ASCII letters.
    fn try_from(value: [u8; 4]) -> (r: Result<Self, PngError>)
        ensures
            match r {
                Ok(t) => all_letters(value@) && t.raw() == value,
                Err(e) => !all_letters(value@) && e == PngError::MalformedTag,
            },
    {
        if Self::is_chunk_valid(&value) {
            Ok(Self::new(value))
        } else {
            Err(PngError::MalformedTag)
        }
    }
}

impl TryFromSpecImpl<[u8; 4]> for ChunkType {
    open spec fn obeys_try_from_spec() -> bool {
        true
    }

    open spec fn try_from_spec(v: [u8; 4]) -> Result<Self, PngError> {
        if all_letters(v@) {
            Ok(ChunkType::of(v))
        } else {
            Err(PngError::MalformedTag)
        }
    }
}

impl FromStr for ChunkType {
    type Err = PngError;

    /// A chunk type from text, which must be four ASCII letters.
    fn from_str(s: &str) -> (r: Result<Self, PngError>)
        ensures
            match r {
                Ok(t) => s.spec_bytes().len() == 4 && all_letters(s.spec_bytes()) && t@
                    == s.spec_bytes(),
                Err(e) => !(s.spec_bytes().len() == 4 && all_letters(s.spec_bytes())) && e
                    == PngError::MalformedTag,
            },
    {
        let b = s.as_bytes();
        if b.len() != 4 {
            return Err(PngError::MalformedTag);
        }
        let value: [u8; 4] = [b[0], b[1], b[2], b[3]];
        assert(value@ =~= b@);
        match ChunkType::try_from(value) {
            Ok(t) => Ok(t),
            Err(e) => Err(e),
        }
    }
}

} // verus!
