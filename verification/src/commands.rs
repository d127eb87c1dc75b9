//! The four commands, from the bytes of a file to the bytes or the text that
//! the caller gets back.
use crate::args::{DecodeArgs, EncodeArgs, PrintArgs, RemoveArgs};
use crate::checksum::crc32;
use crate::chunk::{Chunk, ChunkSpec};
use crate::chunk_type::ChunkType;
use crate::error::PngError;
use crate::layout::{
    all_lettered, first_match, lemma_first_match, lemma_first_match_at,
    lemma_read_after_write, lemma_write_after_read, parse_png, png_bytes,
};
use crate::png::{all_text, tag_texts, texts, Png};
use crate::text::{all_letters, ascii_chars, lemma_letters_are_text};
use std::str::FromStr;
use vstd::prelude::*;
use vstd::slice::slice_to_vec;
use vstd::string::*;
use vstd::utf8::*;

verus! {

/// The chunk that holds `message` under the type `tag`.
pub open spec fn message_chunk(tag: Seq<u8>, message: Seq<u8>) -> ChunkSpec {
    ChunkSpec { tag, data: message, crc: crc32(tag + message) }
}

/// The buffer `contents` with a chunk of type `tag` that holds `message`
/// added at its end. The buffer is read first; then `tag` must be four
/// letters.
pub open spec fn encoded(contents: Seq<u8>, tag: Seq<u8>, message: Seq<u8>) -> Result<
    Seq<u8>,
    PngError,
> {
    match parse_png(contents) {
        Err(e) => Err(e),
        Ok(cs) => if tag.len() == 4 && all_letters(tag) {
            Ok(png_bytes(cs.push(message_chunk(tag, message))))
        } else {
            Err(PngError::MalformedTag)
        },
    }
}

/// The text in the first chunk of type `tag` in the buffer `contents`.
pub open spec fn decoded(contents: Seq<u8>, tag: Seq<u8>) -> Result<Seq<char>, PngError> {
    match parse_png(contents) {
        Err(e) => Err(e),
        Ok(cs) => match first_match(cs, tag) {
            None => Err(PngError::TagNotFound),
            Some(i) => if valid_utf8(cs[i].data) {
                Ok(decode_utf8(cs[i].data))
            } else {
                Err(PngError::NonTextPayload)
            },
        },
    }
}

/// The buffer `contents` without its first chunk of type `tag`.
pub open spec fn removed(contents: Seq<u8>, tag: Seq<u8>) -> Result<Seq<u8>, PngError> {
    match parse_png(contents) {
        Err(e) => Err(e),
        Ok(cs) => match first_match(cs, tag) {
            None => Err(PngError::TagNotFound),
            Some(i) => Ok(png_bytes(cs.remove(i))),
        },
    }
}

/// The types of the chunks in the buffer `contents`, as text and in order.
pub open spec fn listed(contents: Seq<u8>) -> Result<Seq<Seq<char>>, PngError> {
    match parse_png(contents) {
        Err(e) => Err(e),
        Ok(cs) => Ok(tag_texts(cs)),
    }
}

/// What [`encoded`] gives is a PNG buffer again: the chunks that were there,
/// then the new one.
pub proof fn lemma_encoded_parses(contents: Seq<u8>, tag: Seq<u8>, message: Seq<u8>)
    requires
        message.len() <= u32::MAX,
        encoded(contents, tag, message) is Ok,
    ensures
        parse_png(contents) is Ok,
        parse_png(encoded(contents, tag, message).unwrap()) == Ok::<Seq<ChunkSpec>, PngError>(
            parse_png(contents).unwrap().push(message_chunk(tag, message)),
        ),
{
    let cs = parse_png(contents).unwrap();
    let m = message_chunk(tag, message);
    let all = cs.push(m);
    lemma_write_after_read(contents);
    assert forall|i: int| 0 <= i < all.len() implies (#[trigger] all[i]).sound() && all_letters(
        all[i].tag,
    ) by {
        if i < cs.len() {
            assert(all[i] == cs[i]);
        }
    }
    lemma_read_after_write(all);
}

/// Encode, then decode: a message that was added under a type that the
/// buffer did not hold before is what decoding that type gives.
pub proof fn lemma_decode_after_encode(contents: Seq<u8>, tag: Seq<u8>, message: Seq<char>)
    requires
        encode_utf8(message).len() <= u32::MAX,
        encoded(contents, tag, encode_utf8(message)) is Ok,
        first_match(parse_png(contents).unwrap(), tag) is None,
    ensures
        decoded(encoded(contents, tag, encode_utf8(message)).unwrap(), tag) == Ok::<
            Seq<char>,
            PngError,
        >(message),
{
    let data = encode_utf8(message);
    let cs = parse_png(contents).unwrap();
    let m = message_chunk(tag, data);
    let all = cs.push(m);
    lemma_encoded_parses(contents, tag, data);
    lemma_first_match(cs, tag);
    assert forall|j: int| 0 <= j < cs.len() implies (#[trigger] all[j]).tag != tag by {
        assert(all[j] == cs[j]);
    }
    lemma_first_match_at(all, tag, cs.len() as int);
    encode_utf8_valid_utf8(message);
    encode_utf8_decode_utf8(message);
}

/// Encode, then remove: taking out a chunk of a type that the buffer did not
/// hold before it was added gives the buffer as it was, byte for byte.
pub proof fn lemma_remove_after_encode(contents: Seq<u8>, tag: Seq<u8>, message: Seq<u8>)
    requires
        message.len() <= u32::MAX,
        encoded(contents, tag, message) is Ok,
        first_match(parse_png(contents).unwrap(), tag) is None,
    ensures
        removed(encoded(contents, tag, message).unwrap(), tag) == Ok::<Seq<u8>, PngError>(contents),
{
    let cs = parse_png(contents).unwrap();
    let m = message_chunk(tag, message);
    let all = cs.push(m);
    lemma_encoded_parses(contents, tag, message);
    lemma_first_match(cs, tag);
    assert forall|j: int| 0 <= j < cs.len() implies (#[trigger] all[j]).tag != tag by {
        assert(all[j] == cs[j]);
    }
    lemma_first_match_at(all, tag, cs.len() as int);
    assert(all.remove(cs.len() as int) =~= cs);
    lemma_write_after_read(contents);
}

/// What [`listed`] gives for a chunk is the letters of its type, one
/// character for each of the four bytes.
pub proof fn lemma_listed_letters(contents: Seq<u8>, i: int)
    requires
        parse_png(contents) is Ok,
        0 <= i < parse_png(contents).unwrap().len(),
    ensures
        listed(contents) is Ok,
        listed(contents).unwrap().len() == parse_png(contents).unwrap().len(),
        listed(contents).unwrap()[i] == ascii_chars(parse_png(contents).unwrap()[i].tag),
        listed(contents).unwrap()[i].len() == 4,
{
    let cs = parse_png(contents).unwrap();
    lemma_write_after_read(contents);
    assert(all_letters(cs[i].tag));
    assert(cs[i].sound());
    lemma_letters_are_text(cs[i].tag);
}

/// Adds the message of `args` to the PNG buffer `contents`, as [`encoded`]
/// says, and returns the new buffer.
pub fn encode(contents: &[u8], args: &EncodeArgs) -> (r: Result<Vec<u8>, PngError>)
    requires
        encode_utf8(args.message@).len() <= u32::MAX,
    ensures
        match encoded(contents@, encode_utf8(args.chunk_type@), encode_utf8(args.message@)) {
            Ok(b) => r is Ok && r.unwrap()@ == b,
            Err(e) => r == Err::<Vec<u8>, PngError>(e),
        },
{
    let mut png = match Png::try_from(contents) {
        Ok(p) => p,
        Err(e) => {
            return Err(e);
        },
    };
    let chunk_type = match ChunkType::from_str(args.chunk_type.as_str()) {
        Ok(t) => t,
        Err(e) => {
            return Err(e);
        },
    };
    let data = slice_to_vec(args.message.as_str().as_bytes());
    let chunk = Chunk::new(chunk_type, data);
    assert(chunk@ == message_chunk(encode_utf8(args.chunk_type@), encode_utf8(args.message@)));
    png.append_chunk(chunk);
    Ok(png.as_bytes())
}

/// Reads the message under the chunk type of `args` from the PNG buffer
/// `contents`, as [`decoded`] says.
pub fn decode(contents: &[u8], args: &DecodeArgs) -> (r: Result<String, PngError>)
    ensures
        match decoded(contents@, encode_utf8(args.chunk_type@)) {
            Ok(t) => r is Ok && r.unwrap()@ == t,
            Err(e) => r == Err::<String, PngError>(e),
        },
{
    let png = match Png::try_from(contents) {
        Ok(p) => p,
        Err(e) => {
            return Err(e);
        },
    };
    match png.chunk_by_type(args.chunk_type.as_str()) {
        None => Err(PngError::TagNotFound),
        Some(chunk) => chunk.data_as_string(),
    }
}

/// Takes the first chunk of the type of `args` out of the PNG buffer
/// `contents`, as [`removed`] says, and returns the new buffer.
pub fn remove(contents: &[u8], args: &RemoveArgs) -> (r: Result<Vec<u8>, PngError>)
    ensures
        match removed(contents@, encode_utf8(args.chunk_type@)) {
            Ok(b) => r is Ok && r.unwrap()@ == b,
            Err(e) => r == Err::<Vec<u8>, PngError>(e),
        },
{
    let mut png = match Png::try_from(contents) {
        Ok(p) => p,
        Err(e) => {
            return Err(e);
        },
    };
    match png.remove_chunk(args.chunk_type.as_str()) {
        Err(e) => Err(e),
        Ok(_) => Ok(png.as_bytes()),
    }
}

/// Lists the chunk types of the PNG buffer `contents`, as [`listed`] says.
pub fn get_chunk_types(contents: &[u8], args: &PrintArgs) -> (r: Result<Vec<String>, PngError>)
    ensures
        match listed(contents@) {
            Ok(l) => r is Ok && texts(r.unwrap()@) == l,
            Err(e) => r == Err::<Vec<String>, PngError>(e),
        },
{
    let png = match Png::try_from(contents) {
        Ok(p) => p,
        Err(e) => {
            return Err(e);
        },
    };
    proof {
        lemma_write_after_read(contents@);
        assert(all_lettered(png@));
        assert forall|i: int| 0 <= i < png@.len() implies valid_utf8((#[trigger] png@[i]).tag) by {
            lemma_letters_are_text(png@[i].tag);
        }
        assert(all_text(png@));
    }
    png.chunk_types()
}

} // verus!
