//! The byte layout of a whole PNG buffer, and the laws of reading and writing it.
use crate::chunk::{
    lemma_cut_chunk_is_truncated, lemma_parse_chunk_of_bytes, lemma_parse_chunk_ok, parse_chunk,
    ChunkSpec,
};
use crate::error::PngError;
use crate::text::all_letters;
use vstd::prelude::*;

verus! {

/// The eight bytes with which every PNG buffer starts.
pub open spec fn signature() -> Seq<u8> {
    seq![137u8, 80u8, 78u8, 71u8, 13u8, 10u8, 26u8, 10u8]
}

/// The bytes of the chunks of `cs`, one after the other.
pub open spec fn chunks_bytes(cs: Seq<ChunkSpec>) -> Seq<u8>
    decreases cs.len(),
{
    if cs.len() == 0 {
        Seq::empty()
    } else {
        cs[0].bytes() + chunks_bytes(cs.drop_first())
    }
}

/// A buffer that holds the chunks of `cs`: the signature, then the chunks.
pub open spec fn png_bytes(cs: Seq<ChunkSpec>) -> Seq<u8> {
    signature() + chunks_bytes(cs)
}

/// `first`, then what `rest` holds if it holds chunks; else the error of `rest`.
pub open spec fn chunks_then(
    first: Seq<ChunkSpec>,
    rest: Result<Seq<ChunkSpec>, PngError>,
) -> Result<Seq<ChunkSpec>, PngError> {
    match rest {
        Ok(cs) => Ok(first + cs),
        Err(e) => Err(e),
    }
}

/// The chunks that fill `bytes` exactly, or the error of the first chunk
/// that cannot be read. Bytes that are left over count as a chunk cut short.
pub open spec fn parse_chunks(bytes: Seq<u8>) -> Result<Seq<ChunkSpec>, PngError>
    decreases bytes.len(),
    via parse_chunks_decreases
{
    if bytes.len() == 0 {
        Ok(Seq::empty())
    } else {
        match parse_chunk(bytes) {
            Ok(c) => chunks_then(seq![c], parse_chunks(bytes.skip(c.size()))),
            Err(e) => Err(e),
        }
    }
}

#[via_fn]
proof fn parse_chunks_decreases(bytes: Seq<u8>) {
    if bytes.len() != 0 && parse_chunk(bytes) is Ok {
        lemma_parse_chunk_ok(bytes);
    }
}

/// The chunks of a PNG buffer: the signature is checked first, then the rest
/// is read chunk by chunk to the very end.
pub open spec fn parse_png(bytes: Seq<u8>) -> Result<Seq<ChunkSpec>, PngError> {
    if bytes.len() < 8 || bytes.subrange(0, 8) != signature() {
        Err(PngError::SignatureMismatch)
    } else {
        parse_chunks(bytes.skip(8))
    }
}

/// Every chunk of `cs` is sound.
pub open spec fn all_sound(cs: Seq<ChunkSpec>) -> bool {
    forall|i: int| 0 <= i < cs.len() ==> (#[trigger] cs[i]).sound()
}

/// Every chunk of `cs` has a type made of letters.
pub open spec fn all_lettered(cs: Seq<ChunkSpec>) -> bool {
    forall|i: int| 0 <= i < cs.len() ==> all_letters((#[trigger] cs[i]).tag)
}

/// The position of the first chunk of `cs` whose type is `key`.
pub open spec fn first_match(cs: Seq<ChunkSpec>, key: Seq<u8>) -> Option<int>
    decreases cs.len(),
{
    if cs.len() == 0 {
        None
    } else if cs[0].tag == key {
        Some(0)
    } else {
        match first_match(cs.drop_first(), key) {
            Some(i) => Some(i + 1),
            None => None,
        }
    }
}

/// [`first_match`] finds a chunk of type `key`, with none of that type before
/// it, and finds nothing only where no chunk has that type.
pub proof fn lemma_first_match(cs: Seq<ChunkSpec>, key: Seq<u8>)
    ensures
        match first_match(cs, key) {
            Some(i) => 0 <= i < cs.len() && cs[i].tag == key && forall|j: int|
                0 <= j < i ==> (#[trigger] cs[j]).tag != key,
            None => forall|j: int| 0 <= j < cs.len() ==> (#[trigger] cs[j]).tag != key,
        },
    decreases cs.len(),
{
    if cs.len() > 0 && cs[0].tag != key {
        let rest = cs.drop_first();
        lemma_first_match(rest, key);
        match first_match(rest, key) {
            Some(i) => {
                assert forall|j: int| 0 <= j < i + 1 implies (#[trigger] cs[j]).tag != key by {
                    if j > 0 {
                        assert(cs[j] == rest[j - 1]);
                    }
                }
            },
            None => {
                assert forall|j: int| 0 <= j < cs.len() implies (#[trigger] cs[j]).tag != key by {
                    if j > 0 {
                        assert(cs[j] == rest[j - 1]);
                    }
                }
            },
        }
    }
}

/// A chunk of type `key` that has none of that type before it is the one
/// that [`first_match`] finds.
pub proof fn lemma_first_match_at(cs: Seq<ChunkSpec>, key: Seq<u8>, i: int)
    requires
        0 <= i < cs.len(),
        cs[i].tag == key,
        forall|j: int| 0 <= j < i ==> (#[trigger] cs[j]).tag != key,
    ensures
        first_match(cs, key) == Some(i),
{
    lemma_first_match(cs, key);
}

/// Where no chunk has the type `key`, [`first_match`] finds nothing.
pub proof fn lemma_first_match_none(cs: Seq<ChunkSpec>, key: Seq<u8>)
    requires
        forall|j: int| 0 <= j < cs.len() ==> (#[trigger] cs[j]).tag != key,
    ensures
        first_match(cs, key) is None,
{
    lemma_first_match(cs, key);
}

/// Of two chunks of one type with a chunk of another type between them, a
/// search for that type finds the first; with the first taken out the other
/// two stay in order, and the search finds the second. A search for a type
/// that none of them has finds nothing.
pub proof fn lemma_first_of_two_matches(a: ChunkSpec, b: ChunkSpec, a2: ChunkSpec, other: Seq<u8>)
    requires
        a.tag == a2.tag,
        b.tag != a.tag,
        other != a.tag,
        other != b.tag,
    ensures
        first_match(seq![a, b, a2], a.tag) == Some(0int),
        seq![a, b, a2].remove(0) == seq![b, a2],
        first_match(seq![b, a2], a.tag) == Some(1int),
        first_match(seq![a, b, a2], other) is None,
{
    let cs = seq![a, b, a2];
    assert(cs.remove(0) =~= seq![b, a2]);
    lemma_first_match_at(cs, a.tag, 0);
    lemma_first_match_at(seq![b, a2], a.tag, 1);
    lemma_first_match_none(cs, other);
}

/// The bytes of a sequence of chunks with one more chunk at its end.
pub proof fn lemma_chunks_bytes_push(cs: Seq<ChunkSpec>, c: ChunkSpec)
    ensures
        chunks_bytes(cs.push(c)) == chunks_bytes(cs) + c.bytes(),
    decreases cs.len(),
{
    if cs.len() == 0 {
        assert(cs.push(c).drop_first() =~= cs);
        assert(chunks_bytes(cs.push(c)) =~= chunks_bytes(cs) + c.bytes());
    } else {
        assert(cs.push(c).drop_first() =~= cs.drop_first().push(c));
        lemma_chunks_bytes_push(cs.drop_first(), c);
        assert(chunks_bytes(cs.push(c)) =~= chunks_bytes(cs) + c.bytes());
    }
}

/// Chunks that were read are sound, have types of letters and, laid out
/// again, give the bytes that they were read from.
pub proof fn lemma_parse_chunks_ok(bytes: Seq<u8>)
    requires
        parse_chunks(bytes) is Ok,
    ensures
        all_sound(parse_chunks(bytes).unwrap()),
        all_lettered(parse_chunks(bytes).unwrap()),
        chunks_bytes(parse_chunks(bytes).unwrap()) == bytes,
    decreases bytes.len(),
{
    let cs = parse_chunks(bytes).unwrap();
    if bytes.len() == 0 {
        assert(chunks_bytes(cs) =~= bytes);
    } else {
        let c = parse_chunk(bytes).unwrap();
        lemma_parse_chunk_ok(bytes);
        let tail = bytes.skip(c.size());
        lemma_parse_chunks_ok(tail);
        let rest = parse_chunks(tail).unwrap();
        assert(cs == seq![c] + rest);
        assert(cs.drop_first() =~= rest);
        assert(bytes =~= bytes.subrange(0, c.size()) + tail);
        assert forall|i: int| 0 <= i < cs.len() implies (#[trigger] cs[i]).sound() && all_letters(
            cs[i].tag,
        ) by {
            if i > 0 {
                assert(cs[i] == rest[i - 1]);
            }
        }
    }
}

/// Sound chunks with types of letters are read back from their own bytes.
pub proof fn lemma_parse_chunks_of_bytes(cs: Seq<ChunkSpec>)
    requires
        all_sound(cs),
        all_lettered(cs),
    ensures
        parse_chunks(chunks_bytes(cs)) == Ok::<Seq<ChunkSpec>, PngError>(cs),
    decreases cs.len(),
{
    if cs.len() == 0 {
        assert(cs =~= Seq::<ChunkSpec>::empty());
    } else {
        let c = cs[0];
        let rest = cs.drop_first();
        assert(c.sound() && all_letters(c.tag));
        assert forall|i: int| 0 <= i < rest.len() implies (#[trigger] rest[i]).sound()
            && all_letters(rest[i].tag) by {
            assert(rest[i] == cs[i + 1]);
        }
        lemma_parse_chunk_of_bytes(c, chunks_bytes(rest));
        lemma_parse_chunks_of_bytes(rest);
        let bytes = chunks_bytes(cs);
        assert(bytes == c.bytes() + chunks_bytes(rest));
        assert(bytes.len() > 0);
        assert(parse_chunk(bytes) == Ok::<ChunkSpec, PngError>(c));
        assert(bytes.skip(c.size()) == chunks_bytes(rest));
        assert(seq![c] + rest =~= cs);
    }
}

proof fn lemma_parse_chunks_cut(cs: Seq<ChunkSpec>, c: ChunkSpec, k: int)
    requires
        all_sound(cs),
        all_lettered(cs),
        c.tag.len() == 4,
        c.data.len() <= u32::MAX,
        0 < k < c.size(),
    ensures
        parse_chunks(chunks_bytes(cs) + c.bytes().take(k)) == Err::<Seq<ChunkSpec>, PngError>(
            PngError::TruncatedRecord,
        ),
    decreases cs.len(),
{
    let cut = c.bytes().take(k);
    let bytes = chunks_bytes(cs) + cut;
    assert(cut.len() == k);
    if cs.len() == 0 {
        assert(bytes =~= cut);
        lemma_cut_chunk_is_truncated(c, k);
    } else {
        let first = cs[0];
        let rest = cs.drop_first();
        assert(first.sound() && all_letters(first.tag));
        assert forall|i: int| 0 <= i < rest.len() implies (#[trigger] rest[i]).sound()
            && all_letters(rest[i].tag) by {
            assert(rest[i] == cs[i + 1]);
        }
        let tail = chunks_bytes(rest) + cut;
        assert(bytes =~= first.bytes() + tail);
        lemma_parse_chunk_of_bytes(first, tail);
        lemma_parse_chunks_cut(rest, c, k);
        assert(bytes.len() > 0);
        assert(parse_chunk(bytes) == Ok::<ChunkSpec, PngError>(first));
        assert(bytes.skip(first.size()) == tail);
    }
}

/// A buffer that ends inside a chunk is refused with
/// [`PngError::TruncatedRecord`], however many whole chunks come before the
/// cut: no part of it is handed out.
pub proof fn lemma_cut_buffer_is_truncated(cs: Seq<ChunkSpec>, c: ChunkSpec, k: int)
    requires
        all_sound(cs),
        all_lettered(cs),
        c.tag.len() == 4,
        c.data.len() <= u32::MAX,
        0 < k < c.size(),
    ensures
        parse_png(png_bytes(cs) + c.bytes().take(k)) == Err::<Seq<ChunkSpec>, PngError>(
            PngError::TruncatedRecord,
        ),
{
    let bytes = png_bytes(cs) + c.bytes().take(k);
    assert(bytes.subrange(0, 8) =~= signature());
    assert(bytes.skip(8) =~= chunks_bytes(cs) + c.bytes().take(k));
    lemma_parse_chunks_cut(cs, c, k);
}

/// A buffer that does not start with the signature is refused with
/// [`PngError::SignatureMismatch`], whatever else it holds.
pub proof fn lemma_wrong_signature_is_refused(bytes: Seq<u8>)
    requires
        bytes.len() < 8 || exists|i: int| 0 <= i < 8 && bytes[i] != signature()[i],
    ensures
        parse_png(bytes) == Err::<Seq<ChunkSpec>, PngError>(PngError::SignatureMismatch),
{
    if bytes.len() >= 8 {
        let i = choose|i: int| 0 <= i < 8 && bytes[i] != signature()[i];
        assert(bytes.subrange(0, 8)[i] == bytes[i]);
    }
}

/// Writing is the inverse of reading: the chunks read from a buffer, laid
/// out again, give that buffer byte for byte.
pub proof fn lemma_write_after_read(bytes: Seq<u8>)
    requires
        parse_png(bytes) is Ok,
    ensures
        png_bytes(parse_png(bytes).unwrap()) == bytes,
        all_sound(parse_png(bytes).unwrap()),
        all_lettered(parse_png(bytes).unwrap()),
{
    lemma_parse_chunks_ok(bytes.skip(8));
    assert(bytes =~= bytes.subrange(0, 8) + bytes.skip(8));
}

/// Reading is the inverse of writing: sound chunks with types of letters are
/// read back, all of them and in order, from the buffer that holds them.
pub proof fn lemma_read_after_write(cs: Seq<ChunkSpec>)
    requires
        all_sound(cs),
        all_lettered(cs),
    ensures
        parse_png(png_bytes(cs)) == Ok::<Seq<ChunkSpec>, PngError>(cs),
{
    let bytes = png_bytes(cs);
    assert(bytes.subrange(0, 8) =~= signature());
    assert(bytes.skip(8) =~= chunks_bytes(cs));
    lemma_parse_chunks_of_bytes(cs);
}

/// Round trip: whatever was read from a buffer is read again, unchanged,
/// from what writing it gives.
pub proof fn lemma_round_trip(bytes: Seq<u8>)
    requires
        parse_png(bytes) is Ok,
    ensures
        parse_png(png_bytes(parse_png(bytes).unwrap())) == parse_png(bytes),
{
    lemma_write_after_read(bytes);
}

} // verus!
