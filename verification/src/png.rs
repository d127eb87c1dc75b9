//! A whole PNG buffer taken apart: the signature and the chunks that follow it.
use crate::chunk::{lemma_parse_chunk_ok, parse_chunk, push_all, Chunk, ChunkSpec};
use crate::error::PngError;
use crate::layout::{
    all_sound, chunks_bytes, chunks_then, first_match, lemma_chunks_bytes_push, lemma_first_match,
    lemma_first_match_at, lemma_first_match_none, parse_chunks, parse_png, png_bytes, signature,
};
use vstd::prelude::*;
use vstd::string::*;
use vstd::utf8::*;

verus! {

/// The types of the chunks of `cs`, each decoded as text.
pub open spec fn tag_texts(cs: Seq<ChunkSpec>) -> Seq<Seq<char>> {
    Seq::new(cs.len(), |i: int| decode_utf8(cs[i].tag))
}

/// Every chunk of `cs` has a type that is valid UTF-8.
pub open spec fn all_text(cs: Seq<ChunkSpec>) -> bool {
    forall|i: int| 0 <= i < cs.len() ==> valid_utf8((#[trigger] cs[i]).tag)
}

/// What a list of strings holds, as sequences of characters.
pub open spec fn texts(v: Seq<String>) -> Seq<Seq<char>> {
    Seq::new(v.len(), |i: int| v[i]@)
}

/// What a list of chunks holds.
pub open spec fn chunk_views(v: Seq<Chunk>) -> Seq<ChunkSpec> {
    Seq::new(v.len(), |i: int| v[i]@)
}

/// A PNG buffer taken apart: its chunks, in order.
#[derive(Debug, PartialEq, Eq)]
pub struct Png {
    chunks: Vec<Chunk>,
}

impl View for Png {
    type V = Seq<ChunkSpec>;

    closed spec fn view(&self) -> Seq<ChunkSpec> {
        chunk_views(self.chunks@)
    }
}

/// The eight signature bytes.
pub fn standard_header() -> (r: [u8; 8])
    ensures
        r@ == signature(),
{
    let r: [u8; 8] = [137, 80, 78, 71, 13, 10, 26, 10];
    assert(r@ =~= signature());
    r
}

fn has_signature(bytes: &[u8]) -> (r: bool)
    ensures
        r == (bytes@.len() >= 8 && bytes@.subrange(0, 8) == signature()),
{
    if bytes.len() < 8 {
        return false;
    }
    let sig = standard_header();
    let mut i: usize = 0;
    while i < 8
        invariant
            i <= 8,
            bytes@.len() >= 8,
            sig@ == signature(),
            forall|j: int| 0 <= j < i ==> bytes@[j] == sig@[j],
        decreases 8 - i,
    {
        if bytes[i] != sig[i] {
            assert(bytes@.subrange(0, 8)[i as int] != signature()[i as int]);
            return false;
        }
        i += 1;
    }
    assert(bytes@.subrange(0, 8) =~= signature());
    true
}

impl Png {
    /// The invariant of every value that this library hands out: each chunk
    /// is sound.
    pub open spec fn wf(&self) -> bool {
        all_sound(self@)
    }

    /// A buffer's worth of the given chunks, in the given order.
    pub fn from_chunks(chunks: Vec<Chunk>) -> (r: Png)
        requires
            forall|i: int| 0 <= i < chunks@.len() ==> (#[trigger] chunks@[i]).wf(),
        ensures
            r.wf(),
            r@ == chunk_views(chunks@),
    {
        Png { chunks }
    }

    /// Takes a PNG buffer apart, as [`parse_png`] says.
    pub fn try_from(bytes: &[u8]) -> (r: Result<Png, PngError>)
        ensures
            match parse_png(bytes@) {
                Ok(cs) => r is Ok && r.unwrap()@ == cs && r.unwrap().wf(),
                Err(e) => r == Err::<Png, PngError>(e),
            },
    {
        if !has_signature(bytes) {
            return Err(PngError::SignatureMismatch);
        }
        let mut chunks: Vec<Chunk> = Vec::new();
        let mut at: usize = 8;
        assert(chunk_views(chunks@) =~= Seq::<ChunkSpec>::empty());
        assert(parse_chunks(bytes@.skip(8)) == chunks_then(
            chunk_views(chunks@),
            parse_chunks(bytes@.skip(8)),
        )) by {
            match parse_chunks(bytes@.skip(8)) {
                Ok(cs) => {
                    assert(Seq::<ChunkSpec>::empty() + cs =~= cs);
                },
                Err(_) => {},
            }
        }
        while at < bytes.len()
            invariant
                8 <= at <= bytes.len(),
                parse_png(bytes@) == parse_chunks(bytes@.skip(8)),
                all_sound(chunk_views(chunks@)),
                parse_chunks(bytes@.skip(8)) == chunks_then(
                    chunk_views(chunks@),
                    parse_chunks(bytes@.skip(at as int)),
                ),
            decreases bytes.len() - at,
        {
            let ghost tail = bytes@.skip(at as int);
            let ghost before = chunk_views(chunks@);
            match Chunk::parse_at(bytes, at) {
                Err(e) => {
                    proof {
                        assert(tail.len() > 0);
                        assert(parse_chunk(tail) == Err::<ChunkSpec, PngError>(e));
                        assert(parse_chunks(tail) == Err::<Seq<ChunkSpec>, PngError>(e));
                    }
                    return Err(e);
                },
                Ok(c) => {
                    proof {
                        lemma_parse_chunk_ok(tail);
                        assert(tail.skip(c@.size()) =~= bytes@.skip(at + c@.size()));
                    }
                    let n = c.data().len();
                    at = at + 12 + n;
                    chunks.push(c);
                    proof {
                        let after = chunk_views(chunks@);
                        assert(after =~= before.push(c@));
                        match parse_chunks(bytes@.skip(at as int)) {
                            Ok(cs) => {
                                assert(before + (seq![c@] + cs) =~= after + cs);
                            },
                            Err(_) => {},
                        }
                    }
                },
            }
        }
        proof {
            assert(bytes@.skip(at as int).len() == 0);
            assert(chunk_views(chunks@) + Seq::<ChunkSpec>::empty() =~= chunk_views(chunks@));
        }
        Ok(Png { chunks })
    }

    /// Adds `chunk` after the chunks that are there.
    pub fn append_chunk(&mut self, chunk: Chunk)
        requires
            old(self).wf(),
            chunk.wf(),
        ensures
            final(self).wf(),
            final(self)@ == old(self)@.push(chunk@),
    {
        self.chunks.push(chunk);
        assert(self@ =~= old(self)@.push(chunk@));
    }

    /// The position of the first chunk whose type has the bytes of `chunk_type`.
    fn position(&self, chunk_type: &str) -> (r: Option<usize>)
        ensures
            match r {
                Some(i) => first_match(self@, chunk_type.spec_bytes()) == Some(i as int) && i
                    < self.chunks@.len(),
                None => first_match(self@, chunk_type.spec_bytes()) is None,
            },
    {
        let mut i: usize = 0;
        while i < self.chunks.len()
            invariant
                i <= self.chunks@.len(),
                forall|j: int| 0 <= j < i ==> (#[trigger] self@[j]).tag != chunk_type.spec_bytes(),
            decreases self.chunks@.len() - i,
        {
            if self.chunks[i].chunk_type().matches_text(chunk_type) {
                proof {
                    lemma_first_match_at(self@, chunk_type.spec_bytes(), i as int);
                }
                return Some(i);
            }
            i += 1;
        }
        proof {
            lemma_first_match_none(self@, chunk_type.spec_bytes());
        }
        None
    }

    /// Takes out the first chunk whose type reads `chunk_type` and returns it.
    ///
    /// Where no chunk has that type, nothing changes and the error is
    /// [`PngError::TagNotFound`].
    pub fn remove_chunk(&mut self, chunk_type: &str) -> (r: Result<Chunk, PngError>)
        requires
            old(self).wf(),
        ensures
            final(self).wf(),
            match first_match(old(self)@, chunk_type.spec_bytes()) {
                Some(i) => {
                    &&& r is Ok
                    &&& r.unwrap()@ == old(self)@[i]
                    &&& r.unwrap().wf()
                    &&& final(self)@ == old(self)@.remove(i)
                },
                None => {
                    &&& r == Err::<Chunk, PngError>(PngError::TagNotFound)
                    &&& final(self)@ == old(self)@
                },
            },
    {
        match self.position(chunk_type) {
            Some(i) => {
                proof {
                    lemma_first_match(self@, chunk_type.spec_bytes());
                }
                let c = self.chunks.remove(i);
                assert(self@ =~= old(self)@.remove(i as int));
                assert(c@ == old(self)@[i as int]);
                Ok(c)
            },
            None => Err(PngError::TagNotFound),
        }
    }

    /// The first chunk whose type reads `chunk_type`, if there is one.
    pub fn chunk_by_type(&self, chunk_type: &str) -> (r: Option<&Chunk>)
        ensures
            match first_match(self@, chunk_type.spec_bytes()) {
                Some(i) => r is Some && r.unwrap()@ == self@[i],
                None => r is None,
            },
            self.wf() && r is Some ==> r.unwrap().wf(),
    {
        match self.position(chunk_type) {
            Some(i) => {
                assert(self@[i as int] == self.chunks@[i as int]@);
                Some(&self.chunks[i])
            },
            None => None,
        }
    }

    /// The signature bytes.
    pub fn header(&self) -> (r: [u8; 8])
        ensures
            r@ == signature(),
    {
        standard_header()
    }

    /// The chunks, in order.
    pub fn chunks(&self) -> (r: &[Chunk])
        ensures
            chunk_views(r@) == self@,
            self.wf() ==> forall|i: int| 0 <= i < r@.len() ==> (#[trigger] r@[i]).wf(),
    {
        assert forall|i: int| 0 <= i < self.chunks@.len() implies (#[trigger] self.chunks@[i])@
            == self@[i] by {}
        self.chunks.as_slice()
    }

    /// The types of all chunks as text, in order, repeated ones included.
    ///
    /// Fails with [`PngError::NonTextPayload`] exactly if some type is not
    /// valid UTF-8, which types made of letters always are.
    pub fn chunk_types(&self) -> (r: Result<Vec<String>, PngError>)
        ensures
            match r {
                Ok(v) => all_text(self@) && texts(v@) == tag_texts(self@),
                Err(e) => !all_text(self@) && e == PngError::NonTextPayload,
            },
    {
        let mut out: Vec<String> = Vec::new();
        let mut i: usize = 0;
        while i < self.chunks.len()
            invariant
                i <= self.chunks@.len(),
                out@.len() == i,
                forall|j: int| 0 <= j < i ==> valid_utf8((#[trigger] self@[j]).tag),
                forall|j: int| 0 <= j < i ==> (#[trigger] out@[j])@ == decode_utf8(self@[j].tag),
            decreases self.chunks@.len() - i,
        {
            match self.chunks[i].chunk_type().to_text() {
                Ok(s) => {
                    out.push(s);
                },
                Err(_) => {
                    assert(!valid_utf8(self@[i as int].tag));
                    return Err(PngError::NonTextPayload);
                },
            }
            i += 1;
        }
        assert(texts(out@) =~= tag_texts(self@));
        Ok(out)
    }

    /// The buffer that holds these chunks: the signature, then each chunk.
    pub fn as_bytes(&self) -> (r: Vec<u8>)
        requires
            self.wf(),
        ensures
            r@ == png_bytes(self@),
    {
        let sig = standard_header();
        let mut out: Vec<u8> = Vec::new();
        push_all(&mut out, sig.as_slice());
        let mut i: usize = 0;
        assert(self@.take(0) =~= Seq::<ChunkSpec>::empty());
        assert(out@ =~= signature() + chunks_bytes(self@.take(0)));
        while i < self.chunks.len()
            invariant
                i <= self.chunks@.len(),
                self.wf(),
                out@ == signature() + chunks_bytes(self@.take(i as int)),
            decreases self.chunks@.len() - i,
        {
            proof {
                lemma_chunks_bytes_push(self@.take(i as int), self@[i as int]);
                assert(self@.take(i as int).push(self@[i as int]) =~= self@.take(i + 1));
                assert(self@[i as int].sound());
            }
            self.chunks[i].write_to(&mut out);
            i += 1;
            assert(out@ =~= signature() + chunks_bytes(self@.take(i as int)));
        }
        assert(self@.take(i as int) =~= self@);
        out
    }
}

} // verus!
