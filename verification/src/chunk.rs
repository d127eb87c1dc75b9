//! One chunk: length, type, data and checksum, and its exact byte layout.
use crate::checksum::{crc32, crc32_of, lemma_crc32_detects_one_changed_byte};
use crate::chunk_type::ChunkType;
use crate::error::PngError;
use crate::text::{all_letters, text_of};
use vstd::prelude::*;
use vstd::slice::{slice_subrange, slice_to_vec};
use vstd::utf8::*;

verus! {

/// The four bytes of `v`, most significant first.
pub open spec fn be_bytes(v: u32) -> Seq<u8> {
    seq![
        ((v >> 24) & 0xff) as u8,
        ((v >> 16) & 0xff) as u8,
        ((v >> 8) & 0xff) as u8,
        (v & 0xff) as u8,
    ]
}

/// The number whose big-endian bytes are the first four of `s`.
pub open spec fn be_value(s: Seq<u8>) -> u32 {
    ((s[0] as u32) << 24) | ((s[1] as u32) << 16) | ((s[2] as u32) << 8) | (s[3] as u32)
}

/// Reading back what [`be_bytes`] wrote gives the number.
pub proof fn lemma_be_value_of_bytes(v: u32)
    ensures
        be_value(be_bytes(v)) == v,
{
    let a = ((v >> 24) & 0xff) as u8;
    let b = ((v >> 16) & 0xff) as u8;
    let c = ((v >> 8) & 0xff) as u8;
    let d = (v & 0xff) as u8;
    assert(((a as u32) << 24) | ((b as u32) << 16) | ((c as u32) << 8) | (d as u32) == v)
        by (bit_vector)
        requires
            a == ((v >> 24) & 0xff) as u8,
            b == ((v >> 16) & 0xff) as u8,
            c == ((v >> 8) & 0xff) as u8,
            d == (v & 0xff) as u8,
    ;
}

/// Big-endian in the usual sense: each byte counts 256 times the next.
pub proof fn lemma_be_value_is_positional(s: Seq<u8>)
    ensures
        be_value(s) == s[0] * 0x100_0000 + s[1] * 0x1_0000 + s[2] * 0x100 + s[3],
{
    let a = s[0];
    let b = s[1];
    let c = s[2];
    let d = s[3];
    assert(((a as u32) << 24) | ((b as u32) << 16) | ((c as u32) << 8) | (d as u32) == (a as u32)
        * 0x100_0000 + (b as u32) * 0x1_0000 + (c as u32) * 0x100 + (d as u32)) by (bit_vector);
}

/// Writing the number that four bytes encode gives those bytes.
pub proof fn lemma_be_bytes_of_value(s: Seq<u8>)
    requires
        s.len() == 4,
    ensures
        be_bytes(be_value(s)) == s,
{
    let a = s[0];
    let b = s[1];
    let c = s[2];
    let d = s[3];
    let v = be_value(s);
    assert(((v >> 24) & 0xff) as u8 == a && ((v >> 16) & 0xff) as u8 == b && ((v >> 8) & 0xff) as u8
        == c && (v & 0xff) as u8 == d) by (bit_vector)
        requires
            v == ((a as u32) << 24) | ((b as u32) << 16) | ((c as u32) << 8) | (d as u32),
    ;
    assert(be_bytes(v) =~= s);
}

/// What a chunk is: its type, its data and the checksum stored with it.
pub struct ChunkSpec {
    pub tag: Seq<u8>,
    pub data: Seq<u8>,
    pub crc: u32,
}

impl ChunkSpec {
    /// The type has four bytes, the length fits the length field, and the
    /// checksum is the CRC-32 of type and data.
    pub open spec fn sound(self) -> bool {
        &&& self.tag.len() == 4
        &&& self.data.len() <= u32::MAX
        &&& self.crc == crc32(self.tag + self.data)
    }

    /// The number of bytes that the chunk takes in a buffer.
    pub open spec fn size(self) -> int {
        12 + self.data.len() as int
    }

    /// The chunk with other data and the checksum left as it was.
    pub open spec fn with_data(self, data: Seq<u8>) -> ChunkSpec {
        ChunkSpec { tag: self.tag, data, crc: self.crc }
    }

    /// The chunk in a buffer: length, type, data, checksum.
    pub open spec fn bytes(self) -> Seq<u8> {
        be_bytes(self.data.len() as u32) + self.tag + self.data + be_bytes(self.crc)
    }
}

/// The chunk at the start of `bytes`, or the reason why there is none.
///
/// The tests come in this order: twelve bytes for the fixed fields, the
/// declared length against what is left, the type's letters, the checksum.
/// The definition is opaque; a proof that needs it reveals it.
#[verifier::opaque]
pub open spec fn parse_chunk(bytes: Seq<u8>) -> Result<ChunkSpec, PngError> {
    if bytes.len() < 12 {
        Err(PngError::TruncatedRecord)
    } else {
        let n = be_value(bytes.subrange(0, 4)) as int;
        if n > bytes.len() - 12 {
            Err(PngError::TruncatedRecord)
        } else {
            let tag = bytes.subrange(4, 8);
            let data = bytes.subrange(8, 8 + n);
            let crc = be_value(bytes.subrange(8 + n, 12 + n));
            if !all_letters(tag) {
                Err(PngError::MalformedTag)
            } else if crc32(tag + data) != crc {
                Err(PngError::ChecksumMismatch)
            } else {
                Ok(ChunkSpec { tag, data, crc })
            }
        }
    }
}

/// A chunk that was read is sound, has a type of letters, and stood in the
/// buffer exactly as [`ChunkSpec::bytes`] lays it out.
pub proof fn lemma_parse_chunk_ok(bytes: Seq<u8>)
    requires
        parse_chunk(bytes) is Ok,
    ensures
        ({
            let c = parse_chunk(bytes).unwrap();
            &&& c.sound()
            &&& all_letters(c.tag)
            &&& c.size() <= bytes.len()
            &&& bytes.subrange(0, c.size()) == c.bytes()
        }),
{
    reveal(parse_chunk);
    let c = parse_chunk(bytes).unwrap();
    let n = be_value(bytes.subrange(0, 4)) as int;
    assert(c.data.len() == n);
    lemma_be_bytes_of_value(bytes.subrange(0, 4));
    lemma_be_bytes_of_value(bytes.subrange(8 + n, 12 + n));
    assert(n as u32 == be_value(bytes.subrange(0, 4)));
    assert(bytes.subrange(0, c.size()) =~= c.bytes());
}

/// A sound chunk with a type of letters is read back from its own bytes,
/// whatever follows them.
pub proof fn lemma_parse_chunk_of_bytes(c: ChunkSpec, rest: Seq<u8>)
    requires
        c.sound(),
        all_letters(c.tag),
    ensures
        parse_chunk(c.bytes() + rest) == Ok::<ChunkSpec, PngError>(c),
        (c.bytes() + rest).skip(c.size()) == rest,
{
    reveal(parse_chunk);
    let bytes = c.bytes() + rest;
    let n = c.data.len() as int;
    assert(bytes.subrange(0, 4) =~= be_bytes(n as u32));
    lemma_be_value_of_bytes(n as u32);
    assert(bytes.subrange(4, 8) =~= c.tag);
    assert(bytes.subrange(8, 8 + n) =~= c.data);
    assert(bytes.subrange(8 + n, 12 + n) =~= be_bytes(c.crc));
    lemma_be_value_of_bytes(c.crc);
    assert(bytes.skip(c.size()) =~= rest);
}

/// A chunk whose stored checksum is wrong is refused for that reason, once
/// its length and type have passed.
pub proof fn lemma_wrong_checksum_is_refused(c: ChunkSpec, rest: Seq<u8>)
    requires
        c.tag.len() == 4,
        c.data.len() <= u32::MAX,
        all_letters(c.tag),
        c.crc != crc32(c.tag + c.data),
    ensures
        parse_chunk(c.bytes() + rest) == Err::<ChunkSpec, PngError>(PngError::ChecksumMismatch),
{
    reveal(parse_chunk);
    let bytes = c.bytes() + rest;
    let n = c.data.len() as int;
    assert(bytes.subrange(0, 4) =~= be_bytes(n as u32));
    lemma_be_value_of_bytes(n as u32);
    assert(bytes.subrange(4, 8) =~= c.tag);
    assert(bytes.subrange(8, 8 + n) =~= c.data);
    assert(bytes.subrange(8 + n, 12 + n) =~= be_bytes(c.crc));
    lemma_be_value_of_bytes(c.crc);
}

/// The checksum is determined by type and data: two sound chunks of the same
/// type and data have the same checksum, and so are the same chunk.
pub proof fn lemma_checksum_is_determined(a: ChunkSpec, b: ChunkSpec)
    requires
        a.sound(),
        b.sound(),
        a.tag == b.tag,
        a.data == b.data,
    ensures
        a.crc == b.crc,
        a == b,
{
}

/// A chunk that was cut short anywhere, even inside its length field, is
/// refused with [`PngError::TruncatedRecord`].
pub proof fn lemma_cut_chunk_is_truncated(c: ChunkSpec, k: int)
    requires
        c.tag.len() == 4,
        c.data.len() <= u32::MAX,
        0 <= k < c.size(),
    ensures
        parse_chunk(c.bytes().take(k)) == Err::<ChunkSpec, PngError>(PngError::TruncatedRecord),
{
    reveal(parse_chunk);
    let bytes = c.bytes().take(k);
    if k >= 12 {
        assert(bytes.subrange(0, 4) =~= be_bytes(c.data.len() as u32));
        lemma_be_value_of_bytes(c.data.len() as u32);
    }
}

/// Corruption is noticed: a sound chunk in which one data byte was changed,
/// by one bit or by more, while the stored checksum stayed, is refused with
/// [`PngError::ChecksumMismatch`].
pub proof fn lemma_changed_data_is_refused(c: ChunkSpec, i: int, b: u8, rest: Seq<u8>)
    requires
        c.sound(),
        all_letters(c.tag),
        0 <= i < c.data.len(),
        b != c.data[i],
    ensures
        parse_chunk(c.with_data(c.data.update(i, b)).bytes() + rest) == Err::<ChunkSpec, PngError>(
            PngError::ChecksumMismatch,
        ),
{
    let d = c.with_data(c.data.update(i, b));
    lemma_crc32_detects_one_changed_byte(c.tag + c.data, d.tag + d.data, 4 + i);
    lemma_wrong_checksum_is_refused(d, rest);
}

/// A chunk of a PNG buffer.
#[derive(Debug, PartialEq, Eq)]
pub struct Chunk {
    chunk_type: ChunkType,
    data: Vec<u8>,
    crc: u32,
}

impl View for Chunk {
    type V = ChunkSpec;

    closed spec fn view(&self) -> ChunkSpec {
        ChunkSpec { tag: self.chunk_type@, data: self.data@, crc: self.crc }
    }
}

fn read_be(bytes: &[u8], at: usize) -> (r: u32)
    requires
        at + 4 <= bytes.len(),
    ensures
        r == be_value(bytes@.subrange(at as int, at + 4)),
{
    let a: u32 = bytes[at] as u32;
    let b: u32 = bytes[at + 1] as u32;
    let c: u32 = bytes[at + 2] as u32;
    let d: u32 = bytes[at + 3] as u32;
    (a << 24) | (b << 16) | (c << 8) | d
}

fn push_be(out: &mut Vec<u8>, v: u32)
    ensures
        final(out)@ == old(out)@ + be_bytes(v),
{
    let w0: u32 = (v >> 24) & 0xff;
    let w1: u32 = (v >> 16) & 0xff;
    let w2: u32 = (v >> 8) & 0xff;
    let w3: u32 = v & 0xff;
    assert(w0 < 256 && w1 < 256 && w2 < 256 && w3 < 256) by (bit_vector)
        requires
            w0 == (v >> 24) & 0xff,
            w1 == (v >> 16) & 0xff,
            w2 == (v >> 8) & 0xff,
            w3 == v & 0xff,
    ;
    out.push(w0 as u8);
    out.push(w1 as u8);
    out.push(w2 as u8);
    out.push(w3 as u8);
    assert(out@ =~= old(out)@ + be_bytes(v));
}

/// Appends `src` to `out`.
pub(crate) fn push_all(out: &mut Vec<u8>, src: &[u8])
    ensures
        final(out)@ == old(out)@ + src@,
{
    let mut i: usize = 0;
    while i < src.len()
        invariant
            i <= src.len(),
            out@ == old(out)@ + src@.take(i as int),
        decreases src.len() - i,
    {
        out.push(src[i]);
        i += 1;
        assert(out@ =~= old(out)@ + src@.take(i as int));
    }
    assert(src@.take(i as int) =~= src@);
}

impl Chunk {
    /// The invariant of every chunk that this library hands out.
    pub open spec fn wf(&self) -> bool {
        self@.sound()
    }

    /// A chunk of the given type and data, with the checksum computed.
    pub fn new(chunk_type: ChunkType, data: Vec<u8>) -> (r: Chunk)
        requires
            data.len() <= u32::MAX,
        ensures
            r.wf(),
            r@.tag == chunk_type@,
            r@.data == data@,
    {
        let tag = chunk_type.bytes();
        let crc = crc32_of(tag.as_slice(), data.as_slice());
        Chunk { chunk_type, data, crc }
    }

    /// The chunk at `bytes[start..]`, read as [`parse_chunk`] says.
    pub(crate) fn parse_at(bytes: &[u8], start: usize) -> (r: Result<Chunk, PngError>)
        requires
            start <= bytes.len(),
        ensures
            match parse_chunk(bytes@.skip(start as int)) {
                Ok(c) => r is Ok && r.unwrap()@ == c && r.unwrap().wf(),
                Err(e) => r == Err::<Chunk, PngError>(e),
            },
    {
        proof {
            reveal(parse_chunk);
        }
        let ghost s = bytes@.skip(start as int);
        let avail = bytes.len() - start;
        if avail < 12 {
            return Err(PngError::TruncatedRecord);
        }
        assert(s.subrange(0, 4) =~= bytes@.subrange(start as int, start + 4));
        let n = read_be(bytes, start) as usize;
        if n > avail - 12 {
            return Err(PngError::TruncatedRecord);
        }
        let tag: [u8; 4] = [
            bytes[start + 4],
            bytes[start + 5],
            bytes[start + 6],
            bytes[start + 7],
        ];
        assert(tag@ =~= s.subrange(4, 8));
        if !ChunkType::is_chunk_valid(&tag) {
            return Err(PngError::MalformedTag);
        }
        let data = slice_to_vec(slice_subrange(bytes, start + 8, start + 8 + n));
        assert(data@ =~= s.subrange(8, 8 + n));
        assert(s.subrange(8 + n, 12 + n) =~= bytes@.subrange(start + 8 + n, start + 8 + n + 4));
        let stored = read_be(bytes, start + 8 + n);
        let crc = crc32_of(tag.as_slice(), data.as_slice());
        if crc != stored {
            return Err(PngError::ChecksumMismatch);
        }
        Ok(Chunk { chunk_type: ChunkType::new(tag), data, crc })
    }

    /// Reads the chunk at the start of `bytes`; what follows it is ignored.
    pub fn try_from(bytes: &[u8]) -> (r: Result<Chunk, PngError>)
        ensures
            match parse_chunk(bytes@) {
                Ok(c) => r is Ok && r.unwrap()@ == c && r.unwrap().wf(),
                Err(e) => r == Err::<Chunk, PngError>(e),
            },
    {
        assert(bytes@.skip(0) =~= bytes@);
        Self::parse_at(bytes, 0)
    }

    /// The number of data bytes.
    pub fn length(&self) -> (r: u32)
        requires
            self.wf(),
        ensures
            r == self@.data.len(),
    {
        self.data.len() as u32
    }

    /// The chunk's type.
    pub fn chunk_type(&self) -> (r: &ChunkType)
        ensures
            r@ == self@.tag,
    {
        &self.chunk_type
    }

    /// The data bytes.
    pub fn data(&self) -> (r: &[u8])
        ensures
            r@ == self@.data,
    {
        self.data.as_slice()
    }

    /// The stored checksum.
    pub fn crc(&self) -> (r: u32)
        ensures
            r == self@.crc,
    {
        self.crc
    }

    /// The data as text.
    ///
    /// Fails with [`PngError::NonTextPayload`] exactly if the data are not
    /// valid UTF-8.
    pub fn data_as_string(&self) -> (r: Result<String, PngError>)
        ensures
            match r {
                Ok(s) => valid_utf8(self@.data) && s@ == decode_utf8(self@.data),
                Err(e) => !valid_utf8(self@.data) && e == PngError::NonTextPayload,
            },
    {
        match text_of(self.data.as_slice()) {
            Some(s) => Ok(s),
            None => Err(PngError::NonTextPayload),
        }
    }

    /// Appends the chunk's bytes to `out`.
    pub(crate) fn write_to(&self, out: &mut Vec<u8>)
        requires
            self.wf(),
        ensures
            final(out)@ == old(out)@ + self@.bytes(),
    {
        push_be(out, self.data.len() as u32);
        let tag = self.chunk_type.bytes();
        push_all(out, tag.as_slice());
        push_all(out, self.data.as_slice());
        push_be(out, self.crc);
        assert(out@ =~= old(out)@ + self@.bytes());
    }

    /// The chunk as it stands in a buffer: length, type, data, checksum.
    pub fn as_bytes(&self) -> (r: Vec<u8>)
        requires
            self.wf(),
        ensures
            r@ == self@.bytes(),
    {
        let mut out: Vec<u8> = Vec::new();
        self.write_to(&mut out);
        assert(out@ =~= self@.bytes());
        out
    }
}

} // verus!
