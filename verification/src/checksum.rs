//! CRC-32 (ISO-HDLC), the checksum that guards every chunk.
use vstd::prelude::*;

verus! {

/// One bit of polynomial division by the reflected polynomial `0xEDB88320`.
pub open spec fn crc_shift(c: u32) -> u32 {
    if c & 1 == 1 {
        (c >> 1) ^ 0xEDB8_8320
    } else {
        c >> 1
    }
}

/// The register after one more byte of input has been divided in.
pub open spec fn crc_byte(c: u32, b: u8) -> u32 {
    crc_shift(
        crc_shift(
            crc_shift(crc_shift(crc_shift(crc_shift(crc_shift(crc_shift(c ^ (b as u32))))))),
        ),
    )
}

/// The register after `data` has been divided in, starting from `c`.
pub open spec fn crc_fold(c: u32, data: Seq<u8>) -> u32
    decreases data.len(),
{
    if data.len() == 0 {
        c
    } else {
        crc_byte(crc_fold(c, data.drop_last()), data.last())
    }
}

/// CRC-32 of `data`: the register starts from all ones and is inverted at the end.
pub open spec fn crc32(data: Seq<u8>) -> u32 {
    crc_fold(0xFFFF_FFFF, data) ^ 0xFFFF_FFFF
}

/// Dividing in `a + b` is dividing in `a` and then `b`.
pub proof fn lemma_crc_fold_concat(c: u32, a: Seq<u8>, b: Seq<u8>)
    ensures
        crc_fold(c, a + b) == crc_fold(crc_fold(c, a), b),
    decreases b.len(),
{
    if b.len() == 0 {
        assert(a + b =~= a);
    } else {
        assert((a + b).drop_last() =~= a + b.drop_last());
        lemma_crc_fold_concat(c, a, b.drop_last());
    }
}

proof fn lemma_crc_shift_injective(x: u32, y: u32)
    requires
        crc_shift(x) == crc_shift(y),
    ensures
        x == y,
{
    assert(forall|p: u32, q: u32|
        (if p & 1 == 1 {
            (p >> 1) ^ 0xEDB8_8320
        } else {
            p >> 1
        }) == (if q & 1 == 1 {
            (q >> 1) ^ 0xEDB8_8320
        } else {
            q >> 1
        }) ==> p == q) by (bit_vector);
}

proof fn lemma_crc_byte_injective(c: u32, b: u8, d: u32, e: u8)
    requires
        crc_byte(c, b) == crc_byte(d, e),
    ensures
        c ^ (b as u32) == d ^ (e as u32),
{
    let x0 = c ^ (b as u32);
    let y0 = d ^ (e as u32);
    let x1 = crc_shift(x0);
    let y1 = crc_shift(y0);
    let x2 = crc_shift(x1);
    let y2 = crc_shift(y1);
    let x3 = crc_shift(x2);
    let y3 = crc_shift(y2);
    let x4 = crc_shift(x3);
    let y4 = crc_shift(y3);
    let x5 = crc_shift(x4);
    let y5 = crc_shift(y4);
    let x6 = crc_shift(x5);
    let y6 = crc_shift(y5);
    let x7 = crc_shift(x6);
    let y7 = crc_shift(y6);
    lemma_crc_shift_injective(x7, y7);
    lemma_crc_shift_injective(x6, y6);
    lemma_crc_shift_injective(x5, y5);
    lemma_crc_shift_injective(x4, y4);
    lemma_crc_shift_injective(x3, y3);
    lemma_crc_shift_injective(x2, y2);
    lemma_crc_shift_injective(x1, y1);
    lemma_crc_shift_injective(x0, y0);
}

proof fn lemma_crc_fold_one_change(c: u32, a: Seq<u8>, b: Seq<u8>, i: int)
    requires
        a.len() == b.len(),
        0 <= i < a.len(),
        a[i] != b[i],
        forall|j: int| 0 <= j < a.len() && j != i ==> a[j] == b[j],
    ensures
        crc_fold(c, a) != crc_fold(c, b),
    decreases a.len(),
{
    let x = crc_fold(c, a.drop_last());
    let y = crc_fold(c, b.drop_last());
    if crc_fold(c, a) == crc_fold(c, b) {
        lemma_crc_byte_injective(x, a.last(), y, b.last());
        if i == a.len() - 1 {
            assert(a.drop_last() =~= b.drop_last());
            let p = a.last();
            let q = b.last();
            assert(x ^ (p as u32) == x ^ (q as u32) ==> p == q) by (bit_vector);
        } else {
            lemma_crc_fold_one_change(c, a.drop_last(), b.drop_last(), i);
            let p = a.last();
            assert(x ^ (p as u32) == y ^ (p as u32) ==> x == y) by (bit_vector);
        }
    }
}

/// Error detection: two inputs of one length that differ in exactly one byte,
/// by one bit or by more, never have the same CRC-32.
pub proof fn lemma_crc32_detects_one_changed_byte(a: Seq<u8>, b: Seq<u8>, i: int)
    requires
        a.len() == b.len(),
        0 <= i < a.len(),
        a[i] != b[i],
        forall|j: int| 0 <= j < a.len() && j != i ==> a[j] == b[j],
    ensures
        crc32(a) != crc32(b),
{
    lemma_crc_fold_one_change(0xFFFF_FFFF, a, b, i);
    let x = crc_fold(0xFFFF_FFFF, a);
    let y = crc_fold(0xFFFF_FFFF, b);
    assert(x ^ 0xFFFF_FFFFu32 == y ^ 0xFFFF_FFFFu32 ==> x == y) by (bit_vector);
}

fn shift(c: u32) -> (r: u32)
    ensures
        r == crc_shift(c),
{
    if c & 1 == 1 {
        (c >> 1) ^ 0xEDB8_8320
    } else {
        c >> 1
    }
}

fn feed_byte(c: u32, b: u8) -> (r: u32)
    ensures
        r == crc_byte(c, b),
{
    let wide: u32 = b as u32;
    let mut r: u32 = c ^ wide;
    r = shift(r);
    r = shift(r);
    r = shift(r);
    r = shift(r);
    r = shift(r);
    r = shift(r);
    r = shift(r);
    r = shift(r);
    r
}

/// Divides `bytes` into the register `c`.
pub fn crc_feed(c: u32, bytes: &[u8]) -> (r: u32)
    ensures
        r == crc_fold(c, bytes@),
{
    let mut r: u32 = c;
    let mut i: usize = 0;
    while i < bytes.len()
        invariant
            i <= bytes.len(),
            r == crc_fold(c, bytes@.take(i as int)),
        decreases bytes.len() - i,
    {
        proof {
            assert(bytes@.take(i + 1).drop_last() =~= bytes@.take(i as int));
        }
        r = feed_byte(r, bytes[i]);
        i += 1;
    }
    proof {
        assert(bytes@.take(i as int) =~= bytes@);
    }
    r
}

/// CRC-32 of `head` followed by `tail`.
pub fn crc32_of(head: &[u8], tail: &[u8]) -> (r: u32)
    ensures
        r == crc32(head@ + tail@),
{
    proof {
        lemma_crc_fold_concat(0xFFFF_FFFF, head@, tail@);
    }
    let c: u32 = crc_feed(0xFFFF_FFFF, head);
    crc_feed(c, tail) ^ 0xFFFF_FFFF
}

} // verus!
