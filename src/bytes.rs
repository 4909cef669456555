//! 32-bit words and 4-byte padding, as the wire format lays them out.
//!
//! The protocol writes words in the host's byte order. This library fixes
//! that order to little-endian, the order of the hosts it is built for, so
//! that what a message encodes to depends on the message alone.
use vstd::prelude::*;

verus! {

/// The four bytes of `v`, least significant first.
pub open spec fn le32(v: u32) -> Seq<u8> {
    seq![(v & 0xff) as u8, ((v >> 8) & 0xff) as u8, ((v >> 16) & 0xff) as u8, ((v >> 24) & 0xff) as u8]
}

/// The word whose least significant byte stands at `b[i]`.
pub open spec fn word_at(b: Seq<u8>, i: int) -> u32 {
    (b[i] as u32) | ((b[i + 1] as u32) << 8u32) | ((b[i + 2] as u32) << 16u32) | ((b[i + 3] as u32) << 24u32)
}

/// Number of zero bytes that follow `n` bytes to reach a multiple of four.
pub open spec fn pad_len(n: int) -> int {
    (4 - n % 4) % 4
}

/// `n` rounded up to a multiple of four.
pub open spec fn padded(n: int) -> int {
    n + pad_len(n)
}

pub open spec fn zeros(n: int) -> Seq<u8> {
    Seq::new(n as nat, |i: int| 0u8)
}

proof fn lemma_bytes_word(v: u32, b0: u8, b1: u8, b2: u8, b3: u8)
    by (bit_vector)
    requires
        b0 == (v & 0xff) as u8,
        b1 == ((v >> 8) & 0xff) as u8,
        b2 == ((v >> 16) & 0xff) as u8,
        b3 == ((v >> 24) & 0xff) as u8,
    ensures
        (b0 as u32) | ((b1 as u32) << 8u32) | ((b2 as u32) << 16u32) | ((b3 as u32) << 24u32) == v,
{
}

/// Reading a word back from its four bytes gives the word.
pub proof fn lemma_word_of_le32(v: u32, rest: Seq<u8>)
    ensures
        word_at(le32(v) + rest, 0) == v,
{
    let b = le32(v) + rest;
    lemma_bytes_word(v, b[0], b[1], b[2], b[3]);
}

/// Reads the little-endian word at `b[i..i + 4]`.
pub fn read_word(b: &Vec<u8>, i: usize) -> (r: u32)
    requires
        i + 4 <= b@.len(),
    ensures
        r == word_at(b@, i as int),
{
    let n = b.len();
    assert(i + 4 <= n);
    let b0 = b[i] as u32;
    let b1 = b[i + 1] as u32;
    let b2 = b[i + 2] as u32;
    let b3 = b[i + 3] as u32;
    b0 | (b1 << 8u32) | (b2 << 16u32) | (b3 << 24u32)
}

/// Appends the four bytes of `v`.
pub fn push_word(out: &mut Vec<u8>, v: u32)
    ensures
        final(out)@ == old(out)@ + le32(v),
{
    out.push((v & 0xff) as u8);
    out.push(((v >> 8) & 0xff) as u8);
    out.push(((v >> 16) & 0xff) as u8);
    out.push(((v >> 24) & 0xff) as u8);
    assert(final(out)@ =~= old(out)@ + le32(v));
}

/// Appends the items of `src`.
pub fn push_bytes<T: Copy>(out: &mut Vec<T>, src: &Vec<T>)
    ensures
        final(out)@ == old(out)@ + src@,
{
    let ghost start = out@;
    let mut i: usize = 0;
    while i < src.len()
        invariant
            i <= src@.len(),
            out@ == start + src@.subrange(0, i as int),
        decreases src@.len() - i,
    {
        out.push(src[i]);
        i = i + 1;
        assert(out@ =~= start + src@.subrange(0, i as int));
    }
    assert(src@.subrange(0, src@.len() as int) =~= src@);
}

/// Appends `n` zero bytes.
pub fn push_zeros(out: &mut Vec<u8>, n: usize)
    ensures
        final(out)@ == old(out)@ + zeros(n as int),
{
    let ghost start = out@;
    let mut i: usize = 0;
    while i < n
        invariant
            i <= n,
            out@ == start + zeros(i as int),
        decreases n - i,
    {
        out.push(0u8);
        i = i + 1;
        assert(out@ =~= start + zeros(i as int));
    }
}

/// A copy of `b[start..end]`.
pub fn copy_range<T: Copy>(b: &Vec<T>, start: usize, end: usize) -> (r: Vec<T>)
    requires
        start <= end <= b@.len(),
    ensures
        r@ == b@.subrange(start as int, end as int),
{
    let mut r: Vec<T> = Vec::new();
    let mut i: usize = start;
    while i < end
        invariant
            start <= i <= end,
            end <= b@.len(),
            r@ == b@.subrange(start as int, i as int),
        decreases end - i,
    {
        r.push(b[i]);
        i = i + 1;
        assert(r@ =~= b@.subrange(start as int, i as int));
    }
    r
}

/// Number of zero bytes that follow `n` bytes to reach a multiple of four.
pub fn pad_of(n: usize) -> (r: usize)
    ensures
        r == pad_len(n as int),
        r < 4,
{
    (4 - n % 4) % 4
}

} // verus!
