//! The additive checksum that guards file contents in transit.
//!
//! Every file is streamed as a sequence of blocks; both endpoints accumulate
//! the sum of all payload byte values modulo [`CHECKSUM_MOD`] and compare the
//! results at end-of-file. The checksum is an integrity hint against transport
//! corruption, not a cryptographic digest.

use vstd::prelude::*;

verus! {

/// Modulus of the additive checksum, a 31-bit prime.
pub const CHECKSUM_MOD: u64 = 2147483647;

/// Sum of the byte values of `s`.
pub open spec fn byte_sum(s: Seq<u8>) -> int
    decreases s.len(),
{
    if s.len() == 0 {
        0
    } else {
        byte_sum(s.drop_last()) + s.last()
    }
}

/// One accumulation step: fold a chunk's byte sum into the running checksum.
pub open spec fn checksum_add(c: u64, data: Seq<u8>) -> u64 {
    (((c + byte_sum(data)) % (CHECKSUM_MOD as int)) as u64)
}

/// Checksum of a whole byte sequence, accumulated from zero.
pub open spec fn checksum_of(s: Seq<u8>) -> u64 {
    checksum_add(0, s)
}

pub proof fn lemma_byte_sum_bounds(s: Seq<u8>)
    ensures
        0 <= byte_sum(s) <= 255 * s.len(),
    decreases s.len(),
{
    if s.len() > 0 {
        lemma_byte_sum_bounds(s.drop_last());
    }
}

/// Accumulate one chunk of data into a running checksum, exactly as
/// [`checksum_add`] describes.
pub fn checksum_extend(c: u64, data: &[u8]) -> (r: u64)
    requires
        c < CHECKSUM_MOD,
        data@.len() <= 0xFFFF_FFFF,
    ensures
        r == checksum_add(c, data@),
        r < CHECKSUM_MOD,
{
    let mut sum: u64 = 0;
    let mut i: usize = 0;
    proof {
        assert(data@.subrange(0, 0) =~= Seq::<u8>::empty());
    }
    while i < data.len()
        invariant
            i <= data@.len(),
            data@.len() <= 0xFFFF_FFFF,
            sum == byte_sum(data@.subrange(0, i as int)),
            sum <= 255 * i,
        decreases data@.len() - i,
    {
        proof {
            let pre = data@.subrange(0, i as int);
            let post = data@.subrange(0, i + 1);
            assert(post.drop_last() =~= pre);
            assert(post.last() == data@[i as int]);
        }
        sum = sum + data[i] as u64;
        i = i + 1;
    }
    proof {
        assert(data@.subrange(0, data@.len() as int) =~= data@);
        vstd::arithmetic::div_mod::lemma_mod_bound((c + sum) as int, CHECKSUM_MOD as int);
    }
    (c + sum) % CHECKSUM_MOD
}

/// An accumulated checksum always sits below the modulus.
pub proof fn lemma_checksum_add_bound(c: u64, data: Seq<u8>)
    ensures
        checksum_add(c, data) < CHECKSUM_MOD,
{
    lemma_byte_sum_bounds(data);
    vstd::arithmetic::div_mod::lemma_mod_bound(c + byte_sum(data), CHECKSUM_MOD as int);
}

/// Splitting a byte sequence never changes its byte sum.
pub proof fn lemma_byte_sum_append(a: Seq<u8>, b: Seq<u8>)
    ensures
        byte_sum(a + b) == byte_sum(a) + byte_sum(b),
    decreases b.len(),
{
    if b.len() == 0 {
        assert(a + b =~= a);
    } else {
        lemma_byte_sum_append(a, b.drop_last());
        assert((a + b).drop_last() =~= a + b.drop_last());
    }
}

/// The checksum is insensitive to chunk boundaries: accumulating two chunks
/// one after the other gives the checksum of their concatenation.
pub proof fn lemma_checksum_chunks(c: u64, a: Seq<u8>, b: Seq<u8>)
    ensures
        checksum_add(checksum_add(c, a), b) == checksum_add(c, a + b),
{
    lemma_byte_sum_append(a, b);
    let m = CHECKSUM_MOD as int;
    let x = c + byte_sum(a);
    let y = byte_sum(b);
    vstd::arithmetic::div_mod::lemma_mod_bound(x, m);
    vstd::arithmetic::div_mod::lemma_add_mod_noop_right(y, x, m);
    assert((y + x % m) % m == (y + x) % m);
}

/// A chunking of a byte stream: the checksum folded over the chunks in order.
pub open spec fn checksum_fold(c: u64, chunks: Seq<Seq<u8>>) -> u64
    decreases chunks.len(),
{
    if chunks.len() == 0 {
        c
    } else {
        checksum_fold(checksum_add(c, chunks.first()), chunks.drop_first())
    }
}

/// However a byte sequence is split into chunks, accumulating them in order
/// yields the checksum of the concatenation — so any two chunkings of the
/// same data agree on the final checksum, and the result is determined by
/// the data alone.
pub proof fn lemma_checksum_chunking(c: u64, chunks: Seq<Seq<u8>>)
    requires
        c < CHECKSUM_MOD,
    ensures
        checksum_fold(c, chunks) == checksum_add(c, chunks.flatten()),
    decreases chunks.len(),
{
    if chunks.len() == 0 {
        assert(chunks.flatten() =~= Seq::<u8>::empty());
        lemma_byte_sum_bounds(chunks.flatten());
        vstd::arithmetic::div_mod::lemma_small_mod(c as nat, CHECKSUM_MOD as nat);
    } else {
        let c1 = checksum_add(c, chunks.first());
        lemma_checksum_chunking(c1, chunks.drop_first());
        lemma_checksum_chunks(c, chunks.first(), chunks.drop_first().flatten());
        assert(chunks.flatten() == chunks.first() + chunks.drop_first().flatten());
    }
}

} // verus!
