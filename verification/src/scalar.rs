//! Portable counting: eight bytes at a time with the integer population
//! count, and a zero-padded word for the last few bytes.
use crate::spec::{
    le_value, lemma_byte_order_independent, lemma_popcount_bound, lemma_popcount_extend,
    lemma_popcount_zeros, ones, popcount, zero_padded,
};
use vstd::prelude::*;

verus! {

/// `u64::count_ones`: the number of ones in the binary representation.
pub assume_specification[ u64::count_ones ](i: u64) -> (r: u32)
    ensures
        r == ones(i as nat),
;

/// Calls `u64::from_ne_bytes`: the integer whose native-order encoding is
/// the array. The native order is little- or big-endian depending on the
/// target, so the result is the little-endian reading of the bytes or of the
/// bytes reversed; which of the two is not said.
#[verifier::external_body]
fn u64_from_ne_bytes(bytes: [u8; 8]) -> (r: u64)
    ensures
        r == le_value(bytes@) || r == le_value(bytes@.reverse()),
{
    u64::from_ne_bytes(bytes)
}

/// A word read in either byte order has as many ones as its bytes.
pub proof fn lemma_word_ones(b: Seq<u8>, w: u64)
    requires
        w == le_value(b) || w == le_value(b.reverse()),
    ensures
        ones(w as nat) == popcount(b),
{
    lemma_byte_order_independent(b);
}

/// Reads eight bytes at `off` as one word in native byte order.
fn word_at(bytes: &[u8], off: usize) -> (w: u64)
    requires
        off + 8 <= bytes@.len(),
    ensures
        ones(w as nat) == popcount(bytes@.subrange(off as int, off + 8)),
{
    let chunk: [u8; 8] = [
        bytes[off],
        bytes[off + 1],
        bytes[off + 2],
        bytes[off + 3],
        bytes[off + 4],
        bytes[off + 5],
        bytes[off + 6],
        bytes[off + 7],
    ];
    assert(chunk@ =~= bytes@.subrange(off as int, off + 8));
    let w = u64_from_ne_bytes(chunk);
    proof {
        lemma_word_ones(chunk@, w);
    }
    w
}

/// Packs the trailing `rem.len()` (at most eight) bytes into a zero-padded
/// word in native byte order; the count of ones does not depend on that order.
pub fn tail_u64(rem: &[u8]) -> (w: u64)
    requires
        rem@.len() <= 8,
    ensures
        w == le_value(zero_padded(rem@, 8)) || w == le_value(zero_padded(rem@, 8).reverse()),
        ones(w as nat) == popcount(rem@),
{
    let mut buf = [0u8; 8];
    let mut k: usize = 0;
    while k < rem.len()
        invariant
            k <= rem@.len() <= 8,
            buf@.len() == 8,
            forall|j: int| 0 <= j < k ==> buf@[j] == rem@[j],
            forall|j: int| k <= j < 8 ==> buf@[j] == 0u8,
        decreases rem@.len() - k,
    {
        buf[k] = rem[k];
        k += 1;
    }
    assert(buf@ =~= zero_padded(rem@, 8));
    let w = u64_from_ne_bytes(buf);
    proof {
        lemma_word_ones(buf@, w);
        lemma_popcount_zeros(rem@, (8 - rem@.len()) as nat);
    }
    w
}

/// The counting loop shared by the scalar paths: the sum of `count_ones`
/// over the eight-byte words, plus the zero-padded tail.
pub(crate) fn count_words(bytes: &[u8]) -> (cnt: u64)
    requires
        bytes@.len() * 8 <= u64::MAX,
    ensures
        cnt == popcount(bytes@),
{
    let n = bytes.len();
    let chunks = n / 8;
    let mut cnt: u64 = 0;
    let mut i: usize = 0;
    while i < chunks
        invariant
            n == bytes@.len(),
            n * 8 <= u64::MAX,
            chunks == n / 8,
            i <= chunks,
            cnt == popcount(bytes@.take(8 * i)),
        decreases chunks - i,
    {
        let off = 8 * i;
        let w = word_at(bytes, off);
        proof {
            lemma_popcount_extend(bytes@, off as int, off + 8);
            lemma_popcount_bound(bytes@.take(off + 8));
        }
        cnt = cnt + w.count_ones() as u64;
        i += 1;
    }
    let rem = &bytes[8 * chunks..n];
    proof {
        lemma_popcount_extend(bytes@, 8 * chunks as int, n as int);
        assert(bytes@.take(n as int) =~= bytes@);
        lemma_popcount_bound(bytes@);
    }
    if !rem.is_empty() {
        let t = tail_u64(rem);
        cnt = cnt + t.count_ones() as u64;
    } else {
        assert(rem@ =~= Seq::<u8>::empty());
    }
    cnt
}

/// Portable scalar population count via `u64::count_ones`.
pub fn popcnt_scalar(bytes: &[u8]) -> (cnt: u64)
    requires
        bytes@.len() * 8 <= u64::MAX,
    ensures
        cnt == popcount(bytes@),
{
    count_words(bytes)
}

/// Scalar population count for CPUs with a population-count instruction:
/// the same word loop, compiled where `count_ones` is that instruction.
pub fn popcnt_scalar_hw(bytes: &[u8]) -> (cnt: u64)
    requires
        bytes@.len() * 8 <= u64::MAX,
    ensures
        cnt == popcount(bytes@),
{
    count_words(bytes)
}

} // verus!
