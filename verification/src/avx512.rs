//! The AVX512-VPOPCNTDQ population count, on 512-bit vectors held as their
//! 64 bytes (byte 0 first) and eight 64-bit lane counters.
use crate::spec::{
    le_value, lemma_le_value, lemma_popcount_bound, lemma_popcount_extend, lemma_popcount_zeros,
    popcount,
};
use vstd::arithmetic::power2::{lemma_pow2_strictly_increases, pow2};
use vstd::prelude::*;
use vstd::wrapping::u64_specs;

verus! {

/// Sum of the eight 64-bit lanes.
pub open spec fn lanes8_sum(c: [u64; 8]) -> nat {
    c[0] as nat + c[1] as nat + c[2] as nat + c[3] as nat + c[4] as nat + c[5] as nat
        + c[6] as nat + c[7] as nat
}

/// Loads 64 bytes at `off` as one vector (an unaligned load).
pub fn load512(bytes: &[u8], off: usize) -> (v: [u8; 64])
    requires
        off + 64 <= bytes@.len(),
    ensures
        v@ == bytes@.subrange(off as int, off + 64),
{
    let n = bytes.len();
    let mut v = [0u8; 64];
    let mut k: usize = 0;
    while k < 64
        invariant
            n == bytes@.len(),
            off + 64 <= n,
            k <= 64,
            v@.len() == 64,
            forall|j: int| 0 <= j < k ==> v@[j] == bytes@[off + j],
        decreases 64 - k,
    {
        v[k] = bytes[off + k];
        k += 1;
    }
    assert(v@ =~= bytes@.subrange(off as int, off + 64));
    v
}

/// The eight bytes at `off` read as one little-endian 64-bit lane.
pub(crate) fn le_word(v: &[u8], off: usize) -> (w: u64)
    requires
        off + 8 <= v@.len(),
    ensures
        w == le_value(v@.subrange(off as int, off + 8)),
{
    let n = v.len();
    let mut w: u64 = 0;
    let mut k: usize = 8;
    proof {
        assert(v@.subrange(off + 8, off + 8) =~= Seq::<u8>::empty());
    }
    while k > 0
        invariant
            n == v@.len(),
            off + 8 <= n,
            k <= 8,
            w == le_value(v@.subrange(off + k, off + 8)),
        decreases k,
    {
        let ghost rest = v@.subrange(off + k, off + 8);
        proof {
            lemma_le_value(rest);
            vstd::arithmetic::power2::lemma2_to64();
            vstd::arithmetic::power2::lemma2_to64_rest();
            if rest.len() < 7 {
                lemma_pow2_strictly_increases(8 * rest.len(), 56);
            }
            assert(w < pow2(56));
        }
        k -= 1;
        let b = v[off + k];
        proof {
            let s = v@.subrange(off + k, off + 8);
            assert(s.drop_first() =~= rest);
            assert(s[0] == b);
            assert(w * 256 + b <= u64::MAX) by (nonlinear_arith)
                requires
                    w < 0x100000000000000,
                    b < 256,
            ;
        }
        w = w * 256 + b as u64;
    }
    w
}

/// Population count of each 64-bit lane.
pub fn popcnt_epi64(v: [u8; 64]) -> (r: [u64; 8])
    ensures
        forall|j: int| 0 <= j < 8 ==> r@[j] == popcount(v@.subrange(8 * j, 8 * j + 8)),
        lanes8_sum(r) == popcount(v@),
{
    let mut r = [0u64; 8];
    let mut j: usize = 0;
    while j < 8
        invariant
            j <= 8,
            r@.len() == 8,
            forall|i: int| 0 <= i < j ==> r@[i] == popcount(v@.subrange(8 * i, 8 * i + 8)),
            popcount(v@.take(8 * j)) == r@[0] + (if j > 1 { r@[1] as nat } else { 0 }) + (if j
                > 2 { r@[2] as nat } else { 0 }) + (if j > 3 { r@[3] as nat } else { 0 }) + (if j
                > 4 { r@[4] as nat } else { 0 }) + (if j > 5 { r@[5] as nat } else { 0 }) + (if j
                > 6 { r@[6] as nat } else { 0 }) + (if j > 7 { r@[7] as nat } else { 0 }),
        decreases 8 - j,
    {
        let w = le_word(v.as_slice(), 8 * j);
        proof {
            lemma_le_value(v@.subrange(8 * j as int, 8 * j + 8));
            lemma_popcount_extend(v@, 8 * j as int, 8 * j + 8);
            assert(v@.take(0) =~= Seq::<u8>::empty());
        }
        r[j] = w.count_ones() as u64;
        j += 1;
    }
    assert(v@.take(64) =~= v@);
    r
}

/// Lane-wise 64-bit addition, modulo `2^64` like the instruction. Where no
/// lane wraps, the lanes and their sum are the exact sums.
pub fn add8_epi64(a: [u64; 8], b: [u64; 8]) -> (r: [u64; 8])
    ensures
        forall|j: int| 0 <= j < 8 ==> r@[j] == u64_specs::wrapping_add(a@[j], b@[j]),
        (forall|j: int| 0 <= j < 8 ==> a@[j] + b@[j] <= u64::MAX) ==> (forall|j: int|
            0 <= j < 8 ==> r@[j] == a@[j] + b@[j]) && lanes8_sum(r) == lanes8_sum(a) + lanes8_sum(
            b,
        ),
{
    let r = [
        a[0].wrapping_add(b[0]),
        a[1].wrapping_add(b[1]),
        a[2].wrapping_add(b[2]),
        a[3].wrapping_add(b[3]),
        a[4].wrapping_add(b[4]),
        a[5].wrapping_add(b[5]),
        a[6].wrapping_add(b[6]),
        a[7].wrapping_add(b[7]),
    ];
    assert(forall|j: int| 0 <= j < 8 ==> r@[j] == u64_specs::wrapping_add(a@[j], b@[j]));
    r
}

/// Adds the per-lane counts of `v` to the lane counters.
fn add_popcnt(cnt: [u64; 8], v: [u8; 64]) -> (r: [u64; 8])
    requires
        lanes8_sum(cnt) + popcount(v@) <= u64::MAX,
    ensures
        lanes8_sum(r) == lanes8_sum(cnt) + popcount(v@),
{
    let p = popcnt_epi64(v);
    add8_epi64(cnt, p)
}

/// Bit `i` of the mask of the low `len` bits.
proof fn lemma_low_mask_bit(len: u64, i: u64)
    by (bit_vector)
    requires
        1 <= len < 64,
        i < 64,
    ensures
        ((u64::MAX >> ((64 - len) as u64)) >> i) & 1 == 1 <==> i < len,
{
}

/// Masked byte load: byte `i` of the vector is `src[i]` where bit `i` of the
/// mask is set, and zero elsewhere; masked-off bytes are not read.
pub fn maskz_loadu_epi8(mask: u64, src: &[u8]) -> (v: [u8; 64])
    requires
        forall|i: u64| i < 64 && (mask >> i) & 1 == 1 ==> i < src@.len(),
    ensures
        forall|i: int|
            0 <= i < 64 ==> v@[i] == if (mask >> (i as u64)) & 1 == 1 {
                src@[i]
            } else {
                0u8
            },
{
    let mut v = [0u8; 64];
    let mut k: u64 = 0;
    while k < 64
        invariant
            k <= 64,
            v@.len() == 64,
            forall|i: u64| i < 64 && (mask >> i) & 1 == 1 ==> i < src@.len(),
            forall|i: int|
                0 <= i < k ==> v@[i] == if (mask >> (i as u64)) & 1 == 1 {
                    src@[i]
                } else {
                    0u8
                },
            forall|i: int| k <= i < 64 ==> v@[i] == 0u8,
        decreases 64 - k,
    {
        if (mask >> k) & 1 == 1 {
            v[k as usize] = src[k as usize];
        }
        k += 1;
    }
    v
}

/// AVX512-VPOPCNTDQ population count, for any length: a four-times unrolled
/// 256-byte loop, then a 64-byte loop, then a masked load for the final
/// 1 to 63 bytes.
pub fn popcnt_avx512(bytes: &[u8]) -> (cnt: u64)
    requires
        bytes@.len() * 8 <= u64::MAX,
    ensures
        cnt == popcount(bytes@),
{
    let n = bytes.len();
    let mut cnt = [0u64; 8];
    proof {
        assert(bytes@.take(0) =~= Seq::<u8>::empty());
    }

    // Four times unrolled 64-byte loop (256 bytes per step).
    let blocks = n / 256;
    let mut b: usize = 0;
    while b < blocks
        invariant
            n == bytes@.len(),
            n * 8 <= u64::MAX,
            blocks == n / 256,
            b <= blocks,
            lanes8_sum(cnt) == popcount(bytes@.take(256 * b)),
        decreases blocks - b,
    {
        let off = 256 * b;
        let v0 = load512(bytes, off);
        let v1 = load512(bytes, off + 64);
        let v2 = load512(bytes, off + 128);
        let v3 = load512(bytes, off + 192);
        proof {
            lemma_popcount_extend(bytes@, off as int, off + 64);
            lemma_popcount_extend(bytes@, off + 64, off + 128);
            lemma_popcount_extend(bytes@, off + 128, off + 192);
            lemma_popcount_extend(bytes@, off + 192, off + 256);
            lemma_popcount_bound(bytes@.take(off + 256));
            assert(bytes@.take(off + 256).len() == off + 256);
        }
        cnt = add_popcnt(cnt, v0);
        cnt = add_popcnt(cnt, v1);
        cnt = add_popcnt(cnt, v2);
        cnt = add_popcnt(cnt, v3);
        b += 1;
    }

    // Remaining complete 64-byte blocks.
    let mut off = 256 * blocks;
    while n - off >= 64
        invariant
            n == bytes@.len(),
            n * 8 <= u64::MAX,
            off <= n,
            lanes8_sum(cnt) == popcount(bytes@.take(off as int)),
        decreases n - off,
    {
        let v = load512(bytes, off);
        proof {
            lemma_popcount_extend(bytes@, off as int, off + 64);
            lemma_popcount_bound(bytes@.take(off + 64));
            assert(bytes@.take(off + 64).len() == off + 64);
        }
        cnt = add_popcnt(cnt, v);
        off += 64;
    }

    // Masked load for the final 1 to 63 bytes.
    proof {
        lemma_popcount_bound(bytes@);
    }
    if off < n {
        let tail = &bytes[off..n];
        let len = tail.len() as u64;
        // Mask covering the final `len` bytes.
        let mask = u64::MAX >> (64 - len);
        proof {
            assert forall|i: u64| i < 64 && (mask >> i) & 1 == 1 implies i < tail@.len() by {
                lemma_low_mask_bit(len, i);
            }
        }
        let v = maskz_loadu_epi8(mask, tail);
        proof {
            assert forall|i: int| 0 <= i < 64 implies v@[i] == (if i < len {
                tail@[i]
            } else {
                0u8
            }) by {
                lemma_low_mask_bit(len, i as u64);
            }
            assert(v@ =~= tail@ + Seq::new((64 - len) as nat, |i: int| 0u8));
            lemma_popcount_zeros(tail@, (64 - len) as nat);
            lemma_popcount_extend(bytes@, off as int, n as int);
            assert(bytes@.take(n as int) =~= bytes@);
        }
        cnt = add_popcnt(cnt, v);
    } else {
        assert(bytes@.take(n as int) =~= bytes@);
    }
    reduce_add_epi64(cnt)
}

/// Horizontal sum of the eight 64-bit lanes.
pub fn reduce_add_epi64(c: [u64; 8]) -> (s: u64)
    requires
        lanes8_sum(c) <= u64::MAX,
    ensures
        s == lanes8_sum(c),
{
    c[0] + c[1] + c[2] + c[3] + c[4] + c[5] + c[6] + c[7]
}

} // verus!
