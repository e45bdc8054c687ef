//! The ARM NEON population count, on 128-bit vectors held as their 16 bytes
//! (byte 0 first) and a pair of 64-bit lane counters.
use crate::scalar::count_words;
use crate::spec::{
    lemma_ones_byte, lemma_popcount_bound, lemma_popcount_extend, lemma_popcount_take_step, ones,
    popcount, sum_u8,
};
use vstd::prelude::*;
use vstd::wrapping::u64_specs;

verus! {

/// Loads 64 bytes at `off` de-interleaved into four vectors: byte `k` of
/// vector `m` is byte `4 * k + m` of the block.
pub fn vld4q_u8(bytes: &[u8], off: usize) -> (r: ([u8; 16], [u8; 16], [u8; 16], [u8; 16]))
    requires
        off + 64 <= bytes@.len(),
    ensures
        forall|k: int|
            0 <= k < 16 ==> r.0@[k] == bytes@[off + 4 * k] && r.1@[k] == bytes@[off + 4 * k + 1]
                && r.2@[k] == bytes@[off + 4 * k + 2] && r.3@[k] == bytes@[off + 4 * k + 3],
{
    let n = bytes.len();
    let mut v0 = [0u8; 16];
    let mut v1 = [0u8; 16];
    let mut v2 = [0u8; 16];
    let mut v3 = [0u8; 16];
    let mut k: usize = 0;
    while k < 16
        invariant
            n == bytes@.len(),
            off + 64 <= n,
            k <= 16,
            v0@.len() == 16 && v1@.len() == 16 && v2@.len() == 16 && v3@.len() == 16,
            forall|j: int|
                0 <= j < k ==> v0@[j] == bytes@[off + 4 * j] && v1@[j] == bytes@[off + 4 * j + 1]
                    && v2@[j] == bytes@[off + 4 * j + 2] && v3@[j] == bytes@[off + 4 * j + 3],
        decreases 16 - k,
    {
        v0[k] = bytes[off + 4 * k];
        v1[k] = bytes[off + 4 * k + 1];
        v2[k] = bytes[off + 4 * k + 2];
        v3[k] = bytes[off + 4 * k + 3];
        k += 1;
    }
    (v0, v1, v2, v3)
}

/// Per-byte population count.
pub fn vcntq_u8(v: [u8; 16]) -> (r: [u8; 16])
    ensures
        forall|k: int| 0 <= k < 16 ==> r@[k] == ones(v@[k] as nat) && r@[k] <= 8,
        sum_u8(r@) == popcount(v@),
{
    let mut r = [0u8; 16];
    let mut k: usize = 0;
    while k < 16
        invariant
            k <= 16,
            r@.len() == 16,
            forall|j: int| 0 <= j < k ==> r@[j] == ones(v@[j] as nat) && r@[j] <= 8,
            sum_u8(r@.take(k as int)) == popcount(v@.take(k as int)),
        decreases 16 - k,
    {
        proof {
            lemma_ones_byte(v[k as int]);
        }
        let c = (v[k] as u64).count_ones() as u8;
        let ghost r0 = r@;
        r[k] = c;
        proof {
            assert(r@.take(k as int) =~= r0.take(k as int));
            assert(r@.take(k + 1).drop_last() =~= r@.take(k as int));
            lemma_popcount_take_step(v@, k as int);
        }
        k += 1;
    }
    assert(r@.take(16) =~= r@);
    assert(v@.take(16) =~= v@);
    r
}

/// Sums of byte strings that add up lane by lane.
proof fn lemma_sum_u8_add(a: Seq<u8>, b: Seq<u8>, r: Seq<u8>)
    requires
        a.len() == b.len() == r.len(),
        forall|k: int| 0 <= k < r.len() ==> r[k] == a[k] + b[k],
    ensures
        sum_u8(r) == sum_u8(a) + sum_u8(b),
    decreases r.len(),
{
    if r.len() > 0 {
        lemma_sum_u8_add(a.drop_last(), b.drop_last(), r.drop_last());
    }
}

/// Lane-wise byte addition, where no lane overflows.
pub fn vaddq_u8(a: [u8; 16], b: [u8; 16]) -> (r: [u8; 16])
    requires
        forall|k: int| 0 <= k < 16 ==> a@[k] + b@[k] <= 255,
    ensures
        forall|k: int| 0 <= k < 16 ==> r@[k] == a@[k] + b@[k],
        sum_u8(r@) == sum_u8(a@) + sum_u8(b@),
{
    let mut r = [0u8; 16];
    let mut k: usize = 0;
    while k < 16
        invariant
            k <= 16,
            r@.len() == 16,
            forall|j: int| 0 <= j < 16 ==> a@[j] + b@[j] <= 255,
            forall|j: int| 0 <= j < k ==> r@[j] == a@[j] + b@[j],
        decreases 16 - k,
    {
        r[k] = a[k] + b[k];
        k += 1;
    }
    proof {
        lemma_sum_u8_add(a@, b@, r@);
    }
    r
}

/// Pairwise widening add and accumulate: the bytes are added in pairs into
/// 16-bit lanes, those in pairs into 32-bit lanes, and those in pairs onto
/// the two 64-bit lanes of `sum`, modulo `2^64` like the instruction.
/// Where neither lane wraps, the lanes are the exact sums.
pub fn vpadalq(sum: [u64; 2], t: [u8; 16]) -> (r: [u64; 2])
    ensures
        sum_u8(t@.take(8)) <= 2040,
        sum_u8(t@.subrange(8, 16)) <= 2040,
        r@[0] == u64_specs::wrapping_add(sum@[0], sum_u8(t@.take(8)) as u64),
        r@[1] == u64_specs::wrapping_add(sum@[1], sum_u8(t@.subrange(8, 16)) as u64),
        sum@[0] + sum@[1] + sum_u8(t@) <= u64::MAX ==> r@[0] == sum@[0] + sum_u8(t@.take(8))
            && r@[1] == sum@[1] + sum_u8(t@.subrange(8, 16)) && r@[0] + r@[1] == sum@[0]
            + sum@[1] + sum_u8(t@),
{
    let mut w = [0u16; 8];
    let mut k: usize = 0;
    while k < 8
        invariant
            k <= 8,
            w@.len() == 8,
            forall|j: int| 0 <= j < k ==> w@[j] == t@[2 * j] + t@[2 * j + 1],
        decreases 8 - k,
    {
        w[k] = t[2 * k] as u16 + t[2 * k + 1] as u16;
        k += 1;
    }
    let x: [u32; 4] = [
        w[0] as u32 + w[1] as u32,
        w[2] as u32 + w[3] as u32,
        w[4] as u32 + w[5] as u32,
        w[6] as u32 + w[7] as u32,
    ];
    proof {
        lemma_sum_u8_split(t@);
    }
    [sum[0].wrapping_add(x[0] as u64 + x[1] as u64), sum[1].wrapping_add(x[2] as u64 + x[3] as u64)]
}

/// The sums of the two halves of sixteen bytes, written out.
proof fn lemma_sum_u8_split(t: Seq<u8>)
    requires
        t.len() == 16,
    ensures
        sum_u8(t.take(8)) == t[0] + t[1] + t[2] + t[3] + t[4] + t[5] + t[6] + t[7],
        sum_u8(t.subrange(8, 16)) == t[8] + t[9] + t[10] + t[11] + t[12] + t[13] + t[14] + t[15],
        sum_u8(t) == sum_u8(t.take(8)) + sum_u8(t.subrange(8, 16)),
{
    reveal_with_fuel(sum_u8, 17);
    let a = t.take(8);
    let b = t.subrange(8, 16);
    assert(a.drop_last() =~= t.take(7));
    assert(t.take(7).drop_last() =~= t.take(6));
    assert(t.take(6).drop_last() =~= t.take(5));
    assert(t.take(5).drop_last() =~= t.take(4));
    assert(t.take(4).drop_last() =~= t.take(3));
    assert(t.take(3).drop_last() =~= t.take(2));
    assert(t.take(2).drop_last() =~= t.take(1));
    assert(t.take(1).drop_last() =~= t.take(0));
    assert(b.drop_last() =~= t.subrange(8, 15));
    assert(t.subrange(8, 15).drop_last() =~= t.subrange(8, 14));
    assert(t.subrange(8, 14).drop_last() =~= t.subrange(8, 13));
    assert(t.subrange(8, 13).drop_last() =~= t.subrange(8, 12));
    assert(t.subrange(8, 12).drop_last() =~= t.subrange(8, 11));
    assert(t.subrange(8, 11).drop_last() =~= t.subrange(8, 10));
    assert(t.subrange(8, 10).drop_last() =~= t.subrange(8, 9));
    assert(t.subrange(8, 9).drop_last() =~= t.subrange(8, 8));
    assert(t.drop_last() =~= t.take(15));
    assert(t.take(15).drop_last() =~= t.take(14));
    assert(t.take(14).drop_last() =~= t.take(13));
    assert(t.take(13).drop_last() =~= t.take(12));
    assert(t.take(12).drop_last() =~= t.take(11));
    assert(t.take(11).drop_last() =~= t.take(10));
    assert(t.take(10).drop_last() =~= t.take(9));
    assert(t.take(9).drop_last() =~= t.take(8));
}

/// A string of zero bytes sums to zero.
proof fn lemma_sum_u8_zero(z: Seq<u8>)
    requires
        forall|i: int| 0 <= i < z.len() ==> z[i] == 0u8,
    ensures
        sum_u8(z) == 0,
    decreases z.len(),
{
    if z.len() > 0 {
        lemma_sum_u8_zero(z.drop_last());
    }
}

/// The four de-interleaved vectors of a 64-byte block have as many ones as
/// the block, counted over its first `4 * k` bytes.
proof fn lemma_deinterleave_prefix(
    c: Seq<u8>,
    a0: Seq<u8>,
    a1: Seq<u8>,
    a2: Seq<u8>,
    a3: Seq<u8>,
    k: int,
)
    requires
        c.len() == 64,
        a0.len() == 16 && a1.len() == 16 && a2.len() == 16 && a3.len() == 16,
        forall|j: int|
            0 <= j < 16 ==> a0[j] == c[4 * j] && a1[j] == c[4 * j + 1] && a2[j] == c[4 * j + 2]
                && a3[j] == c[4 * j + 3],
        0 <= k <= 16,
    ensures
        popcount(c.take(4 * k)) == popcount(a0.take(k)) + popcount(a1.take(k)) + popcount(
            a2.take(k),
        ) + popcount(a3.take(k)),
    decreases k,
{
    if k == 0 {
        assert(c.take(0) =~= Seq::<u8>::empty());
        assert(a0.take(0) =~= Seq::<u8>::empty());
        assert(a1.take(0) =~= Seq::<u8>::empty());
        assert(a2.take(0) =~= Seq::<u8>::empty());
        assert(a3.take(0) =~= Seq::<u8>::empty());
    } else {
        lemma_deinterleave_prefix(c, a0, a1, a2, a3, k - 1);
        let b = 4 * (k - 1);
        lemma_popcount_take_step(c, b);
        lemma_popcount_take_step(c, b + 1);
        lemma_popcount_take_step(c, b + 2);
        lemma_popcount_take_step(c, b + 3);
        lemma_popcount_take_step(a0, k - 1);
        lemma_popcount_take_step(a1, k - 1);
        lemma_popcount_take_step(a2, k - 1);
        lemma_popcount_take_step(a3, k - 1);
    }
}

/// Counts one 64-byte block into the four byte-lane accumulators: each
/// de-interleaved vector's per-byte counts are added to its accumulator.
fn accumulate_block(
    bytes: &[u8],
    off: usize,
    t: ([u8; 16], [u8; 16], [u8; 16], [u8; 16]),
    bound: u8,
) -> (r: ([u8; 16], [u8; 16], [u8; 16], [u8; 16]))
    requires
        off + 64 <= bytes@.len(),
        bound <= 247,
        forall|k: int|
            0 <= k < 16 ==> t.0@[k] <= bound && t.1@[k] <= bound && t.2@[k] <= bound && t.3@[k]
                <= bound,
    ensures
        forall|k: int|
            0 <= k < 16 ==> r.0@[k] <= bound + 8 && r.1@[k] <= bound + 8 && r.2@[k] <= bound + 8
                && r.3@[k] <= bound + 8,
        sum_u8(r.0@) + sum_u8(r.1@) + sum_u8(r.2@) + sum_u8(r.3@) == sum_u8(t.0@) + sum_u8(t.1@)
            + sum_u8(t.2@) + sum_u8(t.3@) + popcount(bytes@.subrange(off as int, off + 64)),
{
    let input = vld4q_u8(bytes, off);
    let c0 = vcntq_u8(input.0);
    let c1 = vcntq_u8(input.1);
    let c2 = vcntq_u8(input.2);
    let c3 = vcntq_u8(input.3);
    proof {
        let c = bytes@.subrange(off as int, off + 64);
        lemma_deinterleave_prefix(c, input.0@, input.1@, input.2@, input.3@, 16);
        assert(c.take(64) =~= c);
        assert(input.0@.take(16) =~= input.0@);
        assert(input.1@.take(16) =~= input.1@);
        assert(input.2@.take(16) =~= input.2@);
        assert(input.3@.take(16) =~= input.3@);
    }
    let t0 = vaddq_u8(t.0, c0);
    let t1 = vaddq_u8(t.1, c1);
    let t2 = vaddq_u8(t.2, c2);
    let t3 = vaddq_u8(t.3, c3);
    (t0, t1, t2, t3)
}

/// NEON population count: 64-byte blocks are counted per byte into four
/// byte-lane accumulators, which are drained into two 64-bit lanes after at
/// most 31 blocks (31 blocks of at most 8 ones per lane stay below 256);
/// the last bytes go through the scalar loop.
pub fn popcnt_neon(bytes: &[u8]) -> (cnt: u64)
    requires
        bytes@.len() * 8 <= u64::MAX,
    ensures
        cnt == popcount(bytes@),
{
    let n = bytes.len();
    let mut cnt: u64 = 0;
    let iters = n / 64;
    proof {
        assert(bytes@.take(0) =~= Seq::<u8>::empty());
    }
    if iters > 0 {
        let mut sum = [0u64; 2];
        let zero = [0u8; 16];
        proof {
            lemma_sum_u8_zero(zero@);
        }
        let mut i: usize = 0;
        while i < iters
            invariant
                n == bytes@.len(),
                n * 8 <= u64::MAX,
                iters == n / 64,
                i <= iters,
                sum_u8(zero@) == 0,
                forall|k: int| 0 <= k < 16 ==> zero@[k] == 0u8,
                sum@[0] + sum@[1] == popcount(bytes@.take(64 * i)),
            decreases iters - i,
        {
            let mut t = (zero, zero, zero, zero);
            // Drain the byte lanes at least every 31 blocks: 31 * 8 <= 255.
            let limit = if iters - i > 31 {
                i + 31
            } else {
                iters
            };
            let start = i;
            while i < limit
                invariant
                    n == bytes@.len(),
                    n * 8 <= u64::MAX,
                    iters == n / 64,
                    start <= i <= limit <= iters,
                    limit - start <= 31,
                    forall|k: int|
                        0 <= k < 16 ==> t.0@[k] <= 8 * (i - start) && t.1@[k] <= 8 * (i - start)
                            && t.2@[k] <= 8 * (i - start) && t.3@[k] <= 8 * (i - start),
                    sum@[0] + sum@[1] + sum_u8(t.0@) + sum_u8(t.1@) + sum_u8(t.2@) + sum_u8(t.3@)
                        == popcount(bytes@.take(64 * i)),
                decreases limit - i,
            {
                let bound = (8 * (i - start)) as u8;
                t = accumulate_block(bytes, i * 64, t, bound);
                proof {
                    lemma_popcount_extend(bytes@, 64 * i as int, 64 * i + 64);
                }
                i += 1;
            }
            proof {
                lemma_popcount_bound(bytes@.take(64 * i));
                assert(bytes@.take(64 * i).len() == 64 * i);
            }
            sum = vpadalq(sum, t.0);
            sum = vpadalq(sum, t.1);
            sum = vpadalq(sum, t.2);
            sum = vpadalq(sum, t.3);
        }
        proof {
            lemma_popcount_bound(bytes@.take(64 * i));
            assert(bytes@.take(64 * i).len() == 64 * i);
        }
        cnt = sum[0] + sum[1];
    }
    // Scalar tail.
    let rest = &bytes[iters * 64..n];
    proof {
        lemma_popcount_extend(bytes@, 64 * iters as int, n as int);
        assert(bytes@.take(n as int) =~= bytes@);
        lemma_popcount_bound(bytes@);
    }
    cnt = cnt + count_words(rest);
    cnt
}

} // verus!
