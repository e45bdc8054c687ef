//! The AVX2 Harley-Seal population count, on 256-bit vectors held as their
//! 32 bytes (byte 0 first) and 64-bit lane counters held as four words.
use crate::spec::{lemma_csa_ones, lemma_ones_split, lemma_popcount_bound, lemma_popcount_extend,
    lemma_popcount_take_step, ones, popcount,
};
use vstd::arithmetic::power2::pow2;
use vstd::bits::lemma_u64_shl_is_mul;
use vstd::prelude::*;
use vstd::wrapping::u64_specs;

verus! {

/// Sum of the four 64-bit lanes.
pub open spec fn lanes_sum(c: [u64; 4]) -> nat {
    c[0] as nat + c[1] as nat + c[2] as nat + c[3] as nat
}

/// Bytes `8 * j .. 8 * j + 8` of a vector: the bytes of 64-bit lane `j`.
pub open spec fn lane_bytes(v: Seq<u8>, j: int) -> Seq<u8> {
    v.subrange(8 * j, 8 * j + 8)
}

/// `|x - y|` on bytes.
pub open spec fn abs_diff(x: u8, y: u8) -> nat {
    if x >= y {
        (x - y) as nat
    } else {
        (y - x) as nat
    }
}

/// Sum of the byte-wise absolute differences of two byte strings.
pub open spec fn abs_diff_sum(a: Seq<u8>, b: Seq<u8>) -> nat
    decreases a.len(),
{
    if a.len() == 0 {
        0
    } else {
        abs_diff_sum(a.drop_last(), b.drop_last()) + abs_diff(a.last(), b[a.len() - 1])
    }
}

/// Loads 32 bytes at `off` as one vector (an unaligned load).
pub fn load256(bytes: &[u8], off: usize) -> (v: [u8; 32])
    requires
        off + 32 <= bytes@.len(),
    ensures
        v@ == bytes@.subrange(off as int, off + 32),
{
    let n = bytes.len();
    let mut v = [0u8; 32];
    let mut k: usize = 0;
    while k < 32
        invariant
            n == bytes@.len(),
            off + 32 <= bytes@.len(),
            k <= 32,
            v@.len() == 32,
            forall|j: int| 0 <= j < k ==> v@[j] == bytes@[off + j],
        decreases 32 - k,
    {
        v[k] = bytes[off + k];
        k += 1;
    }
    assert(v@ =~= bytes@.subrange(off as int, off + 32));
    v
}

/// Carry-save adder: returns the `(carry, sum)` bit-planes of `a + b + c`,
/// computed across all bytes in parallel.
pub fn csa256(a: [u8; 32], b: [u8; 32], c: [u8; 32]) -> (r: ([u8; 32], [u8; 32]))
    ensures
        forall|k: int|
            0 <= k < 32 ==> r.0@[k] == (a@[k] & b@[k]) | ((a@[k] ^ b@[k]) & c@[k]) && r.1@[k] == (
            a@[k] ^ b@[k]) ^ c@[k],
        2 * popcount(r.0@) + popcount(r.1@) == popcount(a@) + popcount(b@) + popcount(c@),
{
    let mut h = [0u8; 32];
    let mut l = [0u8; 32];
    let mut k: usize = 0;
    while k < 32
        invariant
            k <= 32,
            h@.len() == 32,
            l@.len() == 32,
            forall|j: int|
                0 <= j < k ==> h@[j] == (a@[j] & b@[j]) | ((a@[j] ^ b@[j]) & c@[j]) && l@[j] == (
                a@[j] ^ b@[j]) ^ c@[j],
            2 * popcount(h@.take(k as int)) + popcount(l@.take(k as int)) == popcount(
                a@.take(k as int),
            ) + popcount(b@.take(k as int)) + popcount(c@.take(k as int)),
        decreases 32 - k,
    {
        let u = a[k] ^ b[k];
        let hk = (a[k] & b[k]) | (u & c[k]);
        let lk = u ^ c[k];
        let ghost h0 = h@;
        let ghost l0 = l@;
        h[k] = hk;
        l[k] = lk;
        proof {
            assert(h@.take(k as int) =~= h0.take(k as int));
            assert(l@.take(k as int) =~= l0.take(k as int));
            lemma_popcount_take_step(h@, k as int);
            lemma_popcount_take_step(l@, k as int);
            lemma_popcount_take_step(a@, k as int);
            lemma_popcount_take_step(b@, k as int);
            lemma_popcount_take_step(c@, k as int);
            lemma_csa_ones(a[k as int], b[k as int], c[k as int]);
        }
        k += 1;
    }
    assert(h@.take(32) =~= h@);
    assert(l@.take(32) =~= l@);
    assert(a@.take(32) =~= a@);
    assert(b@.take(32) =~= b@);
    assert(c@.take(32) =~= c@);
    (h, l)
}

/// The nibble tables hold `4 + ones(n)` and `4 - ones(n)`.
proof fn lemma_nibble_tables(t1: Seq<u8>, t2: Seq<u8>)
    requires
        t1 == seq![4u8, 5, 5, 6, 5, 6, 6, 7, 5, 6, 6, 7, 6, 7, 7, 8],
        t2 == seq![4u8, 3, 3, 2, 3, 2, 2, 1, 3, 2, 2, 1, 2, 1, 1, 0],
    ensures
        forall|n: int| 0 <= n < 16 ==> t1[n] == 4 + ones(n as nat),
        forall|n: int| 0 <= n < 16 ==> t2[n] + ones(n as nat) == 4,
{
    assert(ones(0) == 0);
    assert(ones(1) == 1);
    assert(ones(2) == 1);
    assert(ones(3) == 2);
    assert(ones(4) == 1);
    assert(ones(5) == 2);
    assert(ones(6) == 2);
    assert(ones(7) == 3);
    assert(ones(8) == 1);
    assert(ones(9) == 2);
    assert(ones(10) == 2);
    assert(ones(11) == 3);
    assert(ones(12) == 2);
    assert(ones(13) == 3);
    assert(ones(14) == 3);
    assert(ones(15) == 4);
}

/// The low and high nibble of a byte.
proof fn lemma_nibbles(x: u8)
    ensures
        x & 0x0f < 16,
        (x >> 4u8) & 0x0f < 16,
        ones(x as nat) == ones((x & 0x0f) as nat) + ones(((x >> 4u8) & 0x0f) as nat),
{
    assert(x & 0x0f < 16 && (x >> 4u8) & 0x0f < 16 && x == ((x >> 4u8) & 0x0f) * 16 + (x & 0x0f))
        by (bit_vector);
    vstd::arithmetic::power2::lemma2_to64();
    lemma_ones_split(((x >> 4u8) & 0x0f) as nat, (x & 0x0f) as nat, 4);
}

/// Sum of absolute differences: lane `j` of the result is the sum of
/// `|a[k] - b[k]|` over the eight bytes of lane `j`.
pub fn sad_epu8(a: [u8; 32], b: [u8; 32]) -> (r: [u64; 4])
    ensures
        forall|j: int|
            0 <= j < 4 ==> r@[j] == abs_diff_sum(lane_bytes(a@, j), lane_bytes(b@, j)),
{
    let mut r = [0u64; 4];
    let mut j: usize = 0;
    while j < 4
        invariant
            j <= 4,
            r@.len() == 4,
            forall|i: int|
                0 <= i < j ==> r@[i] == abs_diff_sum(lane_bytes(a@, i), lane_bytes(b@, i)),
        decreases 4 - j,
    {
        let mut s: u64 = 0;
        let mut k: usize = 0;
        while k < 8
            invariant
                j < 4,
                k <= 8,
                s <= 255 * k,
                s == abs_diff_sum(
                    a@.subrange(8 * j as int, 8 * j + k),
                    b@.subrange(8 * j as int, 8 * j + k),
                ),
            decreases 8 - k,
        {
            let x = a[8 * j + k];
            let y = b[8 * j + k];
            let d: u64 = if x >= y {
                (x - y) as u64
            } else {
                (y - x) as u64
            };
            proof {
                let sa = a@.subrange(8 * j as int, 8 * j + k + 1);
                let sb = b@.subrange(8 * j as int, 8 * j + k + 1);
                assert(sa.drop_last() =~= a@.subrange(8 * j as int, 8 * j + k));
                assert(sb.drop_last() =~= b@.subrange(8 * j as int, 8 * j + k));
            }
            s = s + d;
            k += 1;
        }
        r[j] = s;
        j += 1;
    }
    r
}

/// Byte-wise counts add up to the sum of absolute differences when each
/// difference is the count of the matching byte.
proof fn lemma_abs_diff_popcount(a: Seq<u8>, b: Seq<u8>, v: Seq<u8>)
    requires
        a.len() == b.len() == v.len(),
        forall|k: int| 0 <= k < v.len() ==> abs_diff(a[k], b[k]) == ones(v[k] as nat),
    ensures
        abs_diff_sum(a, b) == popcount(v),
    decreases v.len(),
{
    if v.len() > 0 {
        lemma_abs_diff_popcount(a.drop_last(), b.drop_last(), v.drop_last());
    }
}

/// Per-byte population count of a vector by the nibble lookup, then the
/// horizontal sum of each eight-byte lane: lane `j` of the result is the
/// number of ones in the bytes of lane `j`.
pub fn popcnt256(v: [u8; 32]) -> (r: [u64; 4])
    ensures
        forall|j: int| 0 <= j < 4 ==> r@[j] == popcount(lane_bytes(v@, j)),
        lanes_sum(r) == popcount(v@),
{
    let lookup1: [u8; 16] = [4, 5, 5, 6, 5, 6, 6, 7, 5, 6, 6, 7, 6, 7, 7, 8];
    let lookup2: [u8; 16] = [4, 3, 3, 2, 3, 2, 2, 1, 3, 2, 2, 1, 2, 1, 1, 0];
    proof {
        assert(lookup1@ == seq![4u8, 5, 5, 6, 5, 6, 6, 7, 5, 6, 6, 7, 6, 7, 7, 8]);
        assert(lookup2@ == seq![4u8, 3, 3, 2, 3, 2, 2, 1, 3, 2, 2, 1, 2, 1, 1, 0]);
        lemma_nibble_tables(lookup1@, lookup2@);
    }
    let mut popcnt1 = [0u8; 32];
    let mut popcnt2 = [0u8; 32];
    let mut k: usize = 0;
    while k < 32
        invariant
            k <= 32,
            popcnt1@.len() == 32,
            popcnt2@.len() == 32,
            forall|n: int| 0 <= n < 16 ==> lookup1@[n] == 4 + ones(n as nat),
            forall|n: int| 0 <= n < 16 ==> lookup2@[n] + ones(n as nat) == 4,
            forall|i: int| 0 <= i < k ==> abs_diff(popcnt1@[i], popcnt2@[i]) == ones(v@[i] as nat),
        decreases 32 - k,
    {
        let lo = v[k] & 0x0f;
        let hi = (v[k] >> 4u8) & 0x0f;
        proof {
            lemma_nibbles(v[k as int]);
        }
        let p1 = lookup1[lo as usize];
        let p2 = lookup2[hi as usize];
        assert(p1 == 4 + ones(lo as nat));
        assert(p2 + ones(hi as nat) == 4);
        assert(abs_diff(p1, p2) == ones(v@[k as int] as nat));
        popcnt1[k] = p1;
        popcnt2[k] = p2;
        k += 1;
    }
    let r = sad_epu8(popcnt1, popcnt2);
    proof {
        assert forall|j: int| 0 <= j < 4 implies r@[j] == popcount(lane_bytes(v@, j)) by {
            lemma_abs_diff_popcount(
                lane_bytes(popcnt1@, j),
                lane_bytes(popcnt2@, j),
                lane_bytes(v@, j),
            );
        }
        lemma_popcount_extend(v@, 0, 8);
        lemma_popcount_extend(v@, 8, 16);
        lemma_popcount_extend(v@, 16, 24);
        lemma_popcount_extend(v@, 24, 32);
        assert(v@.take(0) =~= Seq::<u8>::empty());
        assert(v@.take(32) =~= v@);
        assert(v@.take(8) =~= lane_bytes(v@, 0));
        assert(v@.subrange(8, 16) =~= lane_bytes(v@, 1));
        assert(v@.subrange(16, 24) =~= lane_bytes(v@, 2));
        assert(v@.subrange(24, 32) =~= lane_bytes(v@, 3));
    }
    r
}

/// Lane-wise 64-bit addition, modulo `2^64` like the instruction. Where no
/// lane wraps, the lanes and their sum are the exact sums.
pub fn add_epi64(a: [u64; 4], b: [u64; 4]) -> (r: [u64; 4])
    ensures
        forall|j: int| 0 <= j < 4 ==> r@[j] == u64_specs::wrapping_add(a@[j], b@[j]),
        (forall|j: int| 0 <= j < 4 ==> a@[j] + b@[j] <= u64::MAX) ==> (forall|j: int|
            0 <= j < 4 ==> r@[j] == a@[j] + b@[j]) && lanes_sum(r) == lanes_sum(a) + lanes_sum(b),
{
    let r = [
        a[0].wrapping_add(b[0]),
        a[1].wrapping_add(b[1]),
        a[2].wrapping_add(b[2]),
        a[3].wrapping_add(b[3]),
    ];
    assert(forall|j: int| 0 <= j < 4 ==> r@[j] == u64_specs::wrapping_add(a@[j], b@[j]));
    r
}

/// Lane-wise left shift of 64-bit lanes by `s` bits, dropping the bits
/// shifted out; a count of 64 or more clears the lanes. Where no lane loses
/// bits, each lane is multiplied by `2^s`.
pub fn slli_epi64(a: [u64; 4], s: u64) -> (r: [u64; 4])
    ensures
        forall|j: int| 0 <= j < 4 ==> r@[j] == if s < 64 { a@[j] << s } else { 0 },
        s < 64 && (forall|j: int| 0 <= j < 4 ==> a@[j] * pow2(s as nat) <= u64::MAX) ==> (forall|
            j: int,
        | 0 <= j < 4 ==> r@[j] == a@[j] * pow2(s as nat)) && lanes_sum(r) == lanes_sum(a) * pow2(
            s as nat,
        ),
{
    if s >= 64 {
        return [0u64; 4];
    }
    let r = [a[0] << s, a[1] << s, a[2] << s, a[3] << s];
    assert(forall|j: int| 0 <= j < 4 ==> r@[j] == a@[j] << s);
    proof {
        if forall|j: int| 0 <= j < 4 ==> a@[j] * pow2(s as nat) <= u64::MAX {
            assert(a@[0] * pow2(s as nat) <= u64::MAX);
            assert(a@[1] * pow2(s as nat) <= u64::MAX);
            assert(a@[2] * pow2(s as nat) <= u64::MAX);
            assert(a@[3] * pow2(s as nat) <= u64::MAX);
            lemma_u64_shl_is_mul(a[0], s);
            lemma_u64_shl_is_mul(a[1], s);
            lemma_u64_shl_is_mul(a[2], s);
            lemma_u64_shl_is_mul(a[3], s);
            let p = pow2(s as nat);
            assert((a[0] + a[1] + a[2] + a[3]) * p == a[0] * p + a[1] * p + a[2] * p + a[3] * p)
                by (nonlinear_arith);
        }
    }
    r
}

/// AVX2 Harley-Seal population count ("Faster Population Counts using AVX2
/// Instructions", Lemire, Kurz and Mula, 2016): sixteen vectors per step go
/// through a tree of carry-save adders that keeps bit-planes of weight 1, 2,
/// 4 and 8, and only the weight-16 plane is counted each step.
///
/// `bytes.len()` must be a multiple of 32.
#[verifier::rlimit(60)]
pub fn popcnt_avx2(bytes: &[u8]) -> (cnt: u64)
    requires
        bytes@.len() % 32 == 0,
        bytes@.len() * 8 <= u64::MAX,
    ensures
        cnt == popcount(bytes@),
{
    let n = bytes.len();
    let zero = [0u8; 32];
    let mut cnt = [0u64; 4];
    let mut ones_v = zero;
    let mut twos = zero;
    let mut fours = zero;
    let mut eights = zero;
    proof {
        assert(zero@ =~= Seq::new(32, |i: int| 0u8));
        lemma_popcount_zero_vector(zero@);
        assert(bytes@.take(0) =~= Seq::<u8>::empty());
    }

    // Sixteen vectors (512 bytes) per step.
    let blocks = n / 512;
    let mut blk: usize = 0;
    while blk < blocks
        invariant
            n == bytes@.len(),
            n % 32 == 0,
            n * 8 <= u64::MAX,
            blocks == n / 512,
            blk <= blocks,
            16 * lanes_sum(cnt) + 8 * popcount(eights@) + 4 * popcount(fours@) + 2 * popcount(
                twos@,
            ) + popcount(ones_v@) == popcount(bytes@.take(512 * blk)),
        decreases blocks - blk,
    {
        let off = 512 * blk;
        let (sixteens, o, t, f, e) = csa_block(bytes, off, ones_v, twos, fours, eights);
        let p = popcnt256(sixteens);
        proof {
            lemma_popcount_extend(bytes@, off as int, off + 512);
            lemma_popcount_bound(bytes@.take(off + 512));
            assert(bytes@.take(off + 512).len() == off + 512);
        }
        cnt = add_epi64(cnt, p);
        ones_v = o;
        twos = t;
        fours = f;
        eights = e;
        blk += 1;
    }
    let ghost total = popcount(bytes@.take(512 * blocks));
    proof {
        lemma_popcount_bound(bytes@.take(512 * blocks));
        vstd::arithmetic::power2::lemma2_to64();
    }

    cnt = combine_planes(cnt, eights, fours, twos, ones_v);
    assert(lanes_sum(cnt) == total);

    // Remaining whole 32-byte vectors.
    let mut off = 512 * blocks;
    while off < n
        invariant
            n == bytes@.len(),
            n % 32 == 0,
            n * 8 <= u64::MAX,
            off % 32 == 0,
            off <= n,
            lanes_sum(cnt) == popcount(bytes@.take(off as int)),
        decreases n - off,
    {
        let p = popcnt256(load256(bytes, off));
        proof {
            lemma_popcount_extend(bytes@, off as int, off + 32);
            lemma_popcount_bound(bytes@.take(off + 32));
            assert(bytes@.take(off + 32).len() == off + 32);
        }
        cnt = add_epi64(cnt, p);
        off += 32;
    }
    proof {
        assert(bytes@.take(n as int) =~= bytes@);
        lemma_popcount_bound(bytes@);
    }
    // Sum the four 64-bit lanes.
    cnt[0] + cnt[1] + cnt[2] + cnt[3]
}

/// Folds the bit-planes into the lane counters: the counters have weight 16
/// and the planes of eights, fours, twos and ones their own weights.
#[verifier::rlimit(30)]
fn combine_planes(
    cnt: [u64; 4],
    eights: [u8; 32],
    fours: [u8; 32],
    twos: [u8; 32],
    ones_v: [u8; 32],
) -> (r: [u64; 4])
    requires
        16 * lanes_sum(cnt) + 8 * popcount(eights@) + 4 * popcount(fours@) + 2 * popcount(twos@)
            + popcount(ones_v@) <= u64::MAX,
    ensures
        lanes_sum(r) == 16 * lanes_sum(cnt) + 8 * popcount(eights@) + 4 * popcount(fours@) + 2
            * popcount(twos@) + popcount(ones_v@),
{
    proof {
        vstd::arithmetic::power2::lemma2_to64();
    }
    let p8 = popcnt256(eights);
    let p4 = popcnt256(fours);
    let p2 = popcnt256(twos);
    let p1 = popcnt256(ones_v);
    assert(pow2(4) == 16 && pow2(3) == 8 && pow2(2) == 4 && pow2(1) == 2);
    let ghost total = 16 * lanes_sum(cnt) + 8 * lanes_sum(p8) + 4 * lanes_sum(p4) + 2 * lanes_sum(
        p2,
    ) + lanes_sum(p1);
    assert(forall|j: int| 0 <= j < 4 ==> cnt@[j] * pow2(4) <= 16 * lanes_sum(cnt));
    let c = slli_epi64(cnt, 4);
    assert(forall|j: int| 0 <= j < 4 ==> p8@[j] * pow2(3) <= 8 * lanes_sum(p8));
    let s8 = slli_epi64(p8, 3);
    assert(forall|j: int| 0 <= j < 4 ==> c@[j] + s8@[j] <= total);
    let c = add_epi64(c, s8);
    assert(forall|j: int| 0 <= j < 4 ==> p4@[j] * pow2(2) <= 4 * lanes_sum(p4));
    let s4 = slli_epi64(p4, 2);
    assert(forall|j: int| 0 <= j < 4 ==> c@[j] + s4@[j] <= total);
    let c = add_epi64(c, s4);
    assert(forall|j: int| 0 <= j < 4 ==> p2@[j] * pow2(1) <= 2 * lanes_sum(p2));
    let s2 = slli_epi64(p2, 1);
    assert(forall|j: int| 0 <= j < 4 ==> c@[j] + s2@[j] <= total);
    let c = add_epi64(c, s2);
    assert(forall|j: int| 0 <= j < 4 ==> c@[j] + p1@[j] <= total);
    add_epi64(c, p1)
}

/// An all-zero vector has no ones.
proof fn lemma_popcount_zero_vector(z: Seq<u8>)
    requires
        forall|i: int| 0 <= i < z.len() ==> z[i] == 0u8,
    ensures
        popcount(z) == 0,
    decreases z.len(),
{
    if z.len() > 0 {
        lemma_popcount_zero_vector(z.drop_last());
    }
}

/// One Harley-Seal step: the sixteen vectors at `off` go through the
/// carry-save adder tree into the planes of weight 1, 2, 4 and 8, and the
/// carries of weight 16 come out. The weighted count is kept.
#[verifier::rlimit(40)]
fn csa_block(
    bytes: &[u8],
    off: usize,
    ones_v: [u8; 32],
    twos: [u8; 32],
    fours: [u8; 32],
    eights: [u8; 32],
) -> (r: ([u8; 32], [u8; 32], [u8; 32], [u8; 32], [u8; 32]))
    requires
        off + 512 <= bytes@.len(),
    ensures
        16 * popcount(r.0@) + 8 * popcount(r.4@) + 4 * popcount(r.3@) + 2 * popcount(r.2@)
            + popcount(r.1@) == 8 * popcount(eights@) + 4 * popcount(fours@) + 2 * popcount(
            twos@,
        ) + popcount(ones_v@) + popcount(bytes@.subrange(off as int, off + 512)),
{
    let n = bytes.len();
    assert(off + 512 <= n);
    let d0 = load256(bytes, off);
    let d1 = load256(bytes, off + 32);
    let d2 = load256(bytes, off + 64);
    let d3 = load256(bytes, off + 96);
    let d4 = load256(bytes, off + 128);
    let d5 = load256(bytes, off + 160);
    let d6 = load256(bytes, off + 192);
    let d7 = load256(bytes, off + 224);
    let d8 = load256(bytes, off + 256);
    let d9 = load256(bytes, off + 288);
    let d10 = load256(bytes, off + 320);
    let d11 = load256(bytes, off + 352);
    let d12 = load256(bytes, off + 384);
    let d13 = load256(bytes, off + 416);
    let d14 = load256(bytes, off + 448);
    let d15 = load256(bytes, off + 480);
    proof {
        lemma_popcount_sixteen_vectors(bytes@, off as int);
    }
    let (twos_a, o) = csa256(ones_v, d0, d1);
    let (twos_b, o) = csa256(o, d2, d3);
    let (fours_a, t) = csa256(twos, twos_a, twos_b);
    let (twos_a, o) = csa256(o, d4, d5);
    let (twos_b, o) = csa256(o, d6, d7);
    let (fours_b, t) = csa256(t, twos_a, twos_b);
    let (eights_a, f) = csa256(fours, fours_a, fours_b);
    let (twos_a, o) = csa256(o, d8, d9);
    let (twos_b, o) = csa256(o, d10, d11);
    let (fours_a, t) = csa256(t, twos_a, twos_b);
    let (twos_a, o) = csa256(o, d12, d13);
    let (twos_b, o) = csa256(o, d14, d15);
    let (fours_b, t) = csa256(t, twos_a, twos_b);
    let (eights_b, f) = csa256(f, fours_a, fours_b);
    let (sixteens, e) = csa256(eights, eights_a, eights_b);
    (sixteens, o, t, f, e)
}

/// The count of 512 bytes is the sum of the counts of its sixteen vectors.
proof fn lemma_popcount_sixteen_vectors(s: Seq<u8>, off: int)
    requires
        0 <= off,
        off + 512 <= s.len(),
    ensures
        popcount(s.subrange(off, off + 512)) == popcount(s.subrange(off, off + 32)) + popcount(
            s.subrange(off + 32, off + 64),
        ) + popcount(s.subrange(off + 64, off + 96)) + popcount(s.subrange(off + 96, off + 128))
            + popcount(s.subrange(off + 128, off + 160)) + popcount(
            s.subrange(off + 160, off + 192),
        ) + popcount(s.subrange(off + 192, off + 224)) + popcount(
            s.subrange(off + 224, off + 256),
        ) + popcount(s.subrange(off + 256, off + 288)) + popcount(
            s.subrange(off + 288, off + 320),
        ) + popcount(s.subrange(off + 320, off + 352)) + popcount(
            s.subrange(off + 352, off + 384),
        ) + popcount(s.subrange(off + 384, off + 416)) + popcount(
            s.subrange(off + 416, off + 448),
        ) + popcount(s.subrange(off + 448, off + 480)) + popcount(
            s.subrange(off + 480, off + 512),
        ),
{
    let t = s.subrange(off, off + 512);
    lemma_blocks_prefix(s, off, 16);
    assert(t.take(512) =~= t);
    reveal_with_fuel(blocks_sum, 17);
}

/// The count of the first `m` vectors of a 512-byte block.
proof fn lemma_blocks_prefix(s: Seq<u8>, off: int, m: int)
    requires
        0 <= off,
        0 <= m <= 16,
        off + 512 <= s.len(),
    ensures
        popcount(s.subrange(off, off + 512).take(32 * m)) == blocks_sum(s, off, m),
    decreases m,
{
    let t = s.subrange(off, off + 512);
    if m == 0 {
        assert(t.take(0) =~= Seq::<u8>::empty());
    } else {
        lemma_blocks_prefix(s, off, m - 1);
        lemma_popcount_extend(t, 32 * (m - 1), 32 * m);
        assert(t.subrange(32 * (m - 1), 32 * m) =~= s.subrange(
            off + 32 * (m - 1),
            off + 32 * m,
        ));
    }
}

/// Sum of the counts of the first `m` 32-byte vectors from `off`.
spec fn blocks_sum(s: Seq<u8>, off: int, m: int) -> nat
    decreases m,
{
    if m <= 0 {
        0
    } else {
        blocks_sum(s, off, m - 1) + popcount(s.subrange(off + 32 * (m - 1), off + 32 * m))
    }
}

} // verus!
