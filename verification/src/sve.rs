//! The ARM SVE population count. The vector length is chosen by the
//! hardware (16 to 256 bytes); a vector is held as its bytes, a predicate as
//! one flag per byte, and the counters as one 64-bit word per 8-byte lane.
use crate::avx512::le_word;
use crate::spec::{
    lemma_le_value, lemma_popcount_bound, lemma_popcount_extend, lemma_popcount_zeros, popcount,
    sum_u64,
};
use vstd::prelude::*;

verus! {

/// A counter is at most the sum of all counters.
proof fn lemma_sum_u64_elem(s: Seq<u64>, j: int)
    requires
        0 <= j < s.len(),
    ensures
        s[j] <= sum_u64(s),
    decreases s.len(),
{
    if j < s.len() - 1 {
        lemma_sum_u64_elem(s.drop_last(), j);
    }
}

/// Sums of counters that add up lane by lane.
proof fn lemma_sum_u64_add(a: Seq<u64>, b: Seq<u64>, r: Seq<u64>)
    requires
        a.len() == b.len() == r.len(),
        forall|k: int| 0 <= k < r.len() ==> r[k] == a[k] + b[k],
    ensures
        sum_u64(r) == sum_u64(a) + sum_u64(b),
    decreases r.len(),
{
    if r.len() > 0 {
        lemma_sum_u64_add(a.drop_last(), b.drop_last(), r.drop_last());
    }
}

/// `n` zero counters.
pub fn svdup_n_u64_zero(n: usize) -> (r: Vec<u64>)
    ensures
        r@.len() == n,
        sum_u64(r@) == 0,
{
    let mut r: Vec<u64> = Vec::new();
    let mut k: usize = 0;
    while k < n
        invariant
            k <= n,
            r@.len() == k,
            sum_u64(r@) == 0,
        decreases n - k,
    {
        let ghost r0 = r@;
        r.push(0);
        assert(r@.drop_last() =~= r0);
        k += 1;
    }
    r
}

/// Predicate of the lanes `k` with `i + k < len`, for a vector of `vl` bytes.
pub fn svwhilelt_b8(i: u64, len: u64, vl: usize) -> (pg: Vec<bool>)
    ensures
        pg@.len() == vl,
        forall|k: int| 0 <= k < vl ==> (pg@[k] <==> i + k < len),
{
    let mut pg: Vec<bool> = Vec::new();
    let mut k: usize = 0;
    while k < vl
        invariant
            k <= vl,
            pg@.len() == k,
            forall|j: int| 0 <= j < k ==> (pg@[j] <==> i + j < len),
        decreases vl - k,
    {
        let active = i < len && (k as u64) < len - i;
        pg.push(active);
        k += 1;
    }
    pg
}

/// Whether any lane of the predicate is active.
pub fn svptest_any(pg: &Vec<bool>) -> (b: bool)
    ensures
        b <==> exists|k: int| 0 <= k < pg@.len() && pg@[k],
{
    let mut k: usize = 0;
    while k < pg.len()
        invariant
            k <= pg@.len(),
            forall|j: int| 0 <= j < k ==> !pg@[j],
        decreases pg@.len() - k,
    {
        if pg[k] {
            return true;
        }
        k += 1;
    }
    false
}

/// Predicated load: byte `k` is `bytes[off + k]` where lane `k` is active
/// and zero elsewhere; inactive lanes are not read.
pub fn svld1_u8(pg: &Vec<bool>, bytes: &[u8], off: usize) -> (v: Vec<u8>)
    requires
        forall|k: int| 0 <= k < pg@.len() && pg@[k] ==> off + k < bytes@.len(),
    ensures
        v@.len() == pg@.len(),
        forall|k: int| 0 <= k < pg@.len() ==> v@[k] == if pg@[k] { bytes@[off + k] } else { 0u8 },
{
    let n = bytes.len();
    let mut v: Vec<u8> = Vec::new();
    let mut k: usize = 0;
    while k < pg.len()
        invariant
            n == bytes@.len(),
            k <= pg@.len(),
            v@.len() == k,
            forall|j: int| 0 <= j < pg@.len() && pg@[j] ==> off + j < bytes@.len(),
            forall|j: int| 0 <= j < k ==> v@[j] == if pg@[j] { bytes@[off + j] } else { 0u8 },
        decreases pg@.len() - k,
    {
        if pg[k] {
            v.push(bytes[off + k]);
        } else {
            v.push(0);
        }
        k += 1;
    }
    v
}

/// Full-predicate load of `vl` bytes at `off`.
pub fn svld1_u8_all(bytes: &[u8], off: usize, vl: usize) -> (v: Vec<u8>)
    requires
        off + vl <= bytes@.len(),
    ensures
        v@ == bytes@.subrange(off as int, off + vl),
{
    let n = bytes.len();
    let mut v: Vec<u8> = Vec::new();
    let mut k: usize = 0;
    while k < vl
        invariant
            n == bytes@.len(),
            off + vl <= n,
            k <= vl,
            v@.len() == k,
            forall|j: int| 0 <= j < k ==> v@[j] == bytes@[off + j],
        decreases vl - k,
    {
        v.push(bytes[off + k]);
        k += 1;
    }
    assert(v@ =~= bytes@.subrange(off as int, off + vl));
    v
}

/// Population count of each 64-bit lane of a vector.
pub fn svcnt_u64(v: &Vec<u8>) -> (r: Vec<u64>)
    requires
        v@.len() % 8 == 0,
    ensures
        r@.len() == v@.len() / 8,
        forall|j: int| 0 <= j < r@.len() ==> r@[j] == popcount(v@.subrange(8 * j, 8 * j + 8)),
        sum_u64(r@) == popcount(v@),
{
    let n = v.len();
    let lanes = n / 8;
    let mut r: Vec<u64> = Vec::new();
    let mut j: usize = 0;
    proof {
        assert(v@.take(0) =~= Seq::<u8>::empty());
    }
    while j < lanes
        invariant
            n == v@.len(),
            lanes == v@.len() / 8,
            v@.len() % 8 == 0,
            j <= lanes,
            r@.len() == j,
            forall|i: int| 0 <= i < j ==> r@[i] == popcount(v@.subrange(8 * i, 8 * i + 8)),
            sum_u64(r@) == popcount(v@.take(8 * j)),
        decreases lanes - j,
    {
        let w = le_word(v.as_slice(), 8 * j);
        proof {
            lemma_le_value(v@.subrange(8 * j as int, 8 * j + 8));
            lemma_popcount_extend(v@, 8 * j as int, 8 * j + 8);
        }
        let ghost r0 = r@;
        r.push(w.count_ones() as u64);
        assert(r@.drop_last() =~= r0);
        j += 1;
    }
    assert(v@.take(8 * lanes) =~= v@);
    r
}

/// Adds the lane counts of `v` onto the counters, lane by lane.
pub fn svadd_cnt(vcnt: Vec<u64>, v: &Vec<u8>) -> (r: Vec<u64>)
    requires
        v@.len() % 8 == 0,
        vcnt@.len() == v@.len() / 8,
        sum_u64(vcnt@) + popcount(v@) <= u64::MAX,
    ensures
        r@.len() == vcnt@.len(),
        forall|j: int|
            0 <= j < r@.len() ==> r@[j] == vcnt@[j] + popcount(v@.subrange(8 * j, 8 * j + 8)),
        sum_u64(r@) == sum_u64(vcnt@) + popcount(v@),
{
    let c = svcnt_u64(v);
    let mut r: Vec<u64> = Vec::new();
    let mut j: usize = 0;
    while j < vcnt.len()
        invariant
            c@.len() == vcnt@.len(),
            sum_u64(vcnt@) + sum_u64(c@) <= u64::MAX,
            j <= vcnt@.len(),
            r@.len() == j,
            forall|k: int| 0 <= k < j ==> r@[k] == vcnt@[k] + c@[k],
        decreases vcnt@.len() - j,
    {
        proof {
            lemma_sum_u64_elem(vcnt@, j as int);
            lemma_sum_u64_elem(c@, j as int);
        }
        r.push(vcnt[j] + c[j]);
        j += 1;
    }
    proof {
        lemma_sum_u64_add(vcnt@, c@, r@);
    }
    r
}

/// Horizontal sum of the counters.
pub fn svaddv_u64(v: &Vec<u64>) -> (s: u64)
    requires
        sum_u64(v@) <= u64::MAX,
    ensures
        s == sum_u64(v@),
{
    let mut s: u64 = 0;
    let mut j: usize = 0;
    proof {
        assert(v@.take(0) =~= Seq::<u64>::empty());
    }
    while j < v.len()
        invariant
            j <= v@.len(),
            sum_u64(v@) <= u64::MAX,
            s == sum_u64(v@.take(j as int)),
        decreases v@.len() - j,
    {
        proof {
            assert(v@.take(j + 1).drop_last() =~= v@.take(j as int));
            lemma_sum_u64_elem(v@.take(j + 1), j as int);
            lemma_sum_prefix_le(v@, j + 1);
        }
        s = s + v[j];
        j += 1;
    }
    assert(v@.take(j as int) =~= v@);
    s
}

/// The sum of a prefix is at most the sum of all counters.
proof fn lemma_sum_prefix_le(s: Seq<u64>, j: int)
    requires
        0 <= j <= s.len(),
    ensures
        sum_u64(s.take(j)) <= sum_u64(s),
    decreases s.len(),
{
    if j < s.len() {
        lemma_sum_prefix_le(s.drop_last(), j);
        assert(s.drop_last().take(j) =~= s.take(j));
    } else {
        assert(s.take(j) =~= s);
    }
}

/// SVE population count for a vector length of `vl` bytes: a four-times
/// unrolled loop over full vectors, then a predicated loop whose loads
/// zero-fill the lanes past the end, so no scalar remainder is needed.
pub fn popcnt_arm_sve(bytes: &[u8], vl: usize) -> (cnt: u64)
    requires
        16 <= vl <= 256,
        vl % 16 == 0,
        bytes@.len() <= isize::MAX,
        bytes@.len() * 8 <= u64::MAX,
    ensures
        cnt == popcount(bytes@),
{
    let len = bytes.len();
    let mut i: usize = 0;
    let mut vcnt = svdup_n_u64_zero(vl / 8);
    proof {
        assert(bytes@.take(0) =~= Seq::<u8>::empty());
        lemma_popcount_bound(bytes@);
    }

    // Four times unrolled full-predicate loop.
    while len - i >= vl * 4
        invariant
            len == bytes@.len(),
            len * 8 <= u64::MAX,
            16 <= vl <= 256,
            vl % 16 == 0,
            i <= len,
            vcnt@.len() == vl / 8,
            sum_u64(vcnt@) == popcount(bytes@.take(i as int)),
        decreases len - i,
    {
        let v0 = svld1_u8_all(bytes, i, vl);
        let v1 = svld1_u8_all(bytes, i + vl, vl);
        let v2 = svld1_u8_all(bytes, i + vl * 2, vl);
        let v3 = svld1_u8_all(bytes, i + vl * 3, vl);
        proof {
            lemma_popcount_extend(bytes@, i as int, i + vl);
            lemma_popcount_extend(bytes@, i + vl, i + vl * 2);
            lemma_popcount_extend(bytes@, i + vl * 2, i + vl * 3);
            lemma_popcount_extend(bytes@, i + vl * 3, i + vl * 4);
            lemma_popcount_bound(bytes@.take(i + vl * 4));
            assert(bytes@.take(i + vl * 4).len() == i + vl * 4);
        }
        vcnt = svadd_cnt(vcnt, &v0);
        vcnt = svadd_cnt(vcnt, &v1);
        vcnt = svadd_cnt(vcnt, &v2);
        vcnt = svadd_cnt(vcnt, &v3);
        i += vl * 4;
    }

    // Predicated tail.
    let mut pg = svwhilelt_b8(i as u64, len as u64, vl);
    while svptest_any(&pg)
        invariant
            len == bytes@.len(),
            len <= isize::MAX,
            len * 8 <= u64::MAX,
            16 <= vl <= 256,
            vl % 16 == 0,
            i <= len + vl,
            pg@.len() == vl,
            forall|k: int| 0 <= k < vl ==> (pg@[k] <==> i + k < len),
            vcnt@.len() == vl / 8,
            sum_u64(vcnt@) == popcount(bytes@.take(if i <= len { i as int } else { len as int })),
        decreases len + vl - i,
    {
        assert(i < len) by {
            let k = choose|k: int| 0 <= k < pg@.len() && pg@[k];
        }
        let v = svld1_u8(&pg, bytes, i);
        let ghost end: int = if i + vl <= len { i + vl } else { len as int };
        proof {
            let tail = bytes@.subrange(i as int, end);
            assert(v@ =~= tail + Seq::new((vl - (end - i)) as nat, |k: int| 0u8));
            lemma_popcount_zeros(tail, (vl - (end - i)) as nat);
            lemma_popcount_extend(bytes@, i as int, end);
            lemma_popcount_bound(bytes@.take(end));
            assert(bytes@.take(end).len() == end);
        }
        vcnt = svadd_cnt(vcnt, &v);
        i += vl;
        pg = svwhilelt_b8(i as u64, len as u64, vl);
    }
    proof {
        if i < len {
            assert(pg@[0]);
        }
        assert(bytes@.take(len as int) =~= bytes@);
    }
    svaddv_u64(&vcnt)
}

} // verus!
