//! The mathematical model: what "the number of one bits" means for an
//! integer and for a byte string, and the arithmetic facts the counting
//! algorithms rest on.
use vstd::arithmetic::power2::{lemma_pow2_unfold, pow2};
use vstd::prelude::*;

verus! {

/// Number of one bits in the binary representation of `n`.
pub open spec fn ones(n: nat) -> nat
    decreases n,
{
    if n == 0 {
        0
    } else {
        ones(n / 2) + n % 2
    }
}

/// Number of one bits in a byte string: the sum of the bytes' counts.
pub open spec fn popcount(s: Seq<u8>) -> nat
    decreases s.len(),
{
    if s.len() == 0 {
        0
    } else {
        popcount(s.drop_last()) + ones(s.last() as nat)
    }
}

/// The unsigned integer whose little-endian byte encoding is `s`.
pub open spec fn le_value(s: Seq<u8>) -> nat
    decreases s.len(),
{
    if s.len() == 0 {
        0
    } else {
        s[0] as nat + 256 * le_value(s.drop_first())
    }
}

/// Sum of a sequence of 64-bit counters.
pub open spec fn sum_u64(s: Seq<u64>) -> nat
    decreases s.len(),
{
    if s.len() == 0 {
        0
    } else {
        sum_u64(s.drop_last()) + s.last() as nat
    }
}

/// Sum of a sequence of 8-bit counters.
pub open spec fn sum_u8(s: Seq<u8>) -> nat
    decreases s.len(),
{
    if s.len() == 0 {
        0
    } else {
        sum_u8(s.drop_last()) + s.last() as nat
    }
}

/// Appending one low bit `b` to `q` adds `b` ones.
pub proof fn lemma_ones_step(q: nat, b: nat)
    requires
        b < 2,
    ensures
        ones(2 * q + b) == ones(q) + b,
{
    let x = 2 * q + b;
    if x != 0 {
        assert(x / 2 == q);
        assert(x % 2 == b);
    }
}

/// Splitting a number at bit `k` splits its count of ones.
pub proof fn lemma_ones_split(q: nat, r: nat, k: nat)
    requires
        r < pow2(k),
    ensures
        ones(q * pow2(k) + r) == ones(q) + ones(r),
    decreases k,
{
    if k == 0 {
        assert(pow2(0) == 1) by {
            vstd::arithmetic::power2::lemma2_to64();
        }
        assert(r == 0);
        assert(q * 1 == q);
    } else {
        lemma_pow2_unfold(k);
        let p = pow2((k - 1) as nat);
        assert(pow2(k) == 2 * p);
        assert(r / 2 < p);
        lemma_ones_split(q, r / 2, (k - 1) as nat);
        assert(q * pow2(k) + r == 2 * (q * p + r / 2) + r % 2) by (nonlinear_arith)
            requires
                pow2(k) == 2 * p,
        ;
        lemma_ones_step(q * p + r / 2, r % 2);
        lemma_ones_step(r / 2, r % 2);
        assert(2 * (r / 2) + r % 2 == r);
    }
}

/// A number below `2^k` has at most `k` one bits.
pub proof fn lemma_ones_bound(n: nat, k: nat)
    requires
        n < pow2(k),
    ensures
        ones(n) <= k,
    decreases k,
{
    if k == 0 {
        assert(pow2(0) == 1) by {
            vstd::arithmetic::power2::lemma2_to64();
        }
    } else {
        lemma_pow2_unfold(k);
        if n != 0 {
            lemma_ones_bound(n / 2, (k - 1) as nat);
        }
    }
}

/// A byte has at most eight one bits.
pub proof fn lemma_ones_byte(b: u8)
    ensures
        ones(b as nat) <= 8,
{
    vstd::arithmetic::power2::lemma2_to64();
    lemma_ones_bound(b as nat, 8);
}

/// The count of a concatenation is the sum of the counts.
pub proof fn lemma_popcount_concat(a: Seq<u8>, b: Seq<u8>)
    ensures
        popcount(a + b) == popcount(a) + popcount(b),
    decreases b.len(),
{
    if b.len() == 0 {
        assert(a + b =~= a);
    } else {
        lemma_popcount_concat(a, b.drop_last());
        assert((a + b).drop_last() =~= a + b.drop_last());
        assert((a + b).last() == b.last());
    }
}

/// Counting a byte string one prefix at a time.
pub proof fn lemma_popcount_take_step(s: Seq<u8>, i: int)
    requires
        0 <= i < s.len(),
    ensures
        popcount(s.take(i + 1)) == popcount(s.take(i)) + ones(s[i] as nat),
{
    assert(s.take(i + 1).drop_last() =~= s.take(i));
}

/// The count of a prefix extended by a block.
pub proof fn lemma_popcount_extend(s: Seq<u8>, i: int, j: int)
    requires
        0 <= i <= j <= s.len(),
    ensures
        popcount(s.take(j)) == popcount(s.take(i)) + popcount(s.subrange(i, j)),
{
    lemma_popcount_concat(s.take(i), s.subrange(i, j));
    assert(s.take(i) + s.subrange(i, j) =~= s.take(j));
}

/// The count of a suffix is the total count less the count of the prefix.
pub proof fn lemma_popcount_suffix(s: Seq<u8>, i: int)
    requires
        0 <= i <= s.len(),
    ensures
        popcount(s.subrange(i, s.len() as int)) == popcount(s) - popcount(s.take(i)),
{
    lemma_popcount_extend(s, i, s.len() as int);
    assert(s.take(s.len() as int) =~= s);
}

/// A byte string has at most eight one bits per byte.
pub proof fn lemma_popcount_bound(s: Seq<u8>)
    ensures
        popcount(s) <= 8 * s.len(),
    decreases s.len(),
{
    if s.len() > 0 {
        lemma_popcount_bound(s.drop_last());
        lemma_ones_byte(s.last());
    }
}

/// Counting from the front: the first byte plus the rest.
pub proof fn lemma_popcount_first(s: Seq<u8>)
    requires
        s.len() > 0,
    ensures
        popcount(s) == ones(s[0] as nat) + popcount(s.drop_first()),
{
    lemma_popcount_concat(seq![s[0]], s.drop_first());
    assert(seq![s[0]] + s.drop_first() =~= s);
    lemma_popcount_single(s[0]);
}

/// A single byte's count.
pub proof fn lemma_popcount_single(x: u8)
    ensures
        popcount(seq![x]) == ones(x as nat),
{
    assert(seq![x].drop_last() =~= Seq::<u8>::empty());
    assert(popcount(Seq::<u8>::empty()) == 0);
}

/// A little-endian value has as many one bits as its bytes, and fits in
/// eight bits per byte.
pub proof fn lemma_le_value(s: Seq<u8>)
    ensures
        ones(le_value(s)) == popcount(s),
        le_value(s) < pow2(8 * s.len()),
    decreases s.len(),
{
    if s.len() == 0 {
        assert(pow2(0) == 1) by {
            vstd::arithmetic::power2::lemma2_to64();
        }
    } else {
        let rest = s.drop_first();
        lemma_le_value(rest);
        vstd::arithmetic::power2::lemma2_to64();
        assert(pow2(8) == 256);
        assert((s[0] as nat) < pow2(8));
        lemma_ones_split(le_value(rest), s[0] as nat, 8);
        assert(le_value(s) == le_value(rest) * pow2(8) + s[0] as nat);
        lemma_popcount_first(s);
        vstd::arithmetic::power2::lemma_pow2_adds(8 * rest.len(), 8);
        assert(8 * s.len() == 8 * rest.len() + 8);
        let v = le_value(rest);
        let p = pow2(8 * rest.len());
        assert(v * 256 + s[0] < p * 256) by (nonlinear_arith)
            requires
                v < p,
                s[0] < 256,
        ;
    }
}

/// Reversing a byte string keeps its count.
pub proof fn lemma_popcount_reverse(s: Seq<u8>)
    ensures
        popcount(s.reverse()) == popcount(s),
    decreases s.len(),
{
    if s.len() > 0 {
        let t = s.drop_last();
        lemma_popcount_reverse(t);
        assert(s.reverse() =~= seq![s.last()] + t.reverse());
        lemma_popcount_concat(seq![s.last()], t.reverse());
        lemma_popcount_single(s.last());
    }
}

/// The count of ones does not depend on byte order: reading a byte string
/// as a little-endian or as a big-endian number (the little-endian reading
/// of the reversed string) gives the same count, and both equal the count
/// of the bytes.
pub proof fn lemma_byte_order_independent(s: Seq<u8>)
    ensures
        ones(le_value(s)) == popcount(s),
        ones(le_value(s.reverse())) == popcount(s),
        popcount(s.reverse()) == popcount(s),
{
    lemma_le_value(s);
    lemma_le_value(s.reverse());
    lemma_popcount_reverse(s);
}

/// Per-bit facts behind the carry-save adder.
proof fn lemma_csa_bits(a: u8, b: u8, c: u8)
    by (bit_vector)
    ensures
        ((a & b) | ((a ^ b) & c)) / 2 == ((a / 2) & (b / 2)) | (((a / 2) ^ (b / 2)) & (c / 2)),
        ((a ^ b) ^ c) / 2 == ((a / 2) ^ (b / 2)) ^ (c / 2),
        2 * (((a & b) | ((a ^ b) & c)) % 2) + ((a ^ b) ^ c) % 2 == a % 2 + b % 2 + c % 2,
        (a == 0 && b == 0 && c == 0) ==> ((a & b) | ((a ^ b) & c)) == 0 && ((a ^ b) ^ c) == 0,
{
}

/// The carry-save adder keeps the weighted count: two ones for every carry
/// bit plus one for every sum bit equal the ones of the three inputs.
pub proof fn lemma_csa_ones(a: u8, b: u8, c: u8)
    ensures
        2 * ones(((a & b) | ((a ^ b) & c)) as nat) + ones(((a ^ b) ^ c) as nat) == ones(a as nat)
            + ones(b as nat) + ones(c as nat),
    decreases a as nat + b as nat + c as nat,
{
    lemma_csa_bits(a, b, c);
    let h = (a & b) | ((a ^ b) & c);
    let l = (a ^ b) ^ c;
    if a == 0 && b == 0 && c == 0 {
    } else {
        lemma_csa_ones(a / 2, b / 2, c / 2);
        lemma_halve(a);
        lemma_halve(b);
        lemma_halve(c);
        lemma_halve(h);
        lemma_halve(l);
    }
}

/// Unfolding the count of a byte once.
proof fn lemma_halve(x: u8)
    ensures
        ones(x as nat) == ones((x / 2) as nat) + x % 2,
{
    if x == 0 {
    }
}

/// `s` followed by zero bytes up to length `n`.
pub open spec fn zero_padded(s: Seq<u8>, n: nat) -> Seq<u8> {
    s + Seq::new((n - s.len()) as nat, |i: int| 0u8)
}

/// Zero bytes add no ones.
pub proof fn lemma_popcount_zeros(s: Seq<u8>, k: nat)
    ensures
        popcount(s + Seq::new(k, |i: int| 0u8)) == popcount(s),
    decreases k,
{
    let z = Seq::new(k, |i: int| 0u8);
    if k == 0 {
        assert(s + z =~= s);
    } else {
        let z1 = Seq::new((k - 1) as nat, |i: int| 0u8);
        lemma_popcount_zeros(s, (k - 1) as nat);
        assert((s + z).drop_last() =~= s + z1);
        assert((s + z).last() == 0u8);
    }
}

} // verus!
