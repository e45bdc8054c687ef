//! Counting the bits of slices of every built-in integer type, through the
//! little-endian byte view of their elements.
use crate::spec::{lemma_ones_split, lemma_popcount_concat, lemma_popcount_single, ones, popcount};
use vstd::arithmetic::power2::{lemma_pow2_adds, pow2};
use vstd::prelude::*;

verus! {

/// The `n` low bytes of `v`, least significant first.
pub open spec fn word_le_bytes(v: nat, n: nat) -> Seq<u8>
    decreases n,
{
    if n == 0 {
        Seq::empty()
    } else {
        seq![(v % 256) as u8] + word_le_bytes(v / 256, (n - 1) as nat)
    }
}

/// An integer type: its width in bytes and the unsigned value of its bit
/// pattern (two's complement for the signed types).
pub trait Word: Sized {
    spec fn byte_width() -> nat;

    spec fn bits(self) -> nat;

    proof fn lemma_bits_fit(self)
        ensures
            1 <= Self::byte_width() <= 16,
            self.bits() < pow2(8 * Self::byte_width()),
    ;

    fn byte_width_exec() -> (n: usize)
        ensures
            n == Self::byte_width(),
    ;

    fn to_bits(&self) -> (r: u128)
        ensures
            r == self.bits(),
    ;
}

/// The ones of all elements.
pub open spec fn elems_ones<T: Word>(s: Seq<T>) -> nat
    decreases s.len(),
{
    if s.len() == 0 {
        0
    } else {
        elems_ones(s.drop_last()) + ones(s.last().bits())
    }
}

/// The byte view of a slice: each element's bytes, least significant first.
pub open spec fn le_bytes_view<T: Word>(s: Seq<T>) -> Seq<u8>
    decreases s.len(),
{
    if s.len() == 0 {
        Seq::empty()
    } else {
        le_bytes_view(s.drop_last()) + word_le_bytes(s.last().bits(), T::byte_width())
    }
}

/// The bytes of a value below `2^(8n)` have its ones.
pub proof fn lemma_word_le_bytes(v: nat, n: nat)
    requires
        v < pow2(8 * n),
    ensures
        word_le_bytes(v, n).len() == n,
        popcount(word_le_bytes(v, n)) == ones(v),
    decreases n,
{
    if n == 0 {
        vstd::arithmetic::power2::lemma2_to64();
        assert(v == 0);
    } else {
        vstd::arithmetic::power2::lemma2_to64();
        lemma_pow2_adds(8, 8 * (n - 1) as nat);
        assert(8 * n == 8 + 8 * (n - 1) as nat);
        let p = pow2(8 * (n - 1) as nat);
        assert(v / 256 < p) by (nonlinear_arith)
            requires
                v < 256 * p,
        ;
        lemma_word_le_bytes(v / 256, (n - 1) as nat);
        lemma_popcount_concat(seq![(v % 256) as u8], word_le_bytes(v / 256, (n - 1) as nat));
        lemma_popcount_single((v % 256) as u8);
        assert(pow2(8) == 256);
        lemma_ones_split(v / 256, v % 256, 8);
        assert(v == (v / 256) * 256 + v % 256);
    }
}

/// The element-wise count equals the count of the byte view.
pub proof fn lemma_le_bytes_view<T: Word>(s: Seq<T>)
    ensures
        popcount(le_bytes_view(s)) == elems_ones(s),
        le_bytes_view(s).len() == s.len() * T::byte_width(),
    decreases s.len(),
{
    if s.len() > 0 {
        lemma_le_bytes_view(s.drop_last());
        s.last().lemma_bits_fit();
        lemma_word_le_bytes(s.last().bits(), T::byte_width());
        lemma_popcount_concat(
            le_bytes_view(s.drop_last()),
            word_le_bytes(s.last().bits(), T::byte_width()),
        );
        assert(s.len() * T::byte_width() == (s.len() - 1) * T::byte_width() + T::byte_width())
            by (nonlinear_arith);
    }
}

/// The byte view of a slice of integers: the little-endian bytes of its
/// elements, one element after the other.
pub fn le_byte_view<T: Word>(s: &[T]) -> (bytes: Vec<u8>)
    ensures
        bytes@ == le_bytes_view(s@),
{
    let w = T::byte_width_exec();
    let mut bytes: Vec<u8> = Vec::new();
    let mut i: usize = 0;
    proof {
        assert(s@.take(0) =~= Seq::<T>::empty());
    }
    while i < s.len()
        invariant
            w == T::byte_width(),
            i <= s@.len(),
            bytes@ == le_bytes_view(s@.take(i as int)),
        decreases s@.len() - i,
    {
        let mut v: u128 = s[i].to_bits();
        let ghost v0 = v as nat;
        let ghost b0 = bytes@;
        let mut k: usize = 0;
        proof {
            s@[i as int].lemma_bits_fit();
            assert(word_le_bytes(v0, 0) =~= Seq::<u8>::empty());
            assert(b0 + word_le_bytes(v0, 0) =~= b0);
            vstd::arithmetic::power2::lemma2_to64();
            assert(pow2(8 * 0) == 1);
            assert(v0 / 1 == v0);
        }
        while k < w
            invariant
                w == T::byte_width(),
                1 <= w <= 16,
                k <= w,
                v0 < pow2(8 * w as nat),
                v as nat == v0 / pow2(8 * k as nat),
                b0 + word_le_bytes(v0, k as nat) == bytes@,
            decreases w - k,
        {
            proof {
                lemma_word_le_bytes_step(v0, k as nat);
                lemma_shift_byte(v);
                lemma_div_pow2_step(v0, k as nat);
            }
            bytes.push((v & 0xff) as u8);
            v = v >> 8u32;
            k += 1;
            proof {
                assert(b0 + word_le_bytes(v0, k as nat) =~= bytes@);
            }
        }
        proof {
            assert(s@.take(i + 1).drop_last() =~= s@.take(i as int));
        }
        i += 1;
    }
    assert(s@.take(s@.len() as int) =~= s@);
    bytes
}

/// Counts the bits of a slice of integers by counting its byte view.
pub fn popcnt_words<T: Word>(s: &[T]) -> (cnt: u64)
    requires
        s@.len() * T::byte_width() * 8 <= u64::MAX,
    ensures
        cnt == elems_ones(s@),
        cnt == popcount(le_bytes_view(s@)),
{
    let bytes = le_byte_view(s);
    proof {
        lemma_le_bytes_view(s@);
        assert(bytes@.len() * 8 == s@.len() * T::byte_width() * 8);
    }
    crate::popcnt(bytes.as_slice())
}

/// Dividing by `2^(8k)` then by 256 is dividing by `2^(8(k + 1))`.
proof fn lemma_div_pow2_step(v: nat, k: nat)
    ensures
        v / pow2(8 * k) / 256 == v / pow2(8 * (k + 1)),
{
    vstd::arithmetic::power2::lemma2_to64();
    lemma_pow2_adds(8 * k, 8);
    vstd::arithmetic::power2::lemma_pow2_pos(8 * k);
    vstd::arithmetic::div_mod::lemma_div_denominator(v as int, pow2(8 * k) as int, 256);
}

/// The next byte of the little-endian encoding.
proof fn lemma_word_le_bytes_step(v: nat, k: nat)
    ensures
        word_le_bytes(v, k + 1) == word_le_bytes(v, k).push(((v / pow2(8 * k)) % 256) as u8),
    decreases k,
{
    if k == 0 {
        vstd::arithmetic::power2::lemma2_to64();
        assert(pow2(8 * k) == 1);
        assert(word_le_bytes(v / 256, 0) =~= Seq::<u8>::empty());
        assert(word_le_bytes(v, 1) =~= seq![(v % 256) as u8]);
        assert(word_le_bytes(v, 0).push((v % 256) as u8) =~= seq![(v % 256) as u8]);
    } else {
        let p = pow2(8 * (k - 1) as nat);
        let x = ((v / 256) / p) % 256;
        lemma_word_le_bytes_step(v / 256, (k - 1) as nat);
        vstd::arithmetic::power2::lemma2_to64();
        lemma_pow2_adds(8, 8 * (k - 1) as nat);
        assert(8 * k == 8 + 8 * (k - 1) as nat);
        assert(pow2(8 * k) == 256 * p);
        vstd::arithmetic::power2::lemma_pow2_pos(8 * (k - 1) as nat);
        vstd::arithmetic::div_mod::lemma_div_denominator(v as int, 256, p as int);
        assert((v / 256) / p == v / pow2(8 * k));
        let head = seq![(v % 256) as u8];
        let w1 = word_le_bytes(v / 256, (k - 1) as nat);
        assert(word_le_bytes(v / 256, k) == w1.push(x as u8));
        assert(word_le_bytes(v, k + 1) == head + word_le_bytes(v / 256, k));
        assert(word_le_bytes(v, k) == head + w1);
        assert(head + w1.push(x as u8) =~= (head + w1).push(x as u8));
    }
}

/// The low byte and the shift of a 128-bit value.
proof fn lemma_shift_byte(v: u128)
    ensures
        (v & 0xff) as nat == v as nat % 256,
        (v >> 8u32) as nat == v as nat / 256,
{
    assert((v & 0xff) == v % 256 && (v >> 8u32) == v / 256) by (bit_vector);
}

} // verus!
