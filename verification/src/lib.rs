//! Bit population count (Hamming weight) of byte strings and integer slices.
//!
//! The count is defined in [`spec`]; every algorithm (the portable scalar
//! loop, AVX2 Harley-Seal, AVX512-VPOPCNTDQ, NEON and SVE, each on a safe
//! model of its vector registers) and every dispatch choice is proved to
//! return exactly that count.
use vstd::prelude::*;

pub mod avx2;
pub mod avx512;
pub mod dispatch;
pub mod ext;
pub mod neon;
pub mod scalar;
pub mod spec;
pub mod sve;

use crate::ext::{elems_ones, le_bytes_view, popcnt_words, Word};
use crate::spec::popcount;
use vstd::arithmetic::power2::pow2;
use vstd::layout::size_of;

verus! {

/// Counts the number of one bits (population count) in `bytes`, with the
/// portable scalar loop; the CPU-specific paths are chosen by
/// [`dispatch::popcnt_x86`] and [`dispatch::popcnt_aarch64`] from the
/// instruction sets the caller reports.
pub fn popcnt(bytes: &[u8]) -> (cnt: u64)
    requires
        bytes@.len() * 8 <= u64::MAX,
    ensures
        cnt == popcount(bytes@),
{
    scalar::popcnt_scalar(bytes)
}

/// Adds a `popcnt` method to slices of the built-in integer types, counting
/// their bits through the byte view of the elements.
pub trait PopcntExt {
    /// The number of one bits across all elements.
    spec fn ones_of(&self) -> nat;

    /// The number of bits of all elements together.
    spec fn bit_len(&self) -> nat;

    /// Count the total number of 1 bits across all elements of the slice.
    fn popcnt(&self) -> (cnt: u64)
        requires
            self.bit_len() <= u64::MAX,
        ensures
            cnt == self.ones_of(),
    ;
}

impl PopcntExt for [u8] {
    open spec fn ones_of(&self) -> nat {
        popcount(self@)
    }

    open spec fn bit_len(&self) -> nat {
        self@.len() * 8
    }

    fn popcnt(&self) -> (cnt: u64) {
        popcnt(self)
    }
}

impl PopcntExt for [u16] {
    open spec fn ones_of(&self) -> nat {
        elems_ones(self@)
    }

    open spec fn bit_len(&self) -> nat {
        self@.len() * 16
    }

    fn popcnt(&self) -> (cnt: u64)
        ensures
            cnt == popcount(le_bytes_view(self@)),
    {
        popcnt_words(self)
    }
}

impl Word for u16 {
    open spec fn byte_width() -> nat {
        2
    }

    open spec fn bits(self) -> nat {
        self as nat
    }

    proof fn lemma_bits_fit(self) {
        vstd::arithmetic::power2::lemma2_to64();
        vstd::arithmetic::power2::lemma2_to64_rest();
    }

    fn byte_width_exec() -> (n: usize) {
        2
    }

    fn to_bits(&self) -> (r: u128) {
        *self as u128
    }
}

impl PopcntExt for [u32] {
    open spec fn ones_of(&self) -> nat {
        elems_ones(self@)
    }

    open spec fn bit_len(&self) -> nat {
        self@.len() * 32
    }

    fn popcnt(&self) -> (cnt: u64)
        ensures
            cnt == popcount(le_bytes_view(self@)),
    {
        popcnt_words(self)
    }
}

impl Word for u32 {
    open spec fn byte_width() -> nat {
        4
    }

    open spec fn bits(self) -> nat {
        self as nat
    }

    proof fn lemma_bits_fit(self) {
        vstd::arithmetic::power2::lemma2_to64();
        vstd::arithmetic::power2::lemma2_to64_rest();
    }

    fn byte_width_exec() -> (n: usize) {
        4
    }

    fn to_bits(&self) -> (r: u128) {
        *self as u128
    }
}

impl PopcntExt for [u64] {
    open spec fn ones_of(&self) -> nat {
        elems_ones(self@)
    }

    open spec fn bit_len(&self) -> nat {
        self@.len() * 64
    }

    fn popcnt(&self) -> (cnt: u64)
        ensures
            cnt == popcount(le_bytes_view(self@)),
    {
        popcnt_words(self)
    }
}

impl Word for u64 {
    open spec fn byte_width() -> nat {
        8
    }

    open spec fn bits(self) -> nat {
        self as nat
    }

    proof fn lemma_bits_fit(self) {
        vstd::arithmetic::power2::lemma2_to64();
        vstd::arithmetic::power2::lemma2_to64_rest();
    }

    fn byte_width_exec() -> (n: usize) {
        8
    }

    fn to_bits(&self) -> (r: u128) {
        *self as u128
    }
}

impl PopcntExt for [u128] {
    open spec fn ones_of(&self) -> nat {
        elems_ones(self@)
    }

    open spec fn bit_len(&self) -> nat {
        self@.len() * 128
    }

    fn popcnt(&self) -> (cnt: u64)
        ensures
            cnt == popcount(le_bytes_view(self@)),
    {
        popcnt_words(self)
    }
}

impl Word for u128 {
    open spec fn byte_width() -> nat {
        16
    }

    open spec fn bits(self) -> nat {
        self as nat
    }

    proof fn lemma_bits_fit(self) {
        vstd::arithmetic::power2::lemma2_to64_rest();
        vstd::arithmetic::power2::lemma_pow2_adds(64, 64);
    }

    fn byte_width_exec() -> (n: usize) {
        16
    }

    fn to_bits(&self) -> (r: u128) {
        *self
    }
}

impl PopcntExt for [usize] {
    open spec fn ones_of(&self) -> nat {
        elems_ones(self@)
    }

    open spec fn bit_len(&self) -> nat {
        self@.len() * (usize::BITS as nat)
    }

    fn popcnt(&self) -> (cnt: u64)
        ensures
            cnt == popcount(le_bytes_view(self@)),
    {
        proof {
            let n = self@.len();
            if usize::BITS == 32 {
                assert(n * (usize::BITS as nat) == n * 4 * 8) by (nonlinear_arith)
                    requires
                        usize::BITS == 32,
                ;
            } else {
                assert(usize::BITS == 64);
                assert(n * (usize::BITS as nat) == n * 8 * 8) by (nonlinear_arith)
                    requires
                        usize::BITS == 64,
                ;
            }
        }
        popcnt_words(self)
    }
}

impl Word for usize {
    open spec fn byte_width() -> nat {
        (usize::BITS / 8) as nat
    }

    open spec fn bits(self) -> nat {
        self as nat
    }

    proof fn lemma_bits_fit(self) {
        vstd::arithmetic::power2::lemma2_to64();
        vstd::arithmetic::power2::lemma2_to64_rest();
    }

    fn byte_width_exec() -> (n: usize) {
        (usize::BITS / 8) as usize
    }

    fn to_bits(&self) -> (r: u128) {
        *self as u128
    }
}

impl PopcntExt for [i8] {
    open spec fn ones_of(&self) -> nat {
        elems_ones(self@)
    }

    open spec fn bit_len(&self) -> nat {
        self@.len() * 8
    }

    fn popcnt(&self) -> (cnt: u64)
        ensures
            cnt == popcount(le_bytes_view(self@)),
    {
        popcnt_words(self)
    }
}

impl Word for i8 {
    open spec fn byte_width() -> nat {
        1
    }

    open spec fn bits(self) -> nat {
        (self as u8) as nat
    }

    proof fn lemma_bits_fit(self) {
        vstd::arithmetic::power2::lemma2_to64();
        vstd::arithmetic::power2::lemma2_to64_rest();
    }

    fn byte_width_exec() -> (n: usize) {
        1
    }

    fn to_bits(&self) -> (r: u128) {
        *self as u8 as u128
    }
}

impl PopcntExt for [i16] {
    open spec fn ones_of(&self) -> nat {
        elems_ones(self@)
    }

    open spec fn bit_len(&self) -> nat {
        self@.len() * 16
    }

    fn popcnt(&self) -> (cnt: u64)
        ensures
            cnt == popcount(le_bytes_view(self@)),
    {
        popcnt_words(self)
    }
}

impl Word for i16 {
    open spec fn byte_width() -> nat {
        2
    }

    open spec fn bits(self) -> nat {
        (self as u16) as nat
    }

    proof fn lemma_bits_fit(self) {
        vstd::arithmetic::power2::lemma2_to64();
        vstd::arithmetic::power2::lemma2_to64_rest();
    }

    fn byte_width_exec() -> (n: usize) {
        2
    }

    fn to_bits(&self) -> (r: u128) {
        *self as u16 as u128
    }
}

impl PopcntExt for [i32] {
    open spec fn ones_of(&self) -> nat {
        elems_ones(self@)
    }

    open spec fn bit_len(&self) -> nat {
        self@.len() * 32
    }

    fn popcnt(&self) -> (cnt: u64)
        ensures
            cnt == popcount(le_bytes_view(self@)),
    {
        popcnt_words(self)
    }
}

impl Word for i32 {
    open spec fn byte_width() -> nat {
        4
    }

    open spec fn bits(self) -> nat {
        (self as u32) as nat
    }

    proof fn lemma_bits_fit(self) {
        vstd::arithmetic::power2::lemma2_to64();
        vstd::arithmetic::power2::lemma2_to64_rest();
    }

    fn byte_width_exec() -> (n: usize) {
        4
    }

    fn to_bits(&self) -> (r: u128) {
        *self as u32 as u128
    }
}

impl PopcntExt for [i64] {
    open spec fn ones_of(&self) -> nat {
        elems_ones(self@)
    }

    open spec fn bit_len(&self) -> nat {
        self@.len() * 64
    }

    fn popcnt(&self) -> (cnt: u64)
        ensures
            cnt == popcount(le_bytes_view(self@)),
    {
        popcnt_words(self)
    }
}

impl Word for i64 {
    open spec fn byte_width() -> nat {
        8
    }

    open spec fn bits(self) -> nat {
        (self as u64) as nat
    }

    proof fn lemma_bits_fit(self) {
        vstd::arithmetic::power2::lemma2_to64();
        vstd::arithmetic::power2::lemma2_to64_rest();
    }

    fn byte_width_exec() -> (n: usize) {
        8
    }

    fn to_bits(&self) -> (r: u128) {
        *self as u64 as u128
    }
}

impl PopcntExt for [i128] {
    open spec fn ones_of(&self) -> nat {
        elems_ones(self@)
    }

    open spec fn bit_len(&self) -> nat {
        self@.len() * 128
    }

    fn popcnt(&self) -> (cnt: u64)
        ensures
            cnt == popcount(le_bytes_view(self@)),
    {
        popcnt_words(self)
    }
}

impl Word for i128 {
    open spec fn byte_width() -> nat {
        16
    }

    open spec fn bits(self) -> nat {
        (self as u128) as nat
    }

    proof fn lemma_bits_fit(self) {
        vstd::arithmetic::power2::lemma2_to64_rest();
        vstd::arithmetic::power2::lemma_pow2_adds(64, 64);
    }

    fn byte_width_exec() -> (n: usize) {
        16
    }

    fn to_bits(&self) -> (r: u128) {
        *self as u128 as u128
    }
}

impl PopcntExt for [isize] {
    open spec fn ones_of(&self) -> nat {
        elems_ones(self@)
    }

    open spec fn bit_len(&self) -> nat {
        self@.len() * (usize::BITS as nat)
    }

    fn popcnt(&self) -> (cnt: u64)
        ensures
            cnt == popcount(le_bytes_view(self@)),
    {
        proof {
            let n = self@.len();
            if usize::BITS == 32 {
                assert(n * (usize::BITS as nat) == n * 4 * 8) by (nonlinear_arith)
                    requires
                        usize::BITS == 32,
                ;
            } else {
                assert(usize::BITS == 64);
                assert(n * (usize::BITS as nat) == n * 8 * 8) by (nonlinear_arith)
                    requires
                        usize::BITS == 64,
                ;
            }
        }
        popcnt_words(self)
    }
}

impl Word for isize {
    open spec fn byte_width() -> nat {
        (usize::BITS / 8) as nat
    }

    open spec fn bits(self) -> nat {
        (self as usize) as nat
    }

    proof fn lemma_bits_fit(self) {
        vstd::arithmetic::power2::lemma2_to64();
        vstd::arithmetic::power2::lemma2_to64_rest();
    }

    fn byte_width_exec() -> (n: usize) {
        (usize::BITS / 8) as usize
    }

    fn to_bits(&self) -> (r: u128) {
        *self as usize as u128
    }
}

/// Reduction modulo `m` of a number within one modulus of zero.
proof fn lemma_mod_within(x: int, m: int)
    requires
        m > 0,
        -m <= x < m,
    ensures
        x % m == if x >= 0 { x } else { x + m },
{
    if x >= 0 {
        vstd::arithmetic::div_mod::lemma_small_mod(x as nat, m as nat);
    } else {
        vstd::arithmetic::div_mod::lemma_small_mod((x + m) as nat, m as nat);
        vstd::arithmetic::div_mod::lemma_mod_add_multiples_vanish(x, m);
    }
}

/// `2^(8 * n)` for the widths of the integer types, as literals.
proof fn lemma_type_powers()
    ensures
        pow2(8) == 0x100,
        pow2(16) == 0x1_0000,
        pow2(32) == 0x1_0000_0000,
        pow2(64) == 0x1_0000_0000_0000_0000,
        pow2(128) == 0x1_0000_0000_0000_0000_0000_0000_0000_0000,
{
    vstd::arithmetic::power2::lemma2_to64();
    vstd::arithmetic::power2::lemma2_to64_rest();
    vstd::arithmetic::power2::lemma_pow2_adds(64, 64);
}

/// Law: a `u16` element is counted over its full width, `size_of::<u16>()`
/// bytes, as its value: the value modulo `2^(8 * size_of::<u16>())`.
pub proof fn lemma_u16_element(x: u16)
    ensures
        <u16 as Word>::byte_width() == size_of::<u16>(),
        <u16 as Word>::bits(x) as int == (x as int) % (pow2(8 * size_of::<u16>()) as int),
{
    broadcast use vstd::layout::layout_of_primitives;
    lemma_type_powers();
    lemma_mod_within(x as int, pow2(8 * size_of::<u16>()) as int);
}

/// Law: a `u32` element is counted over its full width, `size_of::<u32>()`
/// bytes, as its value: the value modulo `2^(8 * size_of::<u32>())`.
pub proof fn lemma_u32_element(x: u32)
    ensures
        <u32 as Word>::byte_width() == size_of::<u32>(),
        <u32 as Word>::bits(x) as int == (x as int) % (pow2(8 * size_of::<u32>()) as int),
{
    broadcast use vstd::layout::layout_of_primitives;
    lemma_type_powers();
    lemma_mod_within(x as int, pow2(8 * size_of::<u32>()) as int);
}

/// Law: a `u64` element is counted over its full width, `size_of::<u64>()`
/// bytes, as its value: the value modulo `2^(8 * size_of::<u64>())`.
pub proof fn lemma_u64_element(x: u64)
    ensures
        <u64 as Word>::byte_width() == size_of::<u64>(),
        <u64 as Word>::bits(x) as int == (x as int) % (pow2(8 * size_of::<u64>()) as int),
{
    broadcast use vstd::layout::layout_of_primitives;
    lemma_type_powers();
    lemma_mod_within(x as int, pow2(8 * size_of::<u64>()) as int);
}

/// Law: a `u128` element is counted over its full width, `size_of::<u128>()`
/// bytes, as its value: the value modulo `2^(8 * size_of::<u128>())`.
pub proof fn lemma_u128_element(x: u128)
    ensures
        <u128 as Word>::byte_width() == size_of::<u128>(),
        <u128 as Word>::bits(x) as int == (x as int) % (pow2(8 * size_of::<u128>()) as int),
{
    broadcast use vstd::layout::layout_of_primitives;
    lemma_type_powers();
    lemma_mod_within(x as int, pow2(8 * size_of::<u128>()) as int);
}

/// Law: a `usize` element is counted over its full width, `size_of::<usize>()`
/// bytes, as its value: the value modulo `2^(8 * size_of::<usize>())`.
pub proof fn lemma_usize_element(x: usize)
    ensures
        <usize as Word>::byte_width() == size_of::<usize>(),
        <usize as Word>::bits(x) as int == (x as int) % (pow2(8 * size_of::<usize>()) as int),
{
    broadcast use vstd::layout::layout_of_primitives;
    lemma_type_powers();
    assert(usize::BITS == 32 || usize::BITS == 64);
    if usize::BITS == 32 {
        assert(x < 0x1_0000_0000);
    }
    lemma_mod_within(x as int, pow2(8 * size_of::<usize>()) as int);
}

/// Law: a `i8` element is counted over its full width, `size_of::<i8>()`
/// bytes, as its two's-complement bit pattern: the value modulo `2^(8 * size_of::<i8>())`.
pub proof fn lemma_i8_element(x: i8)
    ensures
        <i8 as Word>::byte_width() == size_of::<i8>(),
        <i8 as Word>::bits(x) as int == (x as int) % (pow2(8 * size_of::<i8>()) as int),
{
    broadcast use vstd::layout::layout_of_primitives;
    lemma_type_powers();
    assert((x as u8) as int == if x >= 0 { x as int } else { x as int + 0x100 })
        by (bit_vector);
    lemma_mod_within(x as int, pow2(8 * size_of::<i8>()) as int);
}

/// Law: a `i16` element is counted over its full width, `size_of::<i16>()`
/// bytes, as its two's-complement bit pattern: the value modulo `2^(8 * size_of::<i16>())`.
pub proof fn lemma_i16_element(x: i16)
    ensures
        <i16 as Word>::byte_width() == size_of::<i16>(),
        <i16 as Word>::bits(x) as int == (x as int) % (pow2(8 * size_of::<i16>()) as int),
{
    broadcast use vstd::layout::layout_of_primitives;
    lemma_type_powers();
    assert((x as u16) as int == if x >= 0 { x as int } else { x as int + 0x1_0000 })
        by (bit_vector);
    lemma_mod_within(x as int, pow2(8 * size_of::<i16>()) as int);
}

/// Law: a `i32` element is counted over its full width, `size_of::<i32>()`
/// bytes, as its two's-complement bit pattern: the value modulo `2^(8 * size_of::<i32>())`.
pub proof fn lemma_i32_element(x: i32)
    ensures
        <i32 as Word>::byte_width() == size_of::<i32>(),
        <i32 as Word>::bits(x) as int == (x as int) % (pow2(8 * size_of::<i32>()) as int),
{
    broadcast use vstd::layout::layout_of_primitives;
    lemma_type_powers();
    assert((x as u32) as int == if x >= 0 { x as int } else { x as int + 0x1_0000_0000 })
        by (bit_vector);
    lemma_mod_within(x as int, pow2(8 * size_of::<i32>()) as int);
}

/// Law: a `i64` element is counted over its full width, `size_of::<i64>()`
/// bytes, as its two's-complement bit pattern: the value modulo `2^(8 * size_of::<i64>())`.
pub proof fn lemma_i64_element(x: i64)
    ensures
        <i64 as Word>::byte_width() == size_of::<i64>(),
        <i64 as Word>::bits(x) as int == (x as int) % (pow2(8 * size_of::<i64>()) as int),
{
    broadcast use vstd::layout::layout_of_primitives;
    lemma_type_powers();
    assert((x as u64) as int == if x >= 0 { x as int } else { x as int + 0x1_0000_0000_0000_0000 })
        by (bit_vector);
    lemma_mod_within(x as int, pow2(8 * size_of::<i64>()) as int);
}

/// Law: a `i128` element is counted over its full width, `size_of::<i128>()`
/// bytes, as its two's-complement bit pattern: the value modulo `2^(8 * size_of::<i128>())`.
pub proof fn lemma_i128_element(x: i128)
    ensures
        <i128 as Word>::byte_width() == size_of::<i128>(),
        <i128 as Word>::bits(x) as int == (x as int) % (pow2(8 * size_of::<i128>()) as int),
{
    broadcast use vstd::layout::layout_of_primitives;
    lemma_type_powers();
    assert((x as u128) as int == if x >= 0 { x as int } else { x as int + 0x1_0000_0000_0000_0000_0000_0000_0000_0000 })
        by (bit_vector);
    lemma_mod_within(x as int, pow2(8 * size_of::<i128>()) as int);
}

/// Law: a `isize` element is counted over its full width, `size_of::<isize>()`
/// bytes, as its two's-complement bit pattern: the value modulo `2^(8 * size_of::<isize>())`.
pub proof fn lemma_isize_element(x: isize)
    ensures
        <isize as Word>::byte_width() == size_of::<isize>(),
        <isize as Word>::bits(x) as int == (x as int) % (pow2(8 * size_of::<isize>()) as int),
{
    broadcast use vstd::layout::layout_of_primitives;
    lemma_type_powers();
    assert(usize::BITS == 32 || usize::BITS == 64);
    if usize::BITS == 32 {
        assert((x as usize) as int == if x >= 0 { x as int } else { x as int + 0x1_0000_0000 })
            by (bit_vector)
            requires
                usize::BITS == 32,
        ;
    } else {
        assert((x as usize) as int == if x >= 0 { x as int } else {
            x as int + 0x1_0000_0000_0000_0000
        }) by (bit_vector)
            requires
                usize::BITS == 64,
        ;
    }
    lemma_mod_within(x as int, pow2(8 * size_of::<isize>()) as int);
}

} // verus!
