//! Choosing the counting algorithm from the length of the input and the
//! instruction sets the CPU offers. Which sets are enabled at compile time
//! and which the running CPU reports are inputs here; every choice gives
//! the same count.
use crate::avx2::popcnt_avx2;
use crate::avx512::popcnt_avx512;
use crate::neon::popcnt_neon;
use crate::scalar::{popcnt_scalar, popcnt_scalar_hw};
use crate::spec::{lemma_popcount_bound, lemma_popcount_concat, popcount};
use crate::sve::popcnt_arm_sve;
use vstd::prelude::*;

verus! {

/// The x86 instruction sets the dispatch looks at.
#[derive(Clone, Copy, Debug)]
pub struct X86Features {
    pub popcnt: bool,
    pub avx2: bool,
    pub avx512f: bool,
    pub avx512bw: bool,
    pub avx512vpopcntdq: bool,
}

/// How an input is counted on x86.
#[derive(Clone, Copy, Debug, PartialEq, Eq, Structural)]
pub enum X86Path {
    /// The whole input with AVX512-VPOPCNTDQ.
    Avx512,
    /// The longest prefix of whole 32-byte vectors with AVX2, the rest with
    /// the scalar loop (`true`: with the POPCNT instruction).
    Avx2ThenScalar(bool),
    /// The whole input with the scalar loop (`true`: with the POPCNT
    /// instruction).
    Scalar(bool),
}

/// The path chosen at run time for `len` bytes on a CPU with `f`: AVX512 is
/// not worth its setup cost below 40 bytes, AVX2 only wins from 512 bytes.
pub open spec fn x86_runtime_path_spec(len: nat, f: X86Features) -> X86Path {
    if len >= 40 && f.avx512f && f.avx512bw && f.avx512vpopcntdq {
        X86Path::Avx512
    } else if len >= 512 && f.avx2 {
        X86Path::Avx2ThenScalar(f.popcnt)
    } else {
        X86Path::Scalar(f.popcnt)
    }
}

/// The run-time choice of the x86 counting path. A path uses an instruction
/// set only where the CPU reports it.
pub fn x86_runtime_path(len: usize, f: X86Features) -> (p: X86Path)
    ensures
        p == x86_runtime_path_spec(len as nat, f),
        (p == X86Path::Avx512) <==> (len >= 40 && f.avx512f && f.avx512bw && f.avx512vpopcntdq),
        (p is Avx2ThenScalar) <==> (len >= 512 && f.avx2 && !(f.avx512f && f.avx512bw
            && f.avx512vpopcntdq)),
        p matches X86Path::Avx2ThenScalar(hw) ==> hw == f.popcnt,
        p matches X86Path::Scalar(hw) ==> hw == f.popcnt,
{
    if len >= 40 && f.avx512f && f.avx512bw && f.avx512vpopcntdq {
        X86Path::Avx512
    } else if len >= 512 && f.avx2 {
        X86Path::Avx2ThenScalar(f.popcnt)
    } else {
        X86Path::Scalar(f.popcnt)
    }
}

/// The path taken when the instruction sets `compiled` are enabled for the
/// whole build: with AVX512 or AVX2 enabled the choice is made on the length
/// alone, otherwise at run time on the features `detected`.
pub open spec fn x86_path_spec(len: nat, compiled: X86Features, detected: X86Features) -> X86Path {
    if compiled.avx512vpopcntdq {
        if len >= 40 {
            X86Path::Avx512
        } else {
            X86Path::Scalar(compiled.popcnt)
        }
    } else if compiled.avx2 {
        if len >= 512 {
            X86Path::Avx2ThenScalar(compiled.popcnt)
        } else {
            X86Path::Scalar(compiled.popcnt)
        }
    } else {
        x86_runtime_path_spec(len, detected)
    }
}

/// Law of the run-time choice: AVX512-VPOPCNTDQ is used whenever the CPU
/// reports all three AVX512 features and the input has at least 40 bytes;
/// AVX2 Harley-Seal only from 512 bytes on a CPU with AVX2 but without them;
/// the scalar loop otherwise, with the POPCNT instruction exactly when the
/// CPU reports it.
pub proof fn lemma_x86_runtime_path(len: nat, f: X86Features)
    ensures
        len >= 40 && f.avx512f && f.avx512bw && f.avx512vpopcntdq ==> x86_runtime_path_spec(len, f)
            == X86Path::Avx512,
        x86_runtime_path_spec(len, f) == X86Path::Avx512 ==> len >= 40 && f.avx512f && f.avx512bw
            && f.avx512vpopcntdq,
        (x86_runtime_path_spec(len, f) is Avx2ThenScalar) <==> (len >= 512 && f.avx2 && !(f.avx512f
            && f.avx512bw && f.avx512vpopcntdq)),
        x86_runtime_path_spec(len, f) matches X86Path::Avx2ThenScalar(hw) ==> hw == f.popcnt,
        x86_runtime_path_spec(len, f) matches X86Path::Scalar(hw) ==> hw == f.popcnt,
{
}

/// Law of the compile-time choice: with AVX512-VPOPCNTDQ enabled for the
/// build, inputs of at least 40 bytes use it and smaller ones the scalar
/// loop, whatever else is enabled; AVX2 decides only when AVX512-VPOPCNTDQ is
/// not enabled; with neither, the run-time choice on the detected features.
pub proof fn lemma_x86_path(len: nat, compiled: X86Features, detected: X86Features)
    ensures
        compiled.avx512vpopcntdq && len >= 40 ==> x86_path_spec(len, compiled, detected)
            == X86Path::Avx512,
        compiled.avx512vpopcntdq && len < 40 ==> x86_path_spec(len, compiled, detected)
            == X86Path::Scalar(compiled.popcnt),
        !compiled.avx512vpopcntdq && compiled.avx2 && len >= 512 ==> x86_path_spec(
            len,
            compiled,
            detected,
        ) == X86Path::Avx2ThenScalar(compiled.popcnt),
        !compiled.avx512vpopcntdq && compiled.avx2 && len < 512 ==> x86_path_spec(
            len,
            compiled,
            detected,
        ) == X86Path::Scalar(compiled.popcnt),
        !compiled.avx512vpopcntdq && !compiled.avx2 ==> x86_path_spec(len, compiled, detected)
            == x86_runtime_path_spec(len, detected),
{
}

/// Scalar count with or without the POPCNT instruction.
fn scalar_with(bytes: &[u8], hw: bool) -> (cnt: u64)
    requires
        bytes@.len() * 8 <= u64::MAX,
    ensures
        cnt == popcount(bytes@),
{
    if hw {
        popcnt_scalar_hw(bytes)
    } else {
        popcnt_scalar(bytes)
    }
}

/// AVX2 over the longest prefix of whole 32-byte vectors, then the scalar
/// loop over the remaining bytes.
fn avx2_then_scalar(bytes: &[u8], hw: bool) -> (cnt: u64)
    requires
        bytes@.len() * 8 <= u64::MAX,
    ensures
        cnt == popcount(bytes@),
{
    let len = bytes.len();
    let n = len / 32 * 32;
    let head = &bytes[0..n];
    let rest = &bytes[n..len];
    proof {
        lemma_popcount_concat(head@, rest@);
        assert(head@ + rest@ =~= bytes@);
        lemma_popcount_bound(bytes@);
    }
    let a = popcnt_avx2(head);
    let b = scalar_with(rest, hw);
    a + b
}

/// Counts along the given x86 path. Every path gives the same count.
pub fn popcnt_x86_path(bytes: &[u8], path: X86Path) -> (cnt: u64)
    requires
        bytes@.len() * 8 <= u64::MAX,
    ensures
        cnt == popcount(bytes@),
{
    match path {
        X86Path::Avx512 => popcnt_avx512(bytes),
        X86Path::Avx2ThenScalar(hw) => avx2_then_scalar(bytes, hw),
        X86Path::Scalar(hw) => scalar_with(bytes, hw),
    }
}

/// Run-time dispatch on the features the CPU reports: returns the count and
/// the path it was counted along, which uses only reported instruction sets.
pub fn popcnt_x86_runtime(bytes: &[u8], detected: X86Features) -> (r: (u64, X86Path))
    requires
        bytes@.len() * 8 <= u64::MAX,
    ensures
        r.0 == popcount(bytes@),
        r.1 == x86_runtime_path_spec(bytes@.len(), detected),
        (r.1 == X86Path::Avx512) <==> (bytes@.len() >= 40 && detected.avx512f && detected.avx512bw
            && detected.avx512vpopcntdq),
        (r.1 is Avx2ThenScalar) <==> (bytes@.len() >= 512 && detected.avx2 && !(detected.avx512f
            && detected.avx512bw && detected.avx512vpopcntdq)),
        r.1 matches X86Path::Avx2ThenScalar(hw) ==> hw == detected.popcnt,
        r.1 matches X86Path::Scalar(hw) ==> hw == detected.popcnt,
{
    let path = x86_runtime_path(bytes.len(), detected);
    (popcnt_x86_path(bytes, path), path)
}

/// Scalar count for the compile-time SIMD paths' small inputs and tails:
/// the POPCNT instruction when it is enabled at compile time.
pub fn popcnt_scalar_static(bytes: &[u8], compiled: X86Features) -> (cnt: u64)
    requires
        bytes@.len() * 8 <= u64::MAX,
    ensures
        cnt == popcount(bytes@),
{
    scalar_with(bytes, compiled.popcnt)
}

/// The x86 count: with AVX512 or AVX2 enabled at compile time the choice is
/// made on the length alone; otherwise it is made at run time on the
/// features the CPU reports. Returns the count and the path taken.
pub fn popcnt_x86(bytes: &[u8], compiled: X86Features, detected: X86Features) -> (r: (
    u64,
    X86Path,
))
    requires
        bytes@.len() * 8 <= u64::MAX,
    ensures
        r.0 == popcount(bytes@),
        r.1 == x86_path_spec(bytes@.len(), compiled, detected),
        compiled.avx512vpopcntdq ==> ((r.1 == X86Path::Avx512) <==> bytes@.len() >= 40),
        compiled.avx512vpopcntdq && bytes@.len() < 40 ==> r.1 == X86Path::Scalar(compiled.popcnt),
        (r.1 is Avx2ThenScalar) && (compiled.avx2 || compiled.avx512vpopcntdq)
            ==> !compiled.avx512vpopcntdq && compiled.avx2 && bytes@.len() >= 512,
        !compiled.avx512vpopcntdq && compiled.avx2 && bytes@.len() >= 512 ==> r.1
            == X86Path::Avx2ThenScalar(compiled.popcnt),
        !compiled.avx512vpopcntdq && compiled.avx2 && bytes@.len() < 512 ==> r.1 == X86Path::Scalar(
            compiled.popcnt,
        ),
        !compiled.avx512vpopcntdq && !compiled.avx2 ==> ((r.1 == X86Path::Avx512) <==> (bytes@.len()
            >= 40 && detected.avx512f && detected.avx512bw && detected.avx512vpopcntdq)),
        !compiled.avx512vpopcntdq && !compiled.avx2 ==> ((r.1 is Avx2ThenScalar) <==> (bytes@.len()
            >= 512 && detected.avx2 && !(detected.avx512f && detected.avx512bw
            && detected.avx512vpopcntdq))),
{
    if compiled.avx512vpopcntdq {
        // AVX512 is not worth its setup cost for tiny arrays.
        if bytes.len() >= 40 {
            (popcnt_avx512(bytes), X86Path::Avx512)
        } else {
            (popcnt_scalar_static(bytes, compiled), X86Path::Scalar(compiled.popcnt))
        }
    } else if compiled.avx2 {
        // AVX2 only wins for arrays of at least 512 bytes.
        if bytes.len() >= 512 {
            (avx2_then_scalar(bytes, compiled.popcnt), X86Path::Avx2ThenScalar(compiled.popcnt))
        } else {
            (popcnt_scalar_static(bytes, compiled), X86Path::Scalar(compiled.popcnt))
        }
    } else {
        popcnt_x86_runtime(bytes, detected)
    }
}

/// How an input is counted on AArch64.
#[derive(Clone, Copy, Debug, PartialEq, Eq, Structural)]
pub enum ArmPath {
    /// With NEON.
    Neon,
    /// With SVE, at the given vector length in bytes.
    Sve(usize),
}

/// Whether the hardware-capability word reported by the operating system has
/// the capability bit `bit` set.
pub fn hwcaps_has(hwcaps: u64, bit: u64) -> (b: bool)
    ensures
        b == (hwcaps & bit != 0),
{
    hwcaps & bit != 0
}

/// The AArch64 count: SVE when the CPU has it (`sve` is then its vector
/// length in bytes), NEON otherwise. Returns the count and the path taken.
pub fn popcnt_aarch64(bytes: &[u8], sve: Option<usize>) -> (r: (u64, ArmPath))
    requires
        bytes@.len() <= isize::MAX,
        bytes@.len() * 8 <= u64::MAX,
        sve matches Some(vl) ==> 16 <= vl <= 256 && vl % 16 == 0,
    ensures
        r.0 == popcount(bytes@),
        r.1 == match sve {
            Some(vl) => ArmPath::Sve(vl),
            None => ArmPath::Neon,
        },
{
    match sve {
        Some(vl) => (popcnt_arm_sve(bytes, vl), ArmPath::Sve(vl)),
        None => (popcnt_neon(bytes), ArmPath::Neon),
    }
}

} // verus!
