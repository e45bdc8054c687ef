use simd_popcnt::avx2::{add_epi64, csa256, load256, popcnt256, popcnt_avx2, sad_epu8, slli_epi64};
use simd_popcnt::avx512::{maskz_loadu_epi8, popcnt_avx512, popcnt_epi64, reduce_add_epi64};
use simd_popcnt::dispatch::{
    hwcaps_has, popcnt_aarch64, popcnt_scalar_static, popcnt_x86, popcnt_x86_path,
    popcnt_x86_runtime, x86_runtime_path, ArmPath, X86Features, X86Path,
};
use simd_popcnt::ext::le_byte_view;
use simd_popcnt::neon::{popcnt_neon, vaddq_u8, vcntq_u8, vld4q_u8, vpadalq};
use simd_popcnt::scalar::{popcnt_scalar, popcnt_scalar_hw, tail_u64};
use simd_popcnt::sve::{
    popcnt_arm_sve, svaddv_u64, svld1_u8, svld1_u8_all, svptest_any, svwhilelt_b8,
};
use simd_popcnt::{popcnt, PopcntExt};

fn reference(bytes: &[u8]) -> u64 {
    bytes.iter().map(|b| b.count_ones() as u64).sum()
}

fn pseudo_random(len: usize, seed: u64) -> Vec<u8> {
    let mut state = seed;
    let mut v = vec![0u8; len];
    for b in v.iter_mut() {
        state ^= state << 13;
        state ^= state >> 7;
        state ^= state << 17;
        *b = state as u8;
    }
    v
}

const NONE: X86Features = X86Features {
    popcnt: false,
    avx2: false,
    avx512f: false,
    avx512bw: false,
    avx512vpopcntdq: false,
};

const ALL: X86Features = X86Features {
    popcnt: true,
    avx2: true,
    avx512f: true,
    avx512bw: true,
    avx512vpopcntdq: true,
};

#[test]
fn readme_examples() {
    assert_eq!(popcnt(&[0xFF, 0x0F]), 12);
    let data: &[u64] = &[1, 2, 3];
    assert_eq!(data.popcnt(), 4);
    assert_eq!(vec![1u32, 2, 3, 4].popcnt(), 5);
    assert_eq!("hello".as_bytes().popcnt(), 21);
    let bytes = [0xFFu8; 16];
    assert_eq!(popcnt(&bytes), 128);
    let words: &[u64] = &[u64::MAX, 0x0F0F_0F0F_0F0F_0F0F];
    assert_eq!(words.popcnt(), 64 + 32);
    assert_eq!(vec![1u32, 2, 3].popcnt(), 4);
}

#[test]
fn tail_word_is_zero_padded_native_order() {
    let w = tail_u64(&[0x01, 0x02, 0x80]);
    assert!(w == 0x80_0201 || w == 0x0102_8000_0000_0000);
    assert_eq!(w.count_ones(), 3);
    assert_eq!(tail_u64(&[]), 0);
    let full = tail_u64(&[0xFF; 8]);
    assert_eq!(full, u64::MAX);
}

#[test]
fn scalar_paths_agree_with_reference() {
    let bytes = pseudo_random(1000, 7);
    for len in [0usize, 1, 7, 8, 9, 15, 16, 17, 999, 1000] {
        let s = &bytes[..len];
        assert_eq!(popcnt_scalar(s), reference(s));
        assert_eq!(popcnt_scalar_hw(s), reference(s));
    }
}

#[test]
fn carry_save_adder_bits() {
    let mut a = [0u8; 32];
    let mut b = [0u8; 32];
    let mut c = [0u8; 32];
    for k in 0..32 {
        a[k] = 0xF0;
        b[k] = 0xCC;
        c[k] = 0xAA;
    }
    let (h, l) = csa256(a, b, c);
    // Bit by bit: carry = majority, sum = parity.
    assert!(h.iter().all(|&x| x == 0xE8));
    assert!(l.iter().all(|&x| x == 0x96));
    let weighted: u64 = 2 * reference(&h) + reference(&l);
    assert_eq!(weighted, reference(&a) + reference(&b) + reference(&c));
}

#[test]
fn vector_lane_counts() {
    let bytes = pseudo_random(32, 11);
    let v = load256(&bytes, 0);
    assert_eq!(&v[..], &bytes[..]);
    let r = popcnt256(v);
    for j in 0..4 {
        assert_eq!(r[j], reference(&bytes[8 * j..8 * j + 8]));
    }
    let mut a = [0u8; 32];
    let mut b = [0u8; 32];
    a[0] = 9;
    b[0] = 4;
    a[9] = 1;
    b[9] = 7;
    assert_eq!(sad_epu8(a, b), [5, 6, 0, 0]);
    assert_eq!(add_epi64([1, 2, 3, 4], [10, 20, 30, 40]), [11, 22, 33, 44]);
    assert_eq!(slli_epi64([1, 2, 3, 4], 4), [16, 32, 48, 64]);
}

#[test]
fn avx2_harley_seal_sizes() {
    let bytes = pseudo_random(4096 + 512, 3);
    for vectors in [0usize, 1, 15, 16, 17, 31, 32, 33, 100, 144] {
        let s = &bytes[..32 * vectors];
        assert_eq!(popcnt_avx2(s), reference(s), "vectors={vectors}");
    }
    let ones = vec![0xFFu8; 512 * 3 + 64];
    assert_eq!(popcnt_avx2(&ones), 8 * ones.len() as u64);
}

#[test]
fn avx512_sizes_and_masked_tail() {
    let bytes = pseudo_random(2000, 5);
    for len in [0usize, 1, 39, 40, 63, 64, 65, 255, 256, 257, 319, 320, 1000, 2000] {
        let s = &bytes[..len];
        assert_eq!(popcnt_avx512(s), reference(s), "len={len}");
    }
    let src = [0xFFu8; 5];
    let v = maskz_loadu_epi8(u64::MAX >> (64 - 5), &src);
    assert_eq!(reference(&v), 40);
    assert!(v[5..].iter().all(|&x| x == 0));
    let mut block = [0u8; 64];
    block[0] = 0xFF;
    block[63] = 0x01;
    let lanes = popcnt_epi64(block);
    assert_eq!(lanes, [8, 0, 0, 0, 0, 0, 0, 1]);
    assert_eq!(reduce_add_epi64(lanes), 9);
}

#[test]
fn neon_sizes_and_lane_ops() {
    let bytes = pseudo_random(64 * 70 + 13, 9);
    for len in [0usize, 1, 63, 64, 65, 64 * 31, 64 * 31 + 1, 64 * 32, 64 * 62 + 5, 64 * 70 + 13] {
        let s = &bytes[..len];
        assert_eq!(popcnt_neon(s), reference(s), "len={len}");
    }
    let ones = vec![0xFFu8; 64 * 40];
    assert_eq!(popcnt_neon(&ones), 8 * ones.len() as u64);
    let block: Vec<u8> = (0u8..64).collect();
    let (v0, v1, v2, v3) = vld4q_u8(&block, 0);
    assert_eq!(v0[1], 4);
    assert_eq!(v1[1], 5);
    assert_eq!(v2[15], 62);
    assert_eq!(v3[15], 63);
    let c = vcntq_u8([0xFF; 16]);
    assert_eq!(c, [8; 16]);
    assert_eq!(vaddq_u8([1; 16], [2; 16]), [3; 16]);
    let mut t = [0u8; 16];
    t[0] = 200;
    t[15] = 100;
    assert_eq!(vpadalq([1, 2], t), [201, 102]);
}

#[test]
fn sve_vector_lengths() {
    let bytes = pseudo_random(3000, 13);
    for vl in [16usize, 32, 48, 64, 128, 256] {
        for len in [0usize, 1, 15, 16, 17, vl * 4 - 1, vl * 4, vl * 4 + 1, 1000, 3000] {
            let s = &bytes[..len];
            assert_eq!(popcnt_arm_sve(s, vl), reference(s), "vl={vl} len={len}");
        }
    }
    let pg = svwhilelt_b8(5, 8, 16);
    assert_eq!(pg.iter().filter(|&&b| b).count(), 3);
    assert!(svptest_any(&pg));
    assert!(!svptest_any(&svwhilelt_b8(8, 8, 16)));
    let v = svld1_u8(&pg, &[1, 2, 3, 4, 5, 6, 7, 8], 5);
    assert_eq!(&v[..3], &[6, 7, 8]);
    assert!(v[3..].iter().all(|&x| x == 0));
    assert_eq!(svld1_u8_all(&[4, 5, 6, 7], 1, 2), vec![5, 6]);
    assert_eq!(svaddv_u64(&vec![1, 2, 3]), 6);
}

#[test]
fn x86_dispatch_thresholds() {
    assert_eq!(x86_runtime_path(39, ALL), X86Path::Scalar(true));
    assert_eq!(x86_runtime_path(40, ALL), X86Path::Avx512);
    let avx2_only = X86Features { avx2: true, popcnt: true, ..NONE };
    assert_eq!(x86_runtime_path(511, avx2_only), X86Path::Scalar(true));
    assert_eq!(x86_runtime_path(512, avx2_only), X86Path::Avx2ThenScalar(true));
    assert_eq!(x86_runtime_path(100000, NONE), X86Path::Scalar(false));
    let no_vpopcnt = X86Features { avx512vpopcntdq: false, ..ALL };
    assert_eq!(x86_runtime_path(4096, no_vpopcnt), X86Path::Avx2ThenScalar(true));
}

#[test]
fn every_dispatch_choice_gives_the_same_count() {
    let bytes = pseudo_random(5000, 17);
    let feature_sets = [
        NONE,
        ALL,
        X86Features { popcnt: true, ..NONE },
        X86Features { avx2: true, ..NONE },
        X86Features { avx2: true, popcnt: true, ..NONE },
        X86Features { avx512f: true, avx512bw: true, avx512vpopcntdq: true, ..NONE },
    ];
    for len in [0usize, 1, 39, 40, 511, 512, 513, 1000, 5000] {
        let s = &bytes[..len];
        let expected = reference(s);
        assert_eq!(popcnt(s), expected);
        assert_eq!(popcnt_scalar(s), expected);
        assert_eq!(popcnt_scalar_hw(s), expected);
        for &compiled in &feature_sets {
            assert_eq!(popcnt_scalar_static(s, compiled), expected);
            for &detected in &feature_sets {
                assert_eq!(popcnt_x86(s, compiled, detected).0, expected);
            }
            let (cnt, path) = popcnt_x86_runtime(s, compiled);
            assert_eq!(cnt, expected);
            assert_eq!(path, x86_runtime_path(len, compiled));
        }
        for path in [
            X86Path::Avx512,
            X86Path::Avx2ThenScalar(false),
            X86Path::Avx2ThenScalar(true),
            X86Path::Scalar(false),
            X86Path::Scalar(true),
        ] {
            assert_eq!(popcnt_x86_path(s, path), expected);
        }
        assert_eq!(popcnt_aarch64(s, None), (expected, ArmPath::Neon));
        assert_eq!(popcnt_aarch64(s, Some(32)), (expected, ArmPath::Sve(32)));
    }
}

const FEATURE_SETS: [X86Features; 5] = [
    NONE,
    ALL,
    X86Features { popcnt: true, avx2: true, avx512f: false, avx512bw: false, avx512vpopcntdq: false },
    X86Features { popcnt: false, avx2: true, avx512f: false, avx512bw: false, avx512vpopcntdq: false },
    X86Features { popcnt: true, avx2: false, avx512f: true, avx512bw: true, avx512vpopcntdq: true },
];

/// Every counting path of both architectures on the sizes of `all_ones`.
#[test]
fn all_ones_through_dispatch() {
    for &size in &[
        0, 1, 7, 8, 31, 32, 39, 40, 63, 64, 255, 256, 511, 512, 4095, 4096, 65537,
    ] {
        let bytes = vec![0xFFu8; size];
        let expected = size as u64 * 8;
        for &compiled in &FEATURE_SETS {
            for &detected in &FEATURE_SETS {
                assert_eq!(popcnt_x86(&bytes, compiled, detected).0, expected, "size={size}");
            }
        }
        assert_eq!(popcnt_aarch64(&bytes, None).0, expected, "size={size}");
        for vl in [16usize, 64, 256] {
            assert_eq!(popcnt_aarch64(&bytes, Some(vl)).0, expected, "size={size} vl={vl}");
        }
    }
}

/// The pseudo-random sweep of `pseudorandom_all_sizes` through every
/// counting path of both architectures.
#[test]
fn pseudorandom_sizes_through_dispatch() {
    let mut state: u64 = 0x9E37_79B9_7F4A_7C15;
    let mut next = || {
        state ^= state << 13;
        state ^= state >> 7;
        state ^= state << 17;
        state
    };
    const MAX_SIZE: usize = 4695;
    const MAX_OFF: usize = 7;
    let mut bytes = vec![0u8; MAX_SIZE + MAX_OFF + 1];
    for b in bytes.iter_mut() {
        *b = (next() & 0xFF) as u8;
    }
    let sizes =
        (0usize..=600).chain([1023, 1024, 1025, 2048, 4095, 4096, 4097, 4608, MAX_SIZE]);
    for size in sizes {
        for &off in &[0usize, 1, 3, MAX_OFF] {
            let slice = &bytes[off..off + size];
            let expected = reference(slice);
            for &detected in &FEATURE_SETS {
                assert_eq!(popcnt_x86(slice, NONE, detected).0, expected, "size={size} off={off}");
            }
            assert_eq!(popcnt_x86(slice, ALL, NONE).0, expected, "size={size} off={off}");
            assert_eq!(popcnt_aarch64(slice, None).0, expected, "size={size} off={off}");
            assert_eq!(popcnt_aarch64(slice, Some(64)).0, expected, "size={size} off={off}");
        }
    }
}

#[test]
fn lane_adds_wrap_like_the_instructions() {
    assert_eq!(add_epi64([u64::MAX, 1, 2, 3], [2, 1, 1, 1]), [1, 2, 3, 4]);
    assert_eq!(slli_epi64([u64::MAX, 1, 2, 3], 1), [u64::MAX - 1, 2, 4, 6]);
    assert_eq!(slli_epi64([1, 2, 3, 4], 64), [0, 0, 0, 0]);
    let t = [1u8; 16];
    assert_eq!(vpadalq([u64::MAX, 5], t), [7, 13]);
    let mut a = [0u64; 8];
    a[7] = u64::MAX;
    let mut b = [0u64; 8];
    b[7] = 3;
    assert_eq!(simd_popcnt::avx512::add8_epi64(a, b)[7], 2);
}

#[test]
fn hardware_capability_bit() {
    assert!(hwcaps_has(1 << 22 | 1, 1 << 22));
    assert!(!hwcaps_has(1 << 21, 1 << 22));
}

#[test]
fn little_endian_byte_view() {
    assert_eq!(le_byte_view(&[0x0102u16, 0xA0B0]), vec![0x02, 0x01, 0xB0, 0xA0]);
    assert_eq!(le_byte_view(&[-1i8, 2]), vec![0xFF, 0x02]);
    assert_eq!(le_byte_view(&[1u128]).len(), 16);
}

#[test]
fn count_of_concatenation_is_sum_of_counts() {
    let a = pseudo_random(700, 21);
    let b = pseudo_random(333, 22);
    let mut ab = a.clone();
    ab.extend_from_slice(&b);
    assert_eq!(popcnt(&ab), popcnt(&a) + popcnt(&b));
}

#[test]
fn count_does_not_depend_on_byte_order() {
    let a = pseudo_random(257, 23);
    let mut r = a.clone();
    r.reverse();
    assert_eq!(popcnt(&r), popcnt(&a));
    let words: Vec<u32> = vec![0x1234_5678, 0xFFFF_0000, 7];
    let mut le = Vec::new();
    let mut be = Vec::new();
    for w in &words {
        le.extend_from_slice(&w.to_le_bytes());
        be.extend_from_slice(&w.to_be_bytes());
    }
    assert_eq!(words.popcnt(), popcnt(&le));
    assert_eq!(words.popcnt(), popcnt(&be));
}

#[test]
fn ext_trait_every_type() {
    assert_eq!([0xFFu8, 1].popcnt(), 9);
    assert_eq!([0xFFFFu16, 1].popcnt(), 17);
    assert_eq!([u32::MAX, 1].popcnt(), 33);
    assert_eq!([u64::MAX, 1].popcnt(), 65);
    assert_eq!([u128::MAX, 1].popcnt(), 129);
    assert_eq!([usize::MAX, 1].popcnt(), usize::BITS as u64 + 1);
    assert_eq!([-1i8, 1].popcnt(), 9);
    assert_eq!([-1i16, i16::MIN].popcnt(), 17);
    assert_eq!([-1i32, 2].popcnt(), 33);
    assert_eq!([-1i64, i64::MIN].popcnt(), 65);
    assert_eq!([-1i128, 3].popcnt(), 130);
    assert_eq!([-1isize, 0].popcnt(), usize::BITS as u64);
    let empty: &[u16] = &[];
    assert_eq!(empty.popcnt(), 0);
}
