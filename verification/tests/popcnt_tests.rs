use simd_popcnt::{popcnt, PopcntExt};

/// Reference implementation: count bits one byte at a time.
fn reference(bytes: &[u8]) -> u64 {
    bytes.iter().map(|b| b.count_ones() as u64).sum()
}

#[test]
fn empty() {
    assert_eq!(popcnt(&[]), 0);
}

#[test]
fn all_ones() {
    for &size in &[
        0, 1, 7, 8, 31, 32, 39, 40, 63, 64, 255, 256, 511, 512, 4095, 4096, 65537,
    ] {
        let bytes = vec![0xFFu8; size];
        assert_eq!(popcnt(&bytes), size as u64 * 8, "size={size}");
    }
}

#[test]
fn all_zeros() {
    let bytes = vec![0u8; 65536];
    assert_eq!(popcnt(&bytes), 0);
}

#[test]
fn single_bits() {
    for bit in 0u64..64 {
        let val = 1u64 << bit;
        assert_eq!(popcnt(&val.to_le_bytes()), 1, "bit={bit}");
    }
}

/// `PopcntExt::popcnt` on each integer width must equal the per-element
/// `count_ones()` sum.
#[test]
fn ext_trait_widths() {
    let u8s: &[u8] = &[0xFF, 0x0F, 0x00, 0xAB, 0x01];
    assert_eq!(
        u8s.popcnt(),
        u8s.iter().map(|x| x.count_ones() as u64).sum()
    );

    let u16s: &[u16] = &[0xFFFF, 0x0F0F, 0x1234, 0];
    assert_eq!(
        u16s.popcnt(),
        u16s.iter().map(|x| x.count_ones() as u64).sum()
    );

    let u32s: &[u32] = &[u32::MAX, 0, 0x8000_0001];
    assert_eq!(
        u32s.popcnt(),
        u32s.iter().map(|x| x.count_ones() as u64).sum()
    );

    let u64s: &[u64] = &[u64::MAX, 0x0F0F_0F0F_0F0F_0F0F, 0];
    assert_eq!(
        u64s.popcnt(),
        u64s.iter().map(|x| x.count_ones() as u64).sum()
    );

    let i32s = [-1i32, 0, 1, i32::MIN];
    assert_eq!(
        i32s.popcnt(),
        i32s.iter().map(|x| x.count_ones() as u64).sum()
    );
    assert_eq!([u128::MAX, 0].popcnt(), 128);
}

/// Sweep every boundary-relevant size against the byte-wise reference using
/// a deterministic pseudo-random fill (xorshift).
#[test]
fn pseudorandom_all_sizes() {
    let mut state: u64 = 0x9E37_79B9_7F4A_7C15;
    let mut next = || {
        state ^= state << 13;
        state ^= state >> 7;
        state ^= state << 17;
        state
    };

    const MAX_SIZE: usize = 4695;
    const MAX_OFF: usize = 7;
    let mut bytes = vec![0u8; MAX_SIZE + MAX_OFF + 1];
    for b in bytes.iter_mut() {
        *b = (next() & 0xFF) as u8;
    }

    let sizes =
        (0usize..=600).chain([1023, 1024, 1025, 2048, 4095, 4096, 4097, 4608, MAX_SIZE]);
    for size in sizes {
        for &off in &[0usize, 1, 3, MAX_OFF] {
            let slice = &bytes[off..off + size];
            assert_eq!(popcnt(slice), reference(slice), "size={size} off={off}");
        }
    }
}
