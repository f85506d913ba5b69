use std::cmp::Ordering;
use vecno_miner::target::{u256_from_compact_target, Uint256};

#[test]
fn compact_zero_bits_is_zero() {
    assert_eq!(u256_from_compact_target(0), Uint256([0, 0, 0, 0]));
}

#[test]
fn compact_small_exponent_shifts_right() {
    // exponent 2: the mantissa 0x123456 loses its low byte
    assert_eq!(u256_from_compact_target(0x0212_3456), Uint256([0x1234, 0, 0, 0]));
    // exponent 3: no shift at all
    assert_eq!(u256_from_compact_target(0x0312_3456), Uint256([0x12_3456, 0, 0, 0]));
}

#[test]
fn compact_large_exponent_shifts_left() {
    // exponent 4: one byte to the left
    assert_eq!(u256_from_compact_target(0x0412_3456), Uint256([0x1234_5600, 0, 0, 0]));
    // the easiest target: 0x7fffff << 232
    assert_eq!(
        u256_from_compact_target(0x207f_ffff),
        Uint256([0, 0, 0, 0x7fff_ff00_0000_0000])
    );
}

#[test]
fn compact_sign_bit_gives_zero() {
    assert_eq!(u256_from_compact_target(0x0380_0000), Uint256([0, 0, 0, 0]));
    assert_eq!(u256_from_compact_target(0x1d80_0000), Uint256([0, 0, 0, 0]));
    // with exponent 1 the mantissa is shifted first and stays positive
    assert_eq!(u256_from_compact_target(0x0180_0000), Uint256([0x80, 0, 0, 0]));
}

#[test]
fn ordering_is_most_significant_word_first() {
    let a = Uint256([u64::MAX, 0, 0, 0]);
    let b = Uint256([0, 1, 0, 0]);
    assert!(a < b);
    assert!(a <= b);
    assert_eq!(a.cmp(&b), Ordering::Less);
    assert_eq!(b.cmp(&a), Ordering::Greater);
    assert_eq!(a.cmp(&a), Ordering::Equal);
    let c = Uint256([5, 0, 0, 1]);
    let d = Uint256([6, 0, 0, 1]);
    assert!(c < d);
    assert!(!(d <= c));
}

#[test]
fn shift_carries_across_words() {
    let x = Uint256::from_u64(0x8000_0000_0000_0001);
    assert_eq!(x << 1, Uint256([2, 1, 0, 0]));
    assert_eq!(x << 64, Uint256([0, 0x8000_0000_0000_0001, 0, 0]));
    assert_eq!(x << 200, Uint256([0, 0, 0, 0x100]));
    assert_eq!(x << 256, Uint256([0, 0, 0, 0]));
}

#[test]
fn add_wraps_with_carry() {
    let a = Uint256([u64::MAX, u64::MAX, 0, 0]);
    assert_eq!(a + Uint256::from_u64(1), Uint256([0, 0, 1, 0]));
    let max = Uint256([u64::MAX; 4]);
    assert_eq!(max + Uint256::from_u64(1), Uint256([0, 0, 0, 0]));
    assert_eq!(max + max, Uint256([u64::MAX - 1, u64::MAX, u64::MAX, u64::MAX]));
}

#[test]
fn bits_counts_significant_bits() {
    assert_eq!(Uint256([0, 0, 0, 0]).bits(), 0);
    assert_eq!(Uint256::from_u64(1).bits(), 1);
    assert_eq!(Uint256([0, 0x10, 0, 0]).bits(), 69);
    assert_eq!(Uint256([0, 0, 0, u64::MAX]).bits(), 256);
}

#[test]
fn le_bytes_round_trip() {
    let x = Uint256::new([0x0102_0304_0506_0708, 0, 0, 0xff]);
    let b = x.to_le_bytes();
    assert_eq!(b[0], 0x08);
    assert_eq!(b[7], 0x01);
    assert_eq!(b[24], 0xff);
    assert_eq!(Uint256::from_le_bytes(b), x);
    assert_eq!(x.as_bytes(), b);
}
