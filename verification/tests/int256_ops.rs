use bsnark::Int256;

#[test]
fn add_carries_across_limbs() {
    let a = Int256([u64::MAX, 0, 0, 0]);
    let b = Int256([1, 0, 0, 0]);
    let c = a.add(b);
    assert_eq!(c.0, [0, 1, 0, 0]);
}

#[test]
fn add_wraps_at_256_bits() {
    let a = Int256([u64::MAX, u64::MAX, u64::MAX, u64::MAX]);
    let b = Int256([1, 0, 0, 0]);
    let c = a.add(b);
    assert_eq!(c.0, [0, 0, 0, 0]);
}

#[test]
fn add_commutes() {
    let a = Int256([5, 6, 7, 8]);
    let b = Int256([u64::MAX, 1, 2, 3]);
    assert!(a.add(b) == b.add(a));
}

#[test]
fn sub_borrows_and_wraps() {
    let a = Int256([5, 0, 0, 0]);
    let b = Int256([7, 0, 0, 0]);
    let c = a.sub(b);
    assert_eq!(c.0, [u64::MAX - 1, u64::MAX, u64::MAX, u64::MAX]);
}

#[test]
fn sub_of_add_restores() {
    let x = Int256([0xdeadbeef, 42, u64::MAX, 7]);
    let y = Int256([u64::MAX, u64::MAX, 3, 1]);
    let s = x.add(y);
    assert!(s.sub(y) == x);
}

#[test]
fn mul_exact_square() {
    let a = Int256([0x97816a916871ca8d, 0, 0, 0]);
    let c = a.mul(a);
    assert_eq!(c.0, [0x2f5adee100bcd1a9, 0x59a9ed241c1e3cb6, 0, 0]);
}

#[test]
fn mul_truncates_to_256_bits() {
    // (2^192) * (2^128) = 2^320, which vanishes modulo 2^256.
    let a = Int256([0, 0, 0, 1]);
    let b = Int256([0, 0, 1, 0]);
    let c = a.mul(b);
    assert_eq!(c.0, [0, 0, 0, 0]);
}

#[test]
fn cmp_orders_by_value() {
    let a = Int256([0, 1, 0, 0]);
    let b = Int256([u64::MAX, 0, 0, 0]);
    assert_eq!(a.cmp(&b), 1);
    assert_eq!(b.cmp(&a), -1);
    assert_eq!(a.cmp(&a), 0);
}

#[test]
fn bit_selects_limb_and_offset() {
    let a = Int256([0b1010, 1, 0, 1 << 63]);
    assert!(!a.bit(0));
    assert!(a.bit(1));
    assert!(!a.bit(2));
    assert!(a.bit(3));
    assert!(a.bit(64));
    assert!(!a.bit(65));
    assert!(a.bit(255));
}

#[test]
fn to_u64_truncates() {
    let a = Int256([77, 5, 6, 7]);
    assert_eq!(a.to_u64(), 77);
}

#[test]
fn rand_is_some_value() {
    let a = Int256::rand();
    let zero = Int256([0, 0, 0, 0]);
    // whatever came back, arithmetic on it stays total
    let _ = a.add(zero);
}

#[test]
fn u64_round_trip() {
    let a = Int256::from(0xdead_beef_u64);
    assert_eq!(a.0, [0xdead_beef, 0, 0, 0]);
    assert_eq!(u64::from(a), 0xdead_beef);
}
