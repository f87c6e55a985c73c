use bsnark::{Fp, Int256};

const M_LIMBS: [u64; 4] =
    [0x3c208c16d87cfd47, 0x97816a916871ca8d, 0xb85045b68181585d, 0x30644e72e131a029];

#[test]
fn reduce_gives_canonical_residue() {
    let mut x = Fp(Int256(M_LIMBS));
    x.reduce();
    assert!(x == Fp::zero());
}

#[test]
fn reduce_is_idempotent() {
    let mut x = Fp(Int256([u64::MAX, u64::MAX, u64::MAX, u64::MAX]));
    x.reduce();
    let once = x;
    x.reduce();
    assert!(x == once);
}

#[test]
fn zero_one_is_zero() {
    assert!(Fp::zero().is_zero());
    assert!(!Fp::one().is_zero());
    assert_eq!(Fp::one().to_u64(), 1);
}

#[test]
fn negate_zero_is_zero() {
    let mut x = Fp::zero();
    x.negate();
    assert!(x.is_zero());
}

#[test]
fn negate_then_add_gives_zero() {
    let mut n = Fp::from(123456789);
    n.negate();
    n.add_assign(&Fp::from(123456789));
    assert!(n.is_zero());
}

#[test]
fn add_wraps_through_modulus() {
    // (modulus - 1) + 2 == 1
    let mut x = Fp(Int256([0x3c208c16d87cfd46, 0x97816a916871ca8d, 0xb85045b68181585d,
        0x30644e72e131a029]));
    x.add_assign(&Fp::from(2));
    assert!(x == Fp::one());
}

#[test]
fn sub_reflects_through_modulus() {
    // 5 - 7 == modulus - 2
    let mut x = Fp::from(5);
    x.sub_assign(&Fp::from(7));
    x.add_assign(&Fp::from(2));
    assert!(x.is_zero());
}

#[test]
fn add_then_sub_restores() {
    let a = Fp::from(100);
    let b = Fp::from(77);
    let mut c = a;
    c.add_assign(&b);
    c.sub_assign(&b);
    assert!(c == a);
}

#[test]
fn double_is_self_add() {
    let x = Fp::from(0xabcdef0123);
    let mut d = x;
    d.double();
    let mut s = x;
    s.add_assign(&x);
    assert!(d == s);
}

#[test]
fn mul_small_values() {
    let mut x = Fp::from(6);
    x.mul_assign(&Fp::from(7));
    assert!(x == Fp::from(42));
}

#[test]
fn square_matches_mul() {
    let mut a = Fp::from(0x1234567);
    let mut b = a;
    a.square();
    let c = b;
    b.mul_assign(&c);
    assert!(a == b);
}

#[test]
fn inverse_of_zero_is_none() {
    assert!(Fp::zero().inverse().is_none());
}

#[test]
fn inverse_times_value_is_one() {
    for v in [2u64, 5, 42, 0x97816a916871ca8d] {
        let q = Fp::from(v);
        let mut qi = q.inverse().unwrap();
        qi.mul_assign(&q);
        assert!(qi == Fp::one());
    }
}

#[test]
fn frobenius_is_identity() {
    let mut x = Fp::from(987654321);
    let before = x;
    x.frobenius_map(3);
    assert!(x == before);
}

#[test]
fn rand_is_reduced() {
    let x = Fp::rand();
    let m = Fp(Int256(M_LIMBS));
    assert_eq!(x.0.cmp(&m.0), -1);
}
