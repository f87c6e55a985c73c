#[test]
fn curve_test_new() {
    assert!(true);
}

use bsnark::{Curve, CurveGroup, Fp, Point};

fn sample_curve() -> Curve {
    Curve { edwards_a: Fp::from(1), edwards_d: Fp::from(3) }
}

fn eq_points(p: &Point, q: &Point) -> bool {
    p.isnull == q.isnull && p.x == q.x && p.y == q.y
}

#[test]
fn null_is_identity_of_addition() {
    let c = sample_curve();
    let p = Point { x: Fp::from(2), y: Fp::from(5), isnull: false };
    let n = Point::null();
    assert!(eq_points(&c.edwards_add(&p, &n), &p));
    assert!(eq_points(&c.edwards_add(&n, &p), &p));
}

#[test]
fn scalar_one_gives_base_point() {
    let c = sample_curve();
    let p = Point { x: Fp::from(2), y: Fp::from(5), isnull: false };
    let r = c.mul(&p, Fp::from(1));
    assert!(eq_points(&r, &p));
}

#[test]
fn scalar_two_matches_doubling() {
    let c = sample_curve();
    let p = Point { x: Fp::from(2), y: Fp::from(5), isnull: false };
    let doubled = c.edwards_add(&p, &p);
    let r = c.mul(&p, Fp::from(2));
    assert!(eq_points(&r, &doubled));
}

#[test]
fn scalar_zero_gives_null() {
    let c = sample_curve();
    let p = Point { x: Fp::from(2), y: Fp::from(5), isnull: false };
    let r = c.mul(&p, Fp::zero());
    assert!(r.isnull);
}
