use asciibrot::quaternion::Quaternion;

fn q(x: i64, i: i64, j: i64, k: i64) -> Quaternion {
    Quaternion::new(x, i, j, k)
}

#[test]
fn add_sub_neg_are_componentwise() {
    let a = q(1, -2, 3, -4);
    let b = q(10, 20, 30, 40);
    assert_eq!(a.add(b), q(11, 18, 33, 36));
    assert_eq!(b.sub(a), q(9, 22, 27, 44));
    assert_eq!(a.neg(), q(-1, 2, -3, 4));
}

#[test]
fn zero_and_one_and_is_zero() {
    assert_eq!(Quaternion::zero(), q(0, 0, 0, 0));
    assert_eq!(Quaternion::one(), q(1, 0, 0, 0));
    assert!(Quaternion::zero().is_zero());
    assert!(!Quaternion::one().is_zero());
}

#[test]
fn hamilton_unit_products() {
    let i = q(0, 1, 0, 0);
    let j = q(0, 0, 1, 0);
    let k = q(0, 0, 0, 1);
    assert_eq!(i.mul(j), k);
    assert_eq!(j.mul(i), k.neg());
    assert_eq!(j.mul(k), i);
    assert_eq!(k.mul(i), j);
    assert_eq!(i.mul(i), q(-1, 0, 0, 0));
    assert_eq!(j.mul(j), q(-1, 0, 0, 0));
    assert_eq!(k.mul(k), q(-1, 0, 0, 0));
}

#[test]
fn one_is_multiplicative_identity() {
    let a = q(7, -3, 11, 5);
    assert_eq!(a.mul(Quaternion::one()), a);
    assert_eq!(Quaternion::one().mul(a), a);
}

#[test]
fn mul_then_div_restores_first_factor() {
    let a = q(1, 2, 3, 4);
    let b = q(5, -6, 7, -8);
    assert_eq!(a.mul(b).div(b), a);
    let c = q(-9, 0, 2, 1);
    assert_eq!(c.mul(a).div(a), c);
}

#[test]
fn div_by_scalar() {
    assert_eq!(q(10, 0, 0, 0).div(q(2, 0, 0, 0)), q(5, 0, 0, 0));
    assert_eq!(q(0, 9, 0, 0).div(q(3, 0, 0, 0)), q(0, 3, 0, 0));
}

#[test]
fn norm_sqr_sums_squares() {
    assert_eq!(q(1, 2, 3, 4).norm_sqr(), 30);
    assert_eq!(q(-1, -2, -3, -4).norm_sqr(), 30);
    assert_eq!(Quaternion::zero().norm_sqr(), 0);
}

#[test]
fn norm_is_rounded_square_root() {
    assert_eq!(q(3, 4, 0, 0).norm(), 5);
    assert_eq!(q(0, 0, 0, 2).norm(), 2);
    assert_eq!(q(1, 1, 1, 1).norm(), 2);
    assert_eq!(q(1, 2, 3, 4).norm(), 5);
    assert_eq!(Quaternion::zero().norm(), 0);
}

#[test]
fn equality_is_exact() {
    assert_eq!(q(1, 2, 3, 4), q(1, 2, 3, 4));
    assert_ne!(q(1, 2, 3, 4), q(1, 2, 3, 5));
}
