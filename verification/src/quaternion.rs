//! Quaternion algebra over exact fixed-point scalars.
//!
//! Scalars are `i64` values read as multiples of `1 / SCALE`, so all
//! arithmetic is exact integer arithmetic and equality is exact bit-level
//! equality of the four components.  The mathematical model of a value is
//! [`QuatModel`], a quaternion with unbounded integer components; every
//! executable operation is specified against that model.
//!
//! Division by a quaternion is multiplication by its conjugate followed by a
//! per-component truncating division by the squared norm.  Division by the
//! zero quaternion is ruled out by precondition rather than producing any
//! value.

use vstd::arithmetic::div_mod::lemma_div_multiples_vanish;
use vstd::arithmetic::mul::{
    lemma_mul_is_associative, lemma_mul_is_commutative, lemma_mul_is_distributive_add_other_way,
    lemma_mul_unary_negation,
};
use vstd::prelude::*;

verus! {

/// Fixed-point unit: an `i64` component `c` stands for the real `c / SCALE`.
pub const SCALE: i64 = 0x1_0000;

/// Largest component magnitude accepted by the product-forming operations:
/// four products of such components still sum well inside `i64`.
pub const COMPONENT_BOUND: i64 = 0x4000_0000;

/// Largest component magnitude accepted by the purely additive operations.
pub const ADDITIVE_BOUND: i64 = 0x2000_0000_0000_0000;

/// Mathematical model of a quaternion: four unbounded integer components.
pub struct QuatModel {
    pub x: int,
    pub i: int,
    pub j: int,
    pub k: int,
}

/// Builds a model value from its four components.
pub open spec fn qm(x: int, i: int, j: int, k: int) -> QuatModel {
    QuatModel { x, i, j, k }
}

pub open spec fn qm_zero() -> QuatModel {
    qm(0, 0, 0, 0)
}

pub open spec fn qm_one() -> QuatModel {
    qm(1, 0, 0, 0)
}

/// All four components lie within `[-bound, bound]`.
pub open spec fn qm_bounded(a: QuatModel, bound: int) -> bool {
    &&& -bound <= a.x <= bound
    &&& -bound <= a.i <= bound
    &&& -bound <= a.j <= bound
    &&& -bound <= a.k <= bound
}

pub open spec fn qm_add(a: QuatModel, b: QuatModel) -> QuatModel {
    qm(a.x + b.x, a.i + b.i, a.j + b.j, a.k + b.k)
}

pub open spec fn qm_neg(a: QuatModel) -> QuatModel {
    qm(-a.x, -a.i, -a.j, -a.k)
}

pub open spec fn qm_sub(a: QuatModel, b: QuatModel) -> QuatModel {
    qm_add(a, qm_neg(b))
}

/// The noncommutative Hamilton product.
pub open spec fn qm_mul(a: QuatModel, b: QuatModel) -> QuatModel {
    qm(
        a.x * b.x - a.i * b.i - a.j * b.j - a.k * b.k,
        a.x * b.i + a.i * b.x + a.j * b.k - a.k * b.j,
        a.x * b.j - a.i * b.k + a.j * b.x + a.k * b.i,
        a.x * b.k + a.i * b.j - a.j * b.i + a.k * b.x,
    )
}

/// The conjugate negates the three imaginary components.
pub open spec fn qm_conj(a: QuatModel) -> QuatModel {
    qm(a.x, -a.i, -a.j, -a.k)
}

/// Squared norm: the sum of the four squared components.
pub open spec fn qm_norm_sqr(a: QuatModel) -> int {
    a.x * a.x + a.i * a.i + a.j * a.j + a.k * a.k
}

/// Every component multiplied by the scalar `s`.
pub open spec fn qm_scale(s: int, a: QuatModel) -> QuatModel {
    qm(s * a.x, s * a.i, s * a.j, s * a.k)
}

/// Truncating division (quotient rounded toward zero), as the executable
/// division on `i64` behaves for a positive divisor.
pub open spec fn tdiv(a: int, b: int) -> int
    recommends
        b >= 1,
{
    if a >= 0 {
        a / b
    } else {
        -((-a) / b)
    }
}

/// Division by `b`: multiplication by the conjugate of `b`, then a
/// per-component truncating division by the squared norm of `b`.
pub open spec fn qm_div(a: QuatModel, b: QuatModel) -> QuatModel {
    let num = qm_mul(a, qm_conj(b));
    let d = qm_norm_sqr(b);
    qm(tdiv(num.x, d), tdiv(num.i, d), tdiv(num.j, d), tdiv(num.k, d))
}

/// A product of two factors bounded by `m` is bounded by `m * m`.
pub proof fn lemma_product_bound(a: int, b: int, m: int)
    by (nonlinear_arith)
    requires
        0 <= m,
        -m <= a <= m,
        -m <= b <= m,
    ensures
        -(m * m) <= a * b <= m * m,
{
}

/// Each component of a Hamilton product of `m`-bounded factors is a sum of
/// four products, so it stays within `4 * m * m`.
pub proof fn lemma_mul_bounded(a: QuatModel, b: QuatModel, m: int)
    requires
        0 <= m,
        qm_bounded(a, m),
        qm_bounded(b, m),
    ensures
        qm_bounded(qm_mul(a, b), 4 * (m * m)),
{
    lemma_product_bound(a.x, b.x, m);
    lemma_product_bound(a.x, b.i, m);
    lemma_product_bound(a.x, b.j, m);
    lemma_product_bound(a.x, b.k, m);
    lemma_product_bound(a.i, b.x, m);
    lemma_product_bound(a.i, b.i, m);
    lemma_product_bound(a.i, b.j, m);
    lemma_product_bound(a.i, b.k, m);
    lemma_product_bound(a.j, b.x, m);
    lemma_product_bound(a.j, b.i, m);
    lemma_product_bound(a.j, b.j, m);
    lemma_product_bound(a.j, b.k, m);
    lemma_product_bound(a.k, b.x, m);
    lemma_product_bound(a.k, b.i, m);
    lemma_product_bound(a.k, b.j, m);
    lemma_product_bound(a.k, b.k, m);
}

/// The squared norm is never negative.
pub proof fn lemma_norm_sqr_nonneg(a: QuatModel)
    ensures
        qm_norm_sqr(a) >= 0,
{
    assert(a.x * a.x >= 0 && a.i * a.i >= 0 && a.j * a.j >= 0 && a.k * a.k >= 0)
        by (nonlinear_arith);
}

/// The squared norm of a non-zero quaternion is strictly positive.
pub proof fn lemma_norm_sqr_pos(a: QuatModel)
    requires
        a != qm_zero(),
    ensures
        qm_norm_sqr(a) >= 1,
{
    assert(!(a.x == 0 && a.i == 0 && a.j == 0 && a.k == 0));
    assert(qm_norm_sqr(a) >= 1) by (nonlinear_arith)
        requires
            !(a.x == 0 && a.i == 0 && a.j == 0 && a.k == 0),
            qm_norm_sqr(a) == a.x * a.x + a.i * a.i + a.j * a.j + a.k * a.k,
    ;
}

/// A quaternion over exact fixed-point `i64` scalars.  Two values are equal
/// exactly when all four components are bit-identical.
#[derive(Clone, Copy, PartialEq, Eq, Structural, Hash, Debug)]
pub struct Quaternion {
    pub x: i64,
    pub i: i64,
    pub j: i64,
    pub k: i64,
}

impl View for Quaternion {
    type V = QuatModel;

    open spec fn view(&self) -> QuatModel {
        qm(self.x as int, self.i as int, self.j as int, self.k as int)
    }
}

impl Quaternion {
    /// The quaternion with the four given components.
    pub fn new(x: i64, i: i64, j: i64, k: i64) -> (r: Self)
        ensures
            r@ == qm(x as int, i as int, j as int, k as int),
    {
        Quaternion { x, i, j, k }
    }

    /// The additive identity.
    pub fn zero() -> (r: Self)
        ensures
            r@ == qm_zero(),
    {
        Quaternion { x: 0, i: 0, j: 0, k: 0 }
    }

    /// The multiplicative identity of the Hamilton product.  (The raw
    /// component 1, not the fixed-point encoding of the real 1, which is
    /// `SCALE`: the product itself does no rescaling.)
    pub fn one() -> (r: Self)
        ensures
            r@ == qm_one(),
    {
        Quaternion { x: 1, i: 0, j: 0, k: 0 }
    }

    /// True exactly when all four components are zero.
    pub fn is_zero(&self) -> (r: bool)
        ensures
            r == (self@ == qm_zero()),
    {
        self.x == 0 && self.i == 0 && self.j == 0 && self.k == 0
    }

    /// Componentwise sum.
    pub fn add(self, other: Self) -> (r: Self)
        requires
            qm_bounded(self@, ADDITIVE_BOUND as int),
            qm_bounded(other@, ADDITIVE_BOUND as int),
        ensures
            r@ == qm_add(self@, other@),
    {
        Quaternion {
            x: self.x + other.x,
            i: self.i + other.i,
            j: self.j + other.j,
            k: self.k + other.k,
        }
    }

    /// Componentwise negation.
    pub fn neg(self) -> (r: Self)
        requires
            qm_bounded(self@, ADDITIVE_BOUND as int),
        ensures
            r@ == qm_neg(self@),
    {
        Quaternion { x: -self.x, i: -self.i, j: -self.j, k: -self.k }
    }

    /// Componentwise difference, as the sum with the negation.
    pub fn sub(self, other: Self) -> (r: Self)
        requires
            qm_bounded(self@, ADDITIVE_BOUND as int),
            qm_bounded(other@, ADDITIVE_BOUND as int),
        ensures
            r@ == qm_sub(self@, other@),
    {
        self.add(other.neg())
    }

    /// The Hamilton product.
    pub fn mul(self, other: Self) -> (r: Self)
        requires
            qm_bounded(self@, COMPONENT_BOUND as int),
            qm_bounded(other@, COMPONENT_BOUND as int),
        ensures
            r@ == qm_mul(self@, other@),
    {
        proof {
            let m = COMPONENT_BOUND as int;
            lemma_product_bound(self@.x, other@.x, m);
            lemma_product_bound(self@.x, other@.i, m);
            lemma_product_bound(self@.x, other@.j, m);
            lemma_product_bound(self@.x, other@.k, m);
            lemma_product_bound(self@.i, other@.x, m);
            lemma_product_bound(self@.i, other@.i, m);
            lemma_product_bound(self@.i, other@.j, m);
            lemma_product_bound(self@.i, other@.k, m);
            lemma_product_bound(self@.j, other@.x, m);
            lemma_product_bound(self@.j, other@.i, m);
            lemma_product_bound(self@.j, other@.j, m);
            lemma_product_bound(self@.j, other@.k, m);
            lemma_product_bound(self@.k, other@.x, m);
            lemma_product_bound(self@.k, other@.i, m);
            lemma_product_bound(self@.k, other@.j, m);
            lemma_product_bound(self@.k, other@.k, m);
        }
        let x = self.x * other.x - self.i * other.i - self.j * other.j - self.k * other.k;
        let i = self.x * other.i + self.i * other.x + self.j * other.k - self.k * other.j;
        let j = self.x * other.j - self.i * other.k + self.j * other.x + self.k * other.i;
        let k = self.x * other.k + self.i * other.j - self.j * other.i + self.k * other.x;
        Quaternion { x, i, j, k }
    }

    /// The conjugate.
    pub fn conj(self) -> (r: Self)
        requires
            qm_bounded(self@, ADDITIVE_BOUND as int),
        ensures
            r@ == qm_conj(self@),
    {
        Quaternion { x: self.x, i: -self.i, j: -self.j, k: -self.k }
    }

    /// The squared norm, exactly.
    pub fn norm_sqr(&self) -> (r: i64)
        requires
            qm_bounded(self@, COMPONENT_BOUND as int),
        ensures
            r as int == qm_norm_sqr(self@),
            r >= 0,
    {
        proof {
            let m = COMPONENT_BOUND as int;
            lemma_product_bound(self@.x, self@.x, m);
            lemma_product_bound(self@.i, self@.i, m);
            lemma_product_bound(self@.j, self@.j, m);
            lemma_product_bound(self@.k, self@.k, m);
            lemma_norm_sqr_nonneg(self@);
        }
        self.x * self.x + self.i * self.i + self.j * self.j + self.k * self.k
    }
}

/// Truncating division on `i64` for a positive divisor.
pub fn tdiv_i64(a: i64, b: i64) -> (q: i64)
    requires
        b >= 1,
        a > i64::MIN,
    ensures
        q as int == tdiv(a as int, b as int),
{
    if a >= 0 {
        let q0: u64 = (a as u64) / (b as u64);
        proof {
            vstd::arithmetic::div_mod::lemma_div_nonincreasing(a as int, b as int);
            vstd::arithmetic::div_mod::lemma_div_pos_is_pos(a as int, b as int);
        }
        q0 as i64
    } else {
        let m: i64 = -a;
        let q0: u64 = (m as u64) / (b as u64);
        proof {
            vstd::arithmetic::div_mod::lemma_div_nonincreasing(m as int, b as int);
            vstd::arithmetic::div_mod::lemma_div_pos_is_pos(m as int, b as int);
        }
        -(q0 as i64)
    }
}

/// A four-term sum can be multiplied out term by term.
proof fn lemma_dot_expand(p1: int, p2: int, p3: int, p4: int, t: int)
    ensures
        (p1 + p2 + p3 + p4) * t == p1 * t + p2 * t + p3 * t + p4 * t,
{
    lemma_mul_is_distributive_add_other_way(t, p1 + p2 + p3, p4);
    lemma_mul_is_distributive_add_other_way(t, p1 + p2, p3);
    lemma_mul_is_distributive_add_other_way(t, p1, p2);
}

/// The `x` component of `(a * b) * conj(b)` collapses to
/// `norm_sqr(b) * a.x`, written out over the eight integer components.
proof fn lemma_conj_component_x(ax: int, ai: int, aj: int, ak: int, bx: int, bi: int, bj: int, bk: int)
    ensures
        (ax * bx - ai * bi - aj * bj - ak * bk) * bx + (ax * bi + ai * bx + aj * bk - ak * bj) * bi + (ax * bj - ai * bk + aj * bx + ak * bi) * bj + (ax * bk + ai * bj - aj * bi + ak * bx) * bk == (bx * bx + bi * bi + bj * bj + bk * bk) * ax,
{
    lemma_dot_expand(ax * bx, -(ai * bi), -(aj * bj), -(ak * bk), bx);
    lemma_mul_is_associative(ax, bx, bx);
    lemma_mul_unary_negation(ai * bi, bx);
    lemma_mul_is_associative(ai, bi, bx);
    lemma_mul_is_commutative(bi, bx);
    lemma_mul_unary_negation(aj * bj, bx);
    lemma_mul_is_associative(aj, bj, bx);
    lemma_mul_is_commutative(bj, bx);
    lemma_mul_unary_negation(ak * bk, bx);
    lemma_mul_is_associative(ak, bk, bx);
    lemma_mul_is_commutative(bk, bx);
    lemma_dot_expand(ax * bi, ai * bx, aj * bk, -(ak * bj), bi);
    lemma_mul_is_associative(ax, bi, bi);
    lemma_mul_is_associative(ai, bx, bi);
    lemma_mul_is_associative(aj, bk, bi);
    lemma_mul_is_commutative(bk, bi);
    lemma_mul_unary_negation(ak * bj, bi);
    lemma_mul_is_associative(ak, bj, bi);
    lemma_mul_is_commutative(bj, bi);
    lemma_dot_expand(ax * bj, -(ai * bk), aj * bx, ak * bi, bj);
    lemma_mul_is_associative(ax, bj, bj);
    lemma_mul_unary_negation(ai * bk, bj);
    lemma_mul_is_associative(ai, bk, bj);
    lemma_mul_is_commutative(bk, bj);
    lemma_mul_is_associative(aj, bx, bj);
    lemma_mul_is_associative(ak, bi, bj);
    lemma_dot_expand(ax * bk, ai * bj, -(aj * bi), ak * bx, bk);
    lemma_mul_is_associative(ax, bk, bk);
    lemma_mul_is_associative(ai, bj, bk);
    lemma_mul_unary_negation(aj * bi, bk);
    lemma_mul_is_associative(aj, bi, bk);
    lemma_mul_is_associative(ak, bx, bk);
    lemma_dot_expand(bx * bx, bi * bi, bj * bj, bk * bk, ax);
    lemma_mul_is_commutative(bx * bx, ax);
    lemma_mul_is_commutative(bi * bi, ax);
    lemma_mul_is_commutative(bj * bj, ax);
    lemma_mul_is_commutative(bk * bk, ax);
}

/// The `i` component of `(a * b) * conj(b)` collapses to
/// `norm_sqr(b) * a.i`, written out over the eight integer components.
proof fn lemma_conj_component_i(ax: int, ai: int, aj: int, ak: int, bx: int, bi: int, bj: int, bk: int)
    ensures
        -((ax * bx - ai * bi - aj * bj - ak * bk) * bi) + (ax * bi + ai * bx + aj * bk - ak * bj) * bx - (ax * bj - ai * bk + aj * bx + ak * bi) * bk + (ax * bk + ai * bj - aj * bi + ak * bx) * bj == (bx * bx + bi * bi + bj * bj + bk * bk) * ai,
{
    lemma_dot_expand(ax * bx, -(ai * bi), -(aj * bj), -(ak * bk), bi);
    lemma_mul_is_associative(ax, bx, bi);
    lemma_mul_unary_negation(ai * bi, bi);
    lemma_mul_is_associative(ai, bi, bi);
    lemma_mul_unary_negation(aj * bj, bi);
    lemma_mul_is_associative(aj, bj, bi);
    lemma_mul_is_commutative(bj, bi);
    lemma_mul_unary_negation(ak * bk, bi);
    lemma_mul_is_associative(ak, bk, bi);
    lemma_mul_is_commutative(bk, bi);
    lemma_dot_expand(ax * bi, ai * bx, aj * bk, -(ak * bj), bx);
    lemma_mul_is_associative(ax, bi, bx);
    lemma_mul_is_commutative(bi, bx);
    lemma_mul_is_associative(ai, bx, bx);
    lemma_mul_is_associative(aj, bk, bx);
    lemma_mul_is_commutative(bk, bx);
    lemma_mul_unary_negation(ak * bj, bx);
    lemma_mul_is_associative(ak, bj, bx);
    lemma_mul_is_commutative(bj, bx);
    lemma_dot_expand(ax * bj, -(ai * bk), aj * bx, ak * bi, bk);
    lemma_mul_is_associative(ax, bj, bk);
    lemma_mul_unary_negation(ai * bk, bk);
    lemma_mul_is_associative(ai, bk, bk);
    lemma_mul_is_associative(aj, bx, bk);
    lemma_mul_is_associative(ak, bi, bk);
    lemma_dot_expand(ax * bk, ai * bj, -(aj * bi), ak * bx, bj);
    lemma_mul_is_associative(ax, bk, bj);
    lemma_mul_is_commutative(bk, bj);
    lemma_mul_is_associative(ai, bj, bj);
    lemma_mul_unary_negation(aj * bi, bj);
    lemma_mul_is_associative(aj, bi, bj);
    lemma_mul_is_associative(ak, bx, bj);
    lemma_dot_expand(bx * bx, bi * bi, bj * bj, bk * bk, ai);
    lemma_mul_is_commutative(bx * bx, ai);
    lemma_mul_is_commutative(bi * bi, ai);
    lemma_mul_is_commutative(bj * bj, ai);
    lemma_mul_is_commutative(bk * bk, ai);
}

/// The `j` component of `(a * b) * conj(b)` collapses to
/// `norm_sqr(b) * a.j`, written out over the eight integer components.
proof fn lemma_conj_component_j(ax: int, ai: int, aj: int, ak: int, bx: int, bi: int, bj: int, bk: int)
    ensures
        -((ax * bx - ai * bi - aj * bj - ak * bk) * bj) + (ax * bi + ai * bx + aj * bk - ak * bj) * bk + (ax * bj - ai * bk + aj * bx + ak * bi) * bx - (ax * bk + ai * bj - aj * bi + ak * bx) * bi == (bx * bx + bi * bi + bj * bj + bk * bk) * aj,
{
    lemma_dot_expand(ax * bx, -(ai * bi), -(aj * bj), -(ak * bk), bj);
    lemma_mul_is_associative(ax, bx, bj);
    lemma_mul_unary_negation(ai * bi, bj);
    lemma_mul_is_associative(ai, bi, bj);
    lemma_mul_unary_negation(aj * bj, bj);
    lemma_mul_is_associative(aj, bj, bj);
    lemma_mul_unary_negation(ak * bk, bj);
    lemma_mul_is_associative(ak, bk, bj);
    lemma_mul_is_commutative(bk, bj);
    lemma_dot_expand(ax * bi, ai * bx, aj * bk, -(ak * bj), bk);
    lemma_mul_is_associative(ax, bi, bk);
    lemma_mul_is_associative(ai, bx, bk);
    lemma_mul_is_associative(aj, bk, bk);
    lemma_mul_unary_negation(ak * bj, bk);
    lemma_mul_is_associative(ak, bj, bk);
    lemma_dot_expand(ax * bj, -(ai * bk), aj * bx, ak * bi, bx);
    lemma_mul_is_associative(ax, bj, bx);
    lemma_mul_is_commutative(bj, bx);
    lemma_mul_unary_negation(ai * bk, bx);
    lemma_mul_is_associative(ai, bk, bx);
    lemma_mul_is_commutative(bk, bx);
    lemma_mul_is_associative(aj, bx, bx);
    lemma_mul_is_associative(ak, bi, bx);
    lemma_mul_is_commutative(bi, bx);
    lemma_dot_expand(ax * bk, ai * bj, -(aj * bi), ak * bx, bi);
    lemma_mul_is_associative(ax, bk, bi);
    lemma_mul_is_commutative(bk, bi);
    lemma_mul_is_associative(ai, bj, bi);
    lemma_mul_is_commutative(bj, bi);
    lemma_mul_unary_negation(aj * bi, bi);
    lemma_mul_is_associative(aj, bi, bi);
    lemma_mul_is_associative(ak, bx, bi);
    lemma_dot_expand(bx * bx, bi * bi, bj * bj, bk * bk, aj);
    lemma_mul_is_commutative(bx * bx, aj);
    lemma_mul_is_commutative(bi * bi, aj);
    lemma_mul_is_commutative(bj * bj, aj);
    lemma_mul_is_commutative(bk * bk, aj);
}

/// The `k` component of `(a * b) * conj(b)` collapses to
/// `norm_sqr(b) * a.k`, written out over the eight integer components.
proof fn lemma_conj_component_k(ax: int, ai: int, aj: int, ak: int, bx: int, bi: int, bj: int, bk: int)
    ensures
        -((ax * bx - ai * bi - aj * bj - ak * bk) * bk) - (ax * bi + ai * bx + aj * bk - ak * bj) * bj + (ax * bj - ai * bk + aj * bx + ak * bi) * bi + (ax * bk + ai * bj - aj * bi + ak * bx) * bx == (bx * bx + bi * bi + bj * bj + bk * bk) * ak,
{
    lemma_dot_expand(ax * bx, -(ai * bi), -(aj * bj), -(ak * bk), bk);
    lemma_mul_is_associative(ax, bx, bk);
    lemma_mul_unary_negation(ai * bi, bk);
    lemma_mul_is_associative(ai, bi, bk);
    lemma_mul_unary_negation(aj * bj, bk);
    lemma_mul_is_associative(aj, bj, bk);
    lemma_mul_unary_negation(ak * bk, bk);
    lemma_mul_is_associative(ak, bk, bk);
    lemma_dot_expand(ax * bi, ai * bx, aj * bk, -(ak * bj), bj);
    lemma_mul_is_associative(ax, bi, bj);
    lemma_mul_is_associative(ai, bx, bj);
    lemma_mul_is_associative(aj, bk, bj);
    lemma_mul_is_commutative(bk, bj);
    lemma_mul_unary_negation(ak * bj, bj);
    lemma_mul_is_associative(ak, bj, bj);
    lemma_dot_expand(ax * bj, -(ai * bk), aj * bx, ak * bi, bi);
    lemma_mul_is_associative(ax, bj, bi);
    lemma_mul_is_commutative(bj, bi);
    lemma_mul_unary_negation(ai * bk, bi);
    lemma_mul_is_associative(ai, bk, bi);
    lemma_mul_is_commutative(bk, bi);
    lemma_mul_is_associative(aj, bx, bi);
    lemma_mul_is_associative(ak, bi, bi);
    lemma_dot_expand(ax * bk, ai * bj, -(aj * bi), ak * bx, bx);
    lemma_mul_is_associative(ax, bk, bx);
    lemma_mul_is_commutative(bk, bx);
    lemma_mul_is_associative(ai, bj, bx);
    lemma_mul_is_commutative(bj, bx);
    lemma_mul_unary_negation(aj * bi, bx);
    lemma_mul_is_associative(aj, bi, bx);
    lemma_mul_is_commutative(bi, bx);
    lemma_mul_is_associative(ak, bx, bx);
    lemma_dot_expand(bx * bx, bi * bi, bj * bj, bk * bk, ak);
    lemma_mul_is_commutative(bx * bx, ak);
    lemma_mul_is_commutative(bi * bi, ak);
    lemma_mul_is_commutative(bj * bj, ak);
    lemma_mul_is_commutative(bk * bk, ak);
}

/// Multiplying by `b` and then by the conjugate of `b` scales every
/// component by the squared norm of `b`.
pub proof fn lemma_mul_conj_cancel(a: QuatModel, b: QuatModel)
    ensures
        qm_mul(qm_mul(a, b), qm_conj(b)) == qm_scale(qm_norm_sqr(b), a),
{
    let p = qm_mul(a, b);
    lemma_mul_unary_negation(p.x, b.i);
    lemma_mul_unary_negation(p.x, b.j);
    lemma_mul_unary_negation(p.x, b.k);
    lemma_mul_unary_negation(p.i, b.i);
    lemma_mul_unary_negation(p.i, b.j);
    lemma_mul_unary_negation(p.i, b.k);
    lemma_mul_unary_negation(p.j, b.i);
    lemma_mul_unary_negation(p.j, b.j);
    lemma_mul_unary_negation(p.j, b.k);
    lemma_mul_unary_negation(p.k, b.i);
    lemma_mul_unary_negation(p.k, b.j);
    lemma_mul_unary_negation(p.k, b.k);
    lemma_conj_component_x(a.x, a.i, a.j, a.k, b.x, b.i, b.j, b.k);
    lemma_conj_component_i(a.x, a.i, a.j, a.k, b.x, b.i, b.j, b.k);
    lemma_conj_component_j(a.x, a.i, a.j, a.k, b.x, b.i, b.j, b.k);
    lemma_conj_component_k(a.x, a.i, a.j, a.k, b.x, b.i, b.j, b.k);
}

/// Exact truncating division: dividing an exact multiple gives the factor.
pub proof fn lemma_tdiv_exact(n: int, c: int)
    requires
        n >= 1,
    ensures
        tdiv(n * c, n) == c,
{
    if c >= 0 {
        assert(n * c >= 0) by (nonlinear_arith)
            requires
                n >= 1,
                c >= 0,
        ;
        lemma_div_multiples_vanish(c, n);
    } else {
        assert(n * c < 0) by (nonlinear_arith)
            requires
                n >= 1,
                c < 0,
        ;
        assert(-(n * c) == n * -c) by (nonlinear_arith);
        lemma_div_multiples_vanish(-c, n);
    }
}

/// The multiplicative identity leaves every quaternion unchanged.
pub proof fn lemma_mul_one(a: QuatModel)
    ensures
        qm_mul(a, qm_one()) == a,
        qm_mul(qm_one(), a) == a,
{
}

/// Multiplying by a non-zero quaternion and then dividing by it gives the
/// first factor back exactly: `(a * b) / b == a` whenever `b` is non-zero.
pub proof fn lemma_mul_div_cancel(a: QuatModel, b: QuatModel)
    requires
        b != qm_zero(),
    ensures
        qm_div(qm_mul(a, b), b) == a,
{
    let ns = qm_norm_sqr(b);
    lemma_norm_sqr_pos(b);
    lemma_mul_conj_cancel(a, b);
    lemma_tdiv_exact(ns, a.x);
    lemma_tdiv_exact(ns, a.i);
    lemma_tdiv_exact(ns, a.j);
    lemma_tdiv_exact(ns, a.k);
}

/// Floor of the square root of a 64-bit value, by bisection.
pub fn isqrt_u64(n: u64) -> (r: u64)
    ensures
        (r as int) * (r as int) <= n as int,
        (n as int) < (r as int + 1) * (r as int + 1),
        r <= 0xFFFF_FFFF,
{
    let mut lo: u64 = 0;
    let mut hi: u64 = 0x1_0000_0000;
    proof {
        assert((0x1_0000_0000 as int) * (0x1_0000_0000 as int) > n as int);
    }
    while hi - lo > 1
        invariant
            lo < hi,
            hi <= 0x1_0000_0000,
            (lo as int) * (lo as int) <= n as int,
            (hi as int) * (hi as int) > n as int,
        decreases hi - lo,
    {
        let mid: u64 = lo + (hi - lo) / 2;
        proof {
            lemma_product_bound(mid as int, mid as int, 0xFFFF_FFFF);
        }
        if mid * mid <= n {
            lo = mid;
        } else {
            hi = mid;
        }
    }
    lo
}

impl Quaternion {
    /// The norm, rounded down to the nearest whole fixed-point step: the
    /// result `r` is the unique value with `r * r <= norm_sqr < (r+1) * (r+1)`.
    pub fn norm(&self) -> (r: i64)
        requires
            qm_bounded(self@, COMPONENT_BOUND as int),
        ensures
            r >= 0,
            (r as int) * (r as int) <= qm_norm_sqr(self@),
            qm_norm_sqr(self@) < (r as int + 1) * (r as int + 1),
    {
        let ns = self.norm_sqr();
        let r = isqrt_u64(ns as u64);
        r as i64
    }

    /// Division: multiplication by the conjugate of `other`, then a
    /// per-component truncating division by the squared norm of `other`.
    /// The divisor must not be the zero quaternion.
    pub fn div(self, other: Self) -> (r: Self)
        requires
            qm_bounded(self@, COMPONENT_BOUND as int),
            qm_bounded(other@, COMPONENT_BOUND as int),
            other@ != qm_zero(),
        ensures
            r@ == qm_div(self@, other@),
    {
        let num = self.mul(other.conj());
        let d = other.norm_sqr();
        proof {
            lemma_norm_sqr_pos(other@);
            lemma_mul_bounded(self@, qm_conj(other@), COMPONENT_BOUND as int);
        }
        Quaternion {
            x: tdiv_i64(num.x, d),
            i: tdiv_i64(num.i, d),
            j: tdiv_i64(num.j, d),
            k: tdiv_i64(num.k, d),
        }
    }
}

/// For a squared norm pinned between `r * r` and `(r+1) * (r+1)`, comparing
/// the rounded norm `r` against a non-negative threshold `t` is the same as
/// comparing the squared norm against `t * t`.
pub proof fn lemma_norm_threshold(r: int, ns: int, t: int)
    by (nonlinear_arith)
    requires
        0 <= r,
        0 <= t,
        r * r <= ns,
        ns < (r + 1) * (r + 1),
    ensures
        (r >= t) <==> (ns >= t * t),
{
}

} // verus!
