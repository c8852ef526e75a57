//! Bounded escape-time classification of a quaternion under an iterated
//! update rule.
//!
//! The conceptual orbit starts at the zero state, before any application of
//! the rule, and is truncated to `maxiter` positions.  The evaluator reports
//! the first position whose norm reaches the divergence threshold, or that no
//! position within the bound does, in which case the point is a member of the
//! set.  Comparisons are made on squared norms, which is exact: the rounded
//! norm reaches `t` exactly when the squared norm reaches `t * t`.

use crate::quaternion::{
    lemma_mul_bounded, lemma_product_bound, qm, qm_add, qm_bounded, qm_mul, qm_norm_sqr, qm_zero,
    tdiv, tdiv_i64, QuatModel, Quaternion, SCALE,
};
use vstd::prelude::*;

verus! {

/// Iteration bound used by the stock Mandelbrot classifier.
pub const DEFAULT_MAXITER: usize = 1000;

/// Divergence threshold used by the stock Mandelbrot classifier: the real
/// value 2 in fixed-point units.
pub const DEFAULT_THRESHOLD: i64 = 0x2_0000;

/// Largest coordinate component magnitude accepted for an evaluated point.
pub const COORD_BOUND: i64 = 0x200_0000;

/// Largest divergence threshold accepted by the evaluator.
pub const THRESHOLD_BOUND: i64 = 0x10_0000;

/// Largest iteration bound accepted by the evaluator.
pub const MAXITER_BOUND: usize = 100_000;

/// Largest component magnitude a state can reach after one rule application
/// to a state that had not yet diverged.
pub const STATE_BOUND: i64 = 0x2000_0000;

/// The outcome of classifying one coordinate: either the point never
/// diverged within the iteration bound (a member of the set), or the first
/// orbit position whose norm reached the threshold.
#[derive(Clone, Copy, PartialEq, Eq, Structural, Debug)]
pub enum EvalResult {
    Inside,
    Escaped(usize),
}

/// The per-point update rule, chosen at construction: a tagged strategy.
/// Any rule maps (current state, constant) to the next state and is pure.
#[derive(Clone, Copy, PartialEq, Eq, Structural, Debug)]
pub enum EscapeRule {
    /// `z * z + c` over fixed-point quaternions: the product is rescaled by
    /// one fixed-point unit before the constant is added.
    Mandelbrot,
}

/// Rescales a product back to fixed-point units, truncating toward zero.
pub open spec fn qm_scale_down(a: QuatModel) -> QuatModel {
    qm(
        tdiv(a.x, SCALE as int),
        tdiv(a.i, SCALE as int),
        tdiv(a.j, SCALE as int),
        tdiv(a.k, SCALE as int),
    )
}

/// One application of the update rule.
pub open spec fn rule_step(rule: EscapeRule, z: QuatModel, c: QuatModel) -> QuatModel {
    match rule {
        EscapeRule::Mandelbrot => qm_add(qm_scale_down(qm_mul(z, z)), c),
    }
}

/// The orbit position `n`: the zero state iterated `n` times under the rule.
pub open spec fn rule_iter(rule: EscapeRule, c: QuatModel, n: nat) -> QuatModel
    decreases n,
{
    if n == 0 {
        qm_zero()
    } else {
        rule_step(rule, rule_iter(rule, c, (n - 1) as nat), c)
    }
}

/// Orbit position `pos` has reached the divergence threshold.
pub open spec fn diverged_at(rule: EscapeRule, c: QuatModel, threshold: int, pos: nat) -> bool {
    qm_norm_sqr(rule_iter(rule, c, pos)) >= threshold * threshold
}

/// The classification reached by scanning positions `pos .. maxiter` in
/// order for the first divergent one.
pub open spec fn escape_from(
    rule: EscapeRule,
    c: QuatModel,
    threshold: int,
    pos: nat,
    maxiter: nat,
) -> EvalResult
    decreases maxiter - pos,
{
    if pos >= maxiter {
        EvalResult::Inside
    } else if diverged_at(rule, c, threshold, pos) {
        EvalResult::Escaped(pos as usize)
    } else {
        escape_from(rule, c, threshold, pos + 1, maxiter)
    }
}

/// The classification of `c`: the first of the orbit positions
/// `0 .. maxiter` to reach the threshold, or membership if none does.
pub open spec fn escape_spec(rule: EscapeRule, c: QuatModel, threshold: int, maxiter: nat) -> EvalResult {
    escape_from(rule, c, threshold, 0, maxiter)
}

/// A divergence position reported by the scan lies below the bound.
pub proof fn lemma_escape_bounds(rule: EscapeRule, c: QuatModel, threshold: int, pos: nat, maxiter: nat)
    requires
        maxiter <= usize::MAX,
    ensures
        match escape_from(rule, c, threshold, pos, maxiter) {
            EvalResult::Escaped(p) => pos <= p < maxiter,
            EvalResult::Inside => true,
        },
    decreases maxiter - pos,
{
    if pos < maxiter && !diverged_at(rule, c, threshold, pos) {
        lemma_escape_bounds(rule, c, threshold, pos + 1, maxiter);
    }
}

/// A value whose square is below `t * t` lies strictly between `-t` and `t`.
proof fn lemma_square_below(x: int, t: int)
    by (nonlinear_arith)
    requires
        t >= 0,
        x * x < t * t,
    ensures
        -t < x < t,
{
}

/// A not-yet-divergent state has all components below the threshold.
proof fn lemma_state_components_below(z: QuatModel, threshold: int)
    requires
        threshold >= 0,
        qm_norm_sqr(z) < threshold * threshold,
    ensures
        qm_bounded(z, threshold),
{
    assert(z.x * z.x >= 0 && z.i * z.i >= 0 && z.j * z.j >= 0 && z.k * z.k >= 0)
        by (nonlinear_arith);
    lemma_square_below(z.x, threshold);
    lemma_square_below(z.i, threshold);
    lemma_square_below(z.j, threshold);
    lemma_square_below(z.k, threshold);
}

/// Truncating division cannot increase magnitude beyond `m / b`.
proof fn lemma_tdiv_magnitude(a: int, b: int, m: int)
    requires
        b >= 1,
        0 <= m,
        -m <= a <= m,
    ensures
        -(m / b) <= tdiv(a, b) <= m / b,
{
    if a >= 0 {
        vstd::arithmetic::div_mod::lemma_div_is_ordered(a, m, b);
        vstd::arithmetic::div_mod::lemma_div_pos_is_pos(a, b);
        vstd::arithmetic::div_mod::lemma_div_pos_is_pos(m, b);
    } else {
        vstd::arithmetic::div_mod::lemma_div_is_ordered(-a, m, b);
        vstd::arithmetic::div_mod::lemma_div_pos_is_pos(-a, b);
        vstd::arithmetic::div_mod::lemma_div_pos_is_pos(m, b);
    }
}

/// One application of the update rule to a state that has not yet diverged.
fn apply_rule(rule: EscapeRule, z: Quaternion, c: Quaternion) -> (r: Quaternion)
    requires
        qm_bounded(z@, THRESHOLD_BOUND as int),
        qm_bounded(c@, COORD_BOUND as int),
    ensures
        r@ == rule_step(rule, z@, c@),
        qm_bounded(r@, STATE_BOUND as int),
{
    match rule {
        EscapeRule::Mandelbrot => {
            let zz = z.mul(z);
            proof {
                lemma_mul_bounded(z@, z@, THRESHOLD_BOUND as int);
                lemma_tdiv_magnitude(qm_mul(z@, z@).x, SCALE as int, 4 * ((THRESHOLD_BOUND as int) * (THRESHOLD_BOUND as int)));
                lemma_tdiv_magnitude(qm_mul(z@, z@).i, SCALE as int, 4 * ((THRESHOLD_BOUND as int) * (THRESHOLD_BOUND as int)));
                lemma_tdiv_magnitude(qm_mul(z@, z@).j, SCALE as int, 4 * ((THRESHOLD_BOUND as int) * (THRESHOLD_BOUND as int)));
                lemma_tdiv_magnitude(qm_mul(z@, z@).k, SCALE as int, 4 * ((THRESHOLD_BOUND as int) * (THRESHOLD_BOUND as int)));
            }
            let scaled = Quaternion {
                x: tdiv_i64(zz.x, SCALE),
                i: tdiv_i64(zz.i, SCALE),
                j: tdiv_i64(zz.j, SCALE),
                k: tdiv_i64(zz.k, SCALE),
            };
            scaled.add(c)
        },
    }
}

/// Classifies `c` by scanning the truncated orbit for the first position
/// whose squared norm reaches `threshold * threshold`.
pub fn escape_time(rule: EscapeRule, c: Quaternion, maxiter: usize, threshold: i64) -> (r: EvalResult)
    requires
        qm_bounded(c@, COORD_BOUND as int),
        1 <= threshold <= THRESHOLD_BOUND,
        1 <= maxiter,
    ensures
        r == escape_spec(rule, c@, threshold as int, maxiter as nat),
{
    proof {
        lemma_product_bound(threshold as int, threshold as int, THRESHOLD_BOUND as int);
    }
    let tsq: i64 = threshold * threshold;
    let mut z = Quaternion::zero();
    let mut pos: usize = 0;
    loop
        invariant
            pos <= maxiter,
            1 <= threshold <= THRESHOLD_BOUND,
            tsq as int == (threshold as int) * (threshold as int),
            qm_bounded(c@, COORD_BOUND as int),
            z@ == rule_iter(rule, c@, pos as nat),
            qm_bounded(z@, STATE_BOUND as int),
            escape_from(rule, c@, threshold as int, pos as nat, maxiter as nat)
                == escape_spec(rule, c@, threshold as int, maxiter as nat),
        decreases maxiter - pos,
    {
        if pos >= maxiter {
            return EvalResult::Inside;
        }
        let ns = z.norm_sqr();
        if ns >= tsq {
            return EvalResult::Escaped(pos);
        }
        proof {
            lemma_state_components_below(z@, threshold as int);
        }
        z = apply_rule(rule, z, c);
        pos = pos + 1;
    }
}

/// Membership in the quaternion Mandelbrot set under the stock iteration
/// bound and threshold: true exactly when the orbit never diverges.
pub fn mandelbrot(c: Quaternion) -> (r: bool)
    requires
        qm_bounded(c@, COORD_BOUND as int),
    ensures
        r == (escape_spec(
            EscapeRule::Mandelbrot,
            c@,
            DEFAULT_THRESHOLD as int,
            DEFAULT_MAXITER as nat,
        ) == EvalResult::Inside),
{
    let r = escape_time(EscapeRule::Mandelbrot, c, DEFAULT_MAXITER, DEFAULT_THRESHOLD);
    match r {
        EvalResult::Inside => true,
        EvalResult::Escaped(_) => false,
    }
}

/// The orbit of the zero constant stays at zero forever.
proof fn lemma_zero_orbit(n: nat)
    ensures
        rule_iter(EscapeRule::Mandelbrot, qm_zero(), n) == qm_zero(),
    decreases n,
{
    if n > 0 {
        lemma_zero_orbit((n - 1) as nat);
        let p = qm_mul(qm_zero(), qm_zero());
        assert(p.x == 0 && p.i == 0 && p.j == 0 && p.k == 0);
        assert(p == qm_zero());
        assert(tdiv(0, SCALE as int) == 0);
        let s = rule_step(EscapeRule::Mandelbrot, qm_zero(), qm_zero());
        assert(s.x == 0 && s.i == 0 && s.j == 0 && s.k == 0);
        assert(s == qm_zero());
    }
}

/// Scanning the zero orbit finds no divergence from any position on.
proof fn lemma_zero_scan(threshold: int, pos: nat, maxiter: nat)
    requires
        threshold >= 1,
    ensures
        escape_from(EscapeRule::Mandelbrot, qm_zero(), threshold, pos, maxiter)
            == EvalResult::Inside,
    decreases maxiter - pos,
{
    if pos < maxiter {
        lemma_zero_orbit(pos);
        assert(threshold * threshold >= 1) by (nonlinear_arith)
            requires
                threshold >= 1,
        ;
        lemma_zero_scan(threshold, pos + 1, maxiter);
    }
}

/// The origin never diverges within any positive iteration bound: it is a
/// member of the set.
pub proof fn lemma_zero_is_member(threshold: int, maxiter: nat)
    requires
        threshold >= 1,
    ensures
        escape_spec(EscapeRule::Mandelbrot, qm_zero(), threshold, maxiter) == EvalResult::Inside,
{
    lemma_zero_scan(threshold, 0, maxiter);
}

/// A constant whose norm already reaches the threshold diverges at the first
/// applied iteration: the orbit is zero at position 0 and `c` itself at
/// position 1, so the scan reports position 1.
pub proof fn lemma_escapes_at_one(c: QuatModel, threshold: int, maxiter: nat)
    requires
        threshold >= 1,
        maxiter >= 2,
        qm_norm_sqr(c) >= threshold * threshold,
    ensures
        escape_spec(EscapeRule::Mandelbrot, c, threshold, maxiter) == EvalResult::Escaped(1),
{
    let rule = EscapeRule::Mandelbrot;
    assert(rule_iter(rule, c, 0) == qm_zero());
    let p = qm_mul(qm_zero(), qm_zero());
    assert(p.x == 0 && p.i == 0 && p.j == 0 && p.k == 0);
    assert(tdiv(0, SCALE as int) == 0);
    let one_step = rule_step(rule, qm_zero(), c);
    assert(one_step.x == c.x && one_step.i == c.i && one_step.j == c.j && one_step.k == c.k);
    assert(one_step == c);
    assert(rule_iter(rule, c, 1) == c);
    assert(threshold * threshold >= 1) by (nonlinear_arith)
        requires
            threshold >= 1,
    ;
    assert(!diverged_at(rule, c, threshold, 0));
    assert(diverged_at(rule, c, threshold, 1));
    assert(escape_from(rule, c, threshold, 0, maxiter) == escape_from(rule, c, threshold, 1, maxiter));
}

} // verus!
