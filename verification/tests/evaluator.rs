use asciibrot::evaluator::{escape_time, mandelbrot, EscapeRule, EvalResult};
use asciibrot::quaternion::{Quaternion, SCALE};

#[test]
fn origin_never_diverges() {
    assert!(mandelbrot(Quaternion::zero()));
}

#[test]
fn large_constant_escapes_at_position_one() {
    let c = Quaternion::new(3 * SCALE, 0, 0, 0);
    assert!(!mandelbrot(c));
    let r = escape_time(EscapeRule::Mandelbrot, c, 1000, 2 * SCALE);
    assert_eq!(r, EvalResult::Escaped(1));
}

#[test]
fn threshold_is_inclusive() {
    // norm exactly 2: escapes as soon as it appears in the orbit
    let c = Quaternion::new(2 * SCALE, 0, 0, 0);
    let r = escape_time(EscapeRule::Mandelbrot, c, 10, 2 * SCALE);
    assert_eq!(r, EvalResult::Escaped(1));
}

#[test]
fn point_outside_cardioid_escapes_late() {
    // c = 0.5: orbit creeps upward and eventually passes 2
    let c = Quaternion::new(SCALE / 2, 0, 0, 0);
    let r = escape_time(EscapeRule::Mandelbrot, c, 1000, 2 * SCALE);
    match r {
        EvalResult::Escaped(p) => assert!(p > 1),
        EvalResult::Inside => panic!("expected divergence for c = 0.5"),
    }
}

#[test]
fn member_point_stays_inside() {
    // c = -1 cycles between -1 and 0 forever
    let c = Quaternion::new(-SCALE, 0, 0, 0);
    assert!(mandelbrot(c));
}

#[test]
fn maxiter_one_only_sees_zero_state() {
    // with a single position only the zero state is inspected
    let c = Quaternion::new(3 * SCALE, 0, 0, 0);
    let r = escape_time(EscapeRule::Mandelbrot, c, 1, 2 * SCALE);
    assert_eq!(r, EvalResult::Inside);
}
