use asciibrot::cache::Cache;
use asciibrot::evaluator::EvalResult;
use asciibrot::quaternion::Quaternion;
use std::cell::Cell;

#[test]
fn second_lookup_reuses_stored_result() {
    let calls = Cell::new(0u32);
    let mut cache = Cache::new();
    let key = Quaternion::new(1, 2, 3, 4);
    let compute = |_q: Quaternion| {
        calls.set(calls.get() + 1);
        EvalResult::Escaped(7)
    };
    let first = cache.lookup_or_compute(key, compute);
    let second = cache.lookup_or_compute(key, compute);
    assert_eq!(first, EvalResult::Escaped(7));
    assert_eq!(second, first);
    assert_eq!(calls.get(), 1);
}

#[test]
fn distinct_keys_compute_separately() {
    let calls = Cell::new(0u32);
    let mut cache = Cache::new();
    let compute = |q: Quaternion| {
        calls.set(calls.get() + 1);
        if q.x == 0 {
            EvalResult::Inside
        } else {
            EvalResult::Escaped(1)
        }
    };
    let a = cache.lookup_or_compute(Quaternion::zero(), compute);
    let b = cache.lookup_or_compute(Quaternion::new(9, 0, 0, 0), compute);
    assert_eq!(a, EvalResult::Inside);
    assert_eq!(b, EvalResult::Escaped(1));
    assert_eq!(calls.get(), 2);
    // both now served from the cache
    assert_eq!(cache.lookup_or_compute(Quaternion::zero(), compute), EvalResult::Inside);
    assert_eq!(calls.get(), 2);
}

#[test]
fn keys_differ_on_any_component() {
    let mut cache = Cache::new();
    let compute_a = |_q: Quaternion| EvalResult::Escaped(1);
    let compute_b = |_q: Quaternion| EvalResult::Escaped(2);
    let a = cache.lookup_or_compute(Quaternion::new(1, 0, 0, 0), compute_a);
    let b = cache.lookup_or_compute(Quaternion::new(0, 1, 0, 0), compute_b);
    assert_eq!(a, EvalResult::Escaped(1));
    assert_eq!(b, EvalResult::Escaped(2));
}

#[test]
fn get_reports_only_stored_keys() {
    let mut cache = Cache::new();
    let key = Quaternion::new(5, 5, 5, 5);
    assert_eq!(cache.get(key), None);
    cache.lookup_or_compute(key, |_q| EvalResult::Inside);
    assert_eq!(cache.get(key), Some(EvalResult::Inside));
    assert_eq!(cache.get(Quaternion::zero()), None);
}
