use std::cell::{Cell, RefCell};

use closures::cache_non_dynamic::CacheNonDynamic;

#[test]
fn single_slot_identity_scenario() {
    let calls = Cell::new(0u32);
    let mut cache = CacheNonDynamic::new(|x: u32| {
        calls.set(calls.get() + 1);
        x
    });
    assert_eq!(cache.value(2), 2);
    assert_eq!(calls.get(), 1);
    assert_eq!(cache.value(3), 2);
    assert_eq!(calls.get(), 1);
}

#[test]
fn single_slot_is_lazy() {
    let calls = Cell::new(0u32);
    let mut cache = CacheNonDynamic::new(|x: u32| {
        calls.set(calls.get() + 1);
        x / 2
    });
    assert_eq!(calls.get(), 0);
    assert_eq!(cache.value(9), 4);
    assert_eq!(calls.get(), 1);
}

#[test]
fn single_slot_calls_once_whatever_follows() {
    let seen = RefCell::new(Vec::new());
    let mut cache = CacheNonDynamic::new(|x: u32| {
        seen.borrow_mut().push(x);
        x + 100
    });
    let args = [7u32, 8, 7, 0, u32::MAX, 9];
    for arg in args {
        assert_eq!(cache.value(arg), 107);
    }
    assert_eq!(*seen.borrow(), vec![7]);
}

#[test]
fn single_slot_returns_stale_value_for_another_argument() {
    let mut cache = CacheNonDynamic::new(|x: u32| x * 3);
    let r = cache.value(5);
    assert_eq!(r, 15);
    assert_eq!(cache.value(6), r);
    assert_ne!(cache.value(6), 18);
    assert_eq!(cache.value(5), r);
}

#[test]
fn single_slot_stores_zero_like_any_result() {
    let calls = Cell::new(0u32);
    let mut cache = CacheNonDynamic::new(|x: u32| {
        calls.set(calls.get() + 1);
        x
    });
    assert_eq!(cache.value(0), 0);
    assert_eq!(cache.value(1), 0);
    assert_eq!(calls.get(), 1);
}
