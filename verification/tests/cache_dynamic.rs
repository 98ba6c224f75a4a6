use std::cell::{Cell, RefCell};

use closures::cache_dynamic::CacheDynamic;
use closures::workout::generate_workout_closure_memorization_dynamic;
use rand::Rng;

#[test]
fn call_with_different_values() {
    let intensity = 1;
    let random_number = rand::thread_rng().gen_range(0..4);
    let (_, v1) =
        generate_workout_closure_memorization_dynamic(|num| num, intensity + 1, random_number);
    let (_, v2) =
        generate_workout_closure_memorization_dynamic(|num| num, intensity + 2, random_number);
    let (_, v3) =
        generate_workout_closure_memorization_dynamic(|num| num, intensity + 1, random_number);
    let mut c = CacheDynamic::new(|a: &str| a.len());
    let v4 = c.value("string literal");
    let v5 = c.value("another string literal");
    let v6 = c.value("string literal");
    assert_ne!(v1, v2);
    assert_eq!(v1, v3);
    assert_ne!(v4, v5);
    assert_eq!(v4, v6);
}

#[test]
fn keyed_identity_scenario() {
    let calls = Cell::new(0u32);
    let mut cache = CacheDynamic::new(|x: u32| {
        calls.set(calls.get() + 1);
        x
    });
    assert_eq!(cache.value(2), 2);
    assert_eq!(calls.get(), 1);
    assert_eq!(cache.value(3), 3);
    assert_eq!(calls.get(), 2);
    assert_eq!(cache.value(2), 2);
    assert_eq!(calls.get(), 2);
}

#[test]
fn keyed_string_key_scenario() {
    let calls = Cell::new(0u32);
    let mut cache = CacheDynamic::new(|s: &str| {
        calls.set(calls.get() + 1);
        s.len()
    });
    assert_eq!(cache.value("string literal"), 14);
    assert_eq!(calls.get(), 1);
    assert_eq!(cache.value("another string literal"), 22);
    assert_eq!(calls.get(), 2);
    assert_eq!(cache.value("string literal"), 14);
    assert_eq!(calls.get(), 2);
}

#[test]
fn keyed_is_lazy() {
    let calls = Cell::new(0u32);
    let mut cache = CacheDynamic::new(|x: u64| {
        calls.set(calls.get() + 1);
        x + 1
    });
    assert_eq!(calls.get(), 0);
    assert_eq!(cache.value(41), 42);
    assert_eq!(calls.get(), 1);
}

#[test]
fn keyed_calls_once_per_distinct_argument_in_order_of_first_appearance() {
    let seen = RefCell::new(Vec::new());
    let mut cache = CacheDynamic::new(|x: i32| {
        seen.borrow_mut().push(x);
        x * x
    });
    let args = [5, 1, 5, 2, 1, 5, -5, 2, 0];
    for arg in args {
        cache.value(arg);
    }
    assert_eq!(*seen.borrow(), vec![5, 1, 2, -5, 0]);
}

#[test]
fn keyed_results_equal_fresh_results() {
    let square = |x: u32| x * x;
    let mut cache = CacheDynamic::new(square);
    let args = [3u32, 0, 7, 3, 3, 65535, 7, 0];
    for arg in args {
        assert_eq!(cache.value(arg), square(arg));
    }
    assert_eq!(cache.value(65535), 4294836225);
}

#[test]
fn keyed_keeps_first_result_of_an_impure_callable() {
    let counter = Cell::new(0u32);
    let mut cache = CacheDynamic::new(|x: u8| {
        counter.set(counter.get() + 1);
        (x, counter.get())
    });
    assert_eq!(cache.value(9), (9, 1));
    assert_eq!(cache.value(8), (8, 2));
    assert_eq!(cache.value(9), (9, 1));
    assert_eq!(cache.value(8), (8, 2));
    assert_eq!(cache.value(7), (7, 3));
}

#[test]
fn keyed_returns_duplicates_of_owned_results() {
    let calls = Cell::new(0u32);
    let mut cache = CacheDynamic::new(|n: usize| {
        calls.set(calls.get() + 1);
        "ab".repeat(n)
    });
    let first = cache.value(2);
    let mut second = cache.value(2);
    assert_eq!(first, "abab");
    assert_eq!(second, "abab");
    second.push('!');
    assert_eq!(cache.value(2), "abab");
    assert_eq!(cache.value(0), "");
    assert_eq!(calls.get(), 2);
}
