use closures::capture_environment::{
    capture_environment, closure_that_captures_environment,
    closure_that_is_forced_to_take_ownership, closure_that_is_not_forced_to_take_ownership,
};

#[test]
fn borrowing_closure_leaves_the_vector_usable() {
    let (x, equal) = closure_that_is_not_forced_to_take_ownership();
    assert_eq!(x, vec![1, 2, 3]);
    assert!(equal);
}

#[test]
fn moving_closure_compares_equal_vectors() {
    assert!(closure_that_is_forced_to_take_ownership());
}

#[test]
fn closure_sees_the_number_of_its_scope() {
    assert!(closure_that_captures_environment());
}

#[test]
fn capture_environment_runs_all_three() {
    let captured = capture_environment();
    assert!(captured.number_equal);
    assert_eq!(captured.borrowed, vec![1, 2, 3]);
    assert!(captured.borrowed_equal);
    assert!(captured.moved_equal);
}
