//! How a closure takes hold of the variables around it: by borrowing them,
//! or, when it is told to `move`, by taking them over.

use vstd::prelude::*;

verus! {

/// What the three closures of [`capture_environment`] found.
pub struct Captured {
    /// Result of the closure over a number.
    pub number_equal: bool,
    /// The vector that the borrowing closure compared with, still there
    /// after the closure was made.
    pub borrowed: Vec<i32>,
    /// Result of the borrowing closure.
    pub borrowed_equal: bool,
    /// Result of the closure that took its vector over.
    pub moved_equal: bool,
}

/// Runs the three closures, the one over a number first.
pub fn capture_environment() -> (captured: Captured)
    ensures
        captured.number_equal,
        captured.borrowed@ == seq![1i32, 2i32, 3i32],
        captured.borrowed_equal,
        captured.moved_equal,
{
    let number_equal = closure_that_captures_environment();
    let (borrowed, borrowed_equal) = closure_that_is_not_forced_to_take_ownership();
    let moved_equal = closure_that_is_forced_to_take_ownership();
    Captured { number_equal, borrowed, borrowed_equal, moved_equal }
}

/// A closure that borrows a vector leaves it usable where it was declared:
/// returns the vector along with what the closure says of an equal one.
pub fn closure_that_is_not_forced_to_take_ownership() -> (r: (Vec<i32>, bool))
    ensures
        r.0@ == seq![1i32, 2i32, 3i32],
        r.1,
{
    let x = vec![1, 2, 3];
    let equal_to_x = |z: Vec<i32>| -> (equal: bool)
        ensures
            equal == (z@ =~= x@),
        { z == x };
    let y = vec![1, 2, 3];
    let equal = equal_to_x(y);
    (x, equal)
}

/// A `move` closure owns the vector it compares with, which is gone from
/// where it was declared: returns what the closure says of an equal one.
pub fn closure_that_is_forced_to_take_ownership() -> (equal: bool)
    ensures
        equal,
{
    let x = vec![1, 2, 3];
    let equal_to_x = move |z: Vec<i32>| -> (equal: bool)
        ensures
            equal == (z@ =~= x@),
        { z == x };
    let y = vec![1, 2, 3];
    equal_to_x(y)
}

/// A closure may use a variable of the scope it is written in, which a
/// function cannot: returns what a closure over the number 4 says of 4.
pub fn closure_that_captures_environment() -> (equal: bool)
    ensures
        equal,
{
    let x: i32 = 4;
    let equal_to_x = |z: i32| -> (equal: bool)
        ensures
            equal == (z == x),
        { z == x };
    let y: i32 = 4;
    equal_to_x(y)
}

} // verus!
