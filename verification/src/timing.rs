//! Measuring how long an operation takes on the wall clock.

use vstd::prelude::*;

use crate::clock::millis_between;
use crate::clock::now_millis;

verus! {

/// Runs the operation and measures how long it took, in milliseconds of
/// wall-clock time. The operation's own contract is discharged; of the
/// measurement itself nothing is promised, as the wall clock may jump, so
/// it can even be negative.
pub fn measure_duration<F: FnOnce() -> ()>(operation: F) -> (elapsed_ms: i64)
    requires
        call_requires(operation, ()),
    ensures
        call_ensures(operation, (), ()),
{
    let start: i64 = now_millis();
    operation();
    millis_between(start, now_millis())
}

/// Runs the operation and measures how long it took, in milliseconds of
/// wall-clock time, alongside the value it returned. The value meets the
/// operation's own contract; of the measurement nothing is promised, as
/// the wall clock may jump.
pub fn measure_operation<T, F: FnOnce() -> T>(operation: F) -> (measured: (i64, T))
    requires
        call_requires(operation, ()),
    ensures
        call_ensures(operation, (), measured.1),
{
    let start: i64 = now_millis();
    let value = operation();
    (millis_between(start, now_millis()), value)
}

} // verus!
