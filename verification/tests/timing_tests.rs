use timed_drain::clock::deadline_after;
use timed_drain::clock::millis_between;
use timed_drain::timing::measure_duration;
use timed_drain::timing::measure_operation;

/// Blocks for about the given number of milliseconds by waiting on a channel
/// that never delivers.
fn wait_millis(ms: u64) {
    let r = crossbeam::channel::never::<bool>();
    let _ = r.recv_timeout(std::time::Duration::from_millis(ms));
}

#[test]
fn test_measure_duration() {
    let d = measure_duration(|| {
        wait_millis(20);
        let _ = 1 + 2;
    });
    assert!(d > 0);
}

#[test]
fn test_measure_operation() {
    let (d, x) = measure_operation(|| {
        wait_millis(20);
        1 + 2
    });

    assert_eq!(3, x);
    assert!(d > 0);
}

#[test]
fn deadline_is_start_plus_budget() {
    assert_eq!(15, deadline_after(10, 5));
    assert_eq!(10, deadline_after(10, 0));
}

#[test]
fn deadline_saturates_at_the_far_end() {
    assert_eq!(i64::MAX, deadline_after(i64::MAX - 1, 5));
    assert_eq!(i64::MAX, deadline_after(i64::MAX, i64::MAX));
}

#[test]
fn millis_between_is_the_signed_span() {
    assert_eq!(15, millis_between(5, 20));
    assert_eq!(-15, millis_between(20, 5));
    assert_eq!(0, millis_between(7, 7));
}

#[test]
fn millis_between_saturates_on_clock_jumps() {
    assert_eq!(i64::MAX, millis_between(i64::MIN, i64::MAX));
    assert_eq!(i64::MIN, millis_between(i64::MAX, i64::MIN));
}
