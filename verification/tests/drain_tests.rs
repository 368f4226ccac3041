use crossbeam::channel;
use timed_drain::drain::apply_until_empty;
use timed_drain::drain::collect_for_duration;
use timed_drain::drain::count_for_duration;
use timed_drain::drain::drain_until_empty;
use timed_drain::drain::take_until_first_gap;
use timed_drain::drain::DrainError;
use timed_drain::drain::UntilEmptyEvent;

#[test]
fn test_count_over_duration() {
    let (s, r) = channel::unbounded::<bool>();
    s.send(true).unwrap();
    s.send(true).unwrap();
    s.send(true).unwrap();
    s.send(true).unwrap();

    assert_eq!(4, count_for_duration(&r, 5000));
}

#[test]
fn test_count_until_empty() {
    let (s, r) = channel::unbounded::<bool>();
    s.send(true).unwrap();
    s.send(true).unwrap();
    s.send(true).unwrap();
    s.send(true).unwrap();

    assert_eq!(4, drain_until_empty(&r).unwrap());
}

#[test]
fn test_collect_over_duration() {
    let (s, r) = channel::unbounded::<bool>();
    s.send(true).unwrap();
    s.send(true).unwrap();
    s.send(true).unwrap();
    s.send(true).unwrap();

    assert_eq!([true; 4].to_vec(), collect_for_duration(&r, 5000));
}

#[test]
fn count_on_silent_channel_returns_zero_before_budget() {
    let (_s, r) = channel::unbounded::<u8>();
    let started = std::time::Instant::now();
    assert_eq!(0, count_for_duration(&r, 5000));
    // stops at the first silent poll, well before the 5-second budget
    assert!(started.elapsed() < std::time::Duration::from_secs(2));
}

#[test]
fn count_with_zero_budget_returns_zero() {
    let (s, r) = channel::unbounded::<u8>();
    s.send(7).unwrap();
    assert_eq!(0, count_for_duration(&r, 0));
}

#[test]
fn collect_preserves_send_order() {
    let (s, r) = channel::unbounded::<u32>();
    s.send(1).unwrap();
    s.send(2).unwrap();
    s.send(3).unwrap();
    s.send(4).unwrap();

    assert_eq!(vec![1, 2, 3, 4], collect_for_duration(&r, 5000));
}

#[test]
fn drain_leaves_channel_empty() {
    let (s, r) = channel::unbounded::<u32>();
    s.send(1).unwrap();
    s.send(2).unwrap();
    s.send(3).unwrap();
    s.send(4).unwrap();

    assert_eq!(4, drain_until_empty(&r).unwrap());
    assert!(r.is_empty());
}

#[test]
fn drain_on_empty_channel_returns_zero_immediately() {
    let (_s, r) = channel::unbounded::<u32>();
    let started = std::time::Instant::now();
    assert_eq!(0, drain_until_empty(&r).unwrap());
    assert!(started.elapsed() < std::time::Duration::from_secs(2));
}

#[test]
fn drain_twice_returns_zero_the_second_time() {
    let (s, r) = channel::unbounded::<u32>();
    s.send(1).unwrap();
    s.send(2).unwrap();
    s.send(3).unwrap();
    s.send(4).unwrap();

    assert_eq!(4, drain_until_empty(&r).unwrap());
    assert_eq!(0, drain_until_empty(&r).unwrap());
}

#[test]
fn policy_takes_everything_when_no_gap() {
    let polls = vec![Some(10), Some(20), Some(30)];
    assert_eq!(vec![10, 20, 30], take_until_first_gap(polls));
}

#[test]
fn policy_stops_at_first_gap() {
    let polls = vec![Some(10), Some(20), None, Some(30)];
    assert_eq!(vec![10, 20], take_until_first_gap(polls));
}

#[test]
fn policy_takes_nothing_after_immediate_gap() {
    let polls: Vec<Option<u8>> = vec![None, Some(1), Some(2)];
    assert_eq!(Vec::<u8>::new(), take_until_first_gap(polls));
}

#[test]
fn until_empty_policy_counts_items_before_the_empty_observation() {
    let events = vec![
        UntilEmptyEvent::Received(10),
        UntilEmptyEvent::Received(20),
        UntilEmptyEvent::Received(30),
        UntilEmptyEvent::Received(40),
        UntilEmptyEvent::ObservedEmpty,
    ];
    assert_eq!(Ok(4), apply_until_empty(events));
}

#[test]
fn until_empty_policy_yields_zero_on_an_empty_first_observation() {
    let events: Vec<UntilEmptyEvent<u8>> = vec![UntilEmptyEvent::ObservedEmpty];
    assert_eq!(Ok(0), apply_until_empty(events));
}

#[test]
fn until_empty_policy_surfaces_a_disconnection() {
    let events = vec![
        UntilEmptyEvent::Received(10),
        UntilEmptyEvent::FoundDisconnected,
    ];
    assert_eq!(Err(DrainError::Disconnected), apply_until_empty(events));
}
