use vstd::prelude::*;

verus! {

/// The receiving endpoint of a crossbeam channel, as declared by
/// `crossbeam::channel::Receiver`. The endpoint is shared with concurrent
/// senders, so what it will yield is opaque here: any receive may observe an
/// item that another thread put in a moment earlier.
#[verifier::external_type_specification]
#[verifier::external_body]
#[verifier::reject_recursive_types(T)]
pub struct ExReceiver<T>(crossbeam::channel::Receiver<T>);

/// One bounded-wait receive attempt.
///
/// Relies on `crossbeam::channel::Receiver::recv_timeout`: it yields an item
/// if one becomes available within the timeout, and fails on a timeout or on
/// an empty, disconnected channel. Which of those happens depends on
/// concurrent senders and on real time, so nothing is promised of the result.
#[verifier::external_body]
pub(crate) fn recv_within<T>(
    receiver: &crossbeam::channel::Receiver<T>,
    timeout_ms: u64,
) -> Option<T> {
    receiver.recv_timeout(std::time::Duration::from_millis(timeout_ms)).ok()
}

/// One blocking receive.
///
/// Relies on `crossbeam::channel::Receiver::recv`: it blocks until an item
/// arrives (`Some`) or until the channel is empty and disconnected (`None`).
/// Whether an item ever arrives depends on concurrent senders, so nothing is
/// promised of the result.
#[verifier::external_body]
pub(crate) fn recv_blocking<T>(receiver: &crossbeam::channel::Receiver<T>) -> Option<T> {
    receiver.recv().ok()
}

/// A non-blocking emptiness check.
///
/// Relies on `crossbeam::channel::Receiver::is_empty`: whether the channel
/// held no item at some instant during the call. Concurrent senders may make
/// the answer stale immediately, so nothing is promised of the result.
#[verifier::external_body]
pub(crate) fn channel_is_empty<T>(receiver: &crossbeam::channel::Receiver<T>) -> bool {
    receiver.is_empty()
}

} // verus!
