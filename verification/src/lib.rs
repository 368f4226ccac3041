//! Consumer-side polling policies over a concurrent channel, together with
//! small verified helpers for tallying collections and timing operations.
//!
//! The heart is the drain module: it pulls items out of a
//! `crossbeam::channel::Receiver` under a time budget or until the channel
//! reports itself empty, never blocking longer than one poll interval per
//! attempt. Time is handled as plain milliseconds; the ambient clock and the
//! channel itself stay behind small trusted wrappers.

pub mod associate;
pub mod channel;
pub mod clock;
pub mod counting;
pub mod drain;
pub mod timing;
