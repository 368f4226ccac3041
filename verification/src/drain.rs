//! Time-bounded draining of a concurrent channel.
//!
//! Three policies pull items out of a `crossbeam::channel::Receiver`:
//! counting or collecting under a time budget, and draining until the channel
//! reports itself empty. The duration-bounded policies stop at the first
//! silence — a single poll that yields nothing ends the drain even when
//! budget remains — not necessarily at the deadline.

use vstd::prelude::*;

use crate::channel::channel_is_empty;
use crate::channel::recv_blocking;
use crate::channel::recv_within;
use crate::clock::deadline_after;
use crate::clock::now_millis;

verus! {

/// How long a single bounded-wait receive attempt may block, in milliseconds.
pub const POLL_INTERVAL_MS: u64 = 1;

/// The one failure a drain surfaces: the channel was seen non-empty, yet the
/// blocking receive that followed found it disconnected. A sender was closed
/// concurrently with the drain.
#[derive(Clone, Copy, Debug, PartialEq, Eq, Structural)]
pub enum DrainError {
    Disconnected,
}

/// What a duration-bounded drain takes from the poll results it observes,
/// in order: every item up to, and not including, the first attempt that
/// produced none. The first gap ends the drain even when budget remains.
pub open spec fn taken_until_first_gap<T>(polls: Seq<Option<T>>) -> Seq<T>
    decreases polls.len(),
{
    if polls.len() == 0 {
        Seq::empty()
    } else {
        match polls[0] {
            Some(item) => seq![item] + taken_until_first_gap(polls.drop_first()),
            None => Seq::empty(),
        }
    }
}

/// The duration-bounded policy applied to poll results already in hand:
/// the items of the longest gap-free prefix, in their arrival order.
pub fn take_until_first_gap<T>(polls: Vec<Option<T>>) -> (items: Vec<T>)
    ensures
        items@ == taken_until_first_gap(polls@),
{
    let ghost all = polls@;
    let mut rest = polls;
    let mut items: Vec<T> = Vec::new();
    loop
        invariant_except_break
            taken_until_first_gap(all) == items@ + taken_until_first_gap(rest@),
        ensures
            items@ == taken_until_first_gap(all),
        decreases rest@.len(),
    {
        if rest.len() == 0 {
            assert(items@ =~= items@ + taken_until_first_gap(rest@));
            break;
        }
        let ghost before = rest@;
        let next = rest.remove(0);
        match next {
            Some(item) => {
                proof {
                    assert(rest@ =~= before.drop_first());
                    assert(taken_until_first_gap(before) =~= seq![item]
                        + taken_until_first_gap(rest@));
                    assert(items@ + (seq![item] + taken_until_first_gap(rest@)) =~= items@.push(
                        item,
                    ) + taken_until_first_gap(rest@));
                }
                items.push(item);
            },
            None => {
                proof {
                    assert(taken_until_first_gap(before) =~= Seq::<T>::empty());
                    assert(items@ =~= items@ + taken_until_first_gap(before));
                }
                break;
            },
        }
    }
    items
}

/// Appending one more poll to a gap-free record extends what the policy
/// takes by the polled item, or, at a gap, closes the record unchanged.
pub proof fn lemma_taken_push<T>(polls: Seq<Option<T>>, next: Option<T>)
    requires
        forall|i: int| 0 <= i < polls.len() ==> polls[i] is Some,
    ensures
        taken_until_first_gap(polls.push(next)) =~= (match next {
            Some(item) => taken_until_first_gap(polls).push(item),
            None => taken_until_first_gap(polls),
        }),
    decreases polls.len(),
{
    if polls.len() == 0 {
        match next {
            Some(item) => {
                assert(polls.push(next)[0] == next);
                assert(polls.push(next).drop_first() =~= Seq::<Option<T>>::empty());
                assert(taken_until_first_gap(Seq::<Option<T>>::empty()) =~= Seq::<T>::empty());
                assert(taken_until_first_gap(polls.push(next)) =~= seq![item] + Seq::<T>::empty());
                assert(seq![item] + Seq::<T>::empty() =~= seq![item]);
                assert(taken_until_first_gap(polls).push(item) =~= seq![item]);
            },
            None => {
                assert(polls.push(next)[0] is None);
            },
        }
    } else {
        let first = polls[0]->Some_0;
        let tail = polls.drop_first();
        assert(polls.push(next)[0] == polls[0]);
        assert(polls.push(next).drop_first() =~= tail.push(next));
        lemma_taken_push(tail, next);
        assert(taken_until_first_gap(polls.push(next)) =~= seq![first] + taken_until_first_gap(
            tail.push(next),
        ));
        assert(taken_until_first_gap(polls) =~= seq![first] + taken_until_first_gap(tail));
        match next {
            Some(item) => {
                assert(seq![first] + taken_until_first_gap(tail).push(item)
                    =~= (seq![first] + taken_until_first_gap(tail)).push(item));
            },
            None => {
            },
        }
    }
}

/// Counts how many items arrive before the budget runs out or the channel
/// first falls silent. Each attempt waits at most one poll interval; the
/// first attempt that yields nothing ends the count, even when time remains.
/// A disconnected channel ends it the same way. How many items arrive in
/// time depends on concurrent senders and the wall clock, so the count
/// itself cannot be pinned down here; instead the loop keeps, as a verified
/// invariant, a record of the polls observed so far, and the count equals
/// what `taken_until_first_gap` takes of that record.
pub fn count_for_duration<T>(receiver: &crossbeam::channel::Receiver<T>, budget_ms: i64) -> (count:
    i32)
    requires
        budget_ms >= 0,
    ensures
        0 <= count,
        exists|polls: Seq<Option<T>>|
            {
                &&& (forall|i: int| 0 <= i < polls.len() ==> polls[i] is Some)
                &&& count as int == taken_until_first_gap(polls).len()
            },
{
    let start: i64 = now_millis();
    let deadline: i64 = deadline_after(start, budget_ms);
    let mut count: i32 = 0;
    let ghost mut polled: Seq<Option<T>> = Seq::empty();
    loop
        invariant
            0 <= count <= i32::MAX,
            forall|i: int| 0 <= i < polled.len() ==> polled[i] is Some,
            count as int == taken_until_first_gap(polled).len(),
        ensures
            0 <= count,
            forall|i: int| 0 <= i < polled.len() ==> polled[i] is Some,
            count as int == taken_until_first_gap(polled).len(),
        decreases i32::MAX - count,
    {
        if now_millis() >= deadline {
            break;
        }
        match recv_within(receiver, POLL_INTERVAL_MS) {
            Some(item) => {
                if count == i32::MAX {
                    break;
                }
                proof {
                    lemma_taken_push(polled, Some(item));
                    polled = polled.push(Some(item));
                }
                count = count + 1;
            },
            None => {
                break;
            },
        }
    }
    proof {
        assert((forall|i: int| 0 <= i < polled.len() ==> polled[i] is Some) && count as int
            == taken_until_first_gap(polled).len());
    }
    count
}

/// Collects the items that arrive before the budget runs out or the channel
/// first falls silent, in arrival order. Same termination policy as
/// `count_for_duration`: the first poll that yields nothing ends the drain.
/// Which items arrive in time is the channel's to decide; the loop keeps,
/// as a verified invariant, a record of the polls observed so far, and the
/// result equals what `taken_until_first_gap` takes of that record.
pub fn collect_for_duration<T>(
    receiver: &crossbeam::channel::Receiver<T>,
    budget_ms: i64,
) -> (items: Vec<T>)
    requires
        budget_ms >= 0,
    ensures
        exists|polls: Seq<Option<T>>|
            {
                &&& (forall|i: int| 0 <= i < polls.len() ==> polls[i] is Some)
                &&& items@ == taken_until_first_gap(polls)
            },
{
    let start: i64 = now_millis();
    let deadline: i64 = deadline_after(start, budget_ms);
    let mut items: Vec<T> = Vec::new();
    let ghost mut polled: Seq<Option<T>> = Seq::empty();
    loop
        invariant
            forall|i: int| 0 <= i < polled.len() ==> polled[i] is Some,
            items@ == taken_until_first_gap(polled),
        ensures
            forall|i: int| 0 <= i < polled.len() ==> polled[i] is Some,
            items@ == taken_until_first_gap(polled),
        decreases usize::MAX - items@.len(),
    {
        if now_millis() >= deadline {
            break;
        }
        match recv_within(receiver, POLL_INTERVAL_MS) {
            Some(item) => {
                if items.len() == usize::MAX {
                    break;
                }
                proof {
                    lemma_taken_push(polled, Some(item));
                    polled = polled.push(Some(item));
                }
                items.push(item);
            },
            None => {
                break;
            },
        }
    }
    proof {
        assert((forall|i: int| 0 <= i < polled.len() ==> polled[i] is Some) && items@
            == taken_until_first_gap(polled));
    }
    items
}

/// One round of the until-empty drain, as observed at the channel: the
/// emptiness check reported empty; or it reported an item and the blocking
/// receive that followed produced one; or it reported an item and the
/// receive then found the channel disconnected.
pub enum UntilEmptyEvent<T> {
    ObservedEmpty,
    Received(T),
    FoundDisconnected,
}

/// What the until-empty drain yields of the rounds it observes: the number
/// of items received before the first empty observation, or the
/// disconnection error if a receive failed before one.
pub open spec fn drained_until_empty<T>(events: Seq<UntilEmptyEvent<T>>) -> Result<
    int,
    DrainError,
>
    decreases events.len(),
{
    if events.len() == 0 {
        Ok(0)
    } else {
        match events[0] {
            UntilEmptyEvent::ObservedEmpty => Ok(0),
            UntilEmptyEvent::FoundDisconnected => Err(DrainError::Disconnected),
            UntilEmptyEvent::Received(_) => match drained_until_empty(events.drop_first()) {
                Ok(n) => Ok(n + 1),
                Err(e) => Err(e),
            },
        }
    }
}

/// The until-empty policy applied to rounds already in hand: how many items
/// it keeps of them, or the error it surfaces.
#[verifier::loop_isolation(false)]
pub fn apply_until_empty<T>(events: Vec<UntilEmptyEvent<T>>) -> (outcome: Result<
    usize,
    DrainError,
>)
    ensures
        drained_until_empty(events@) == (match outcome {
            Ok(n) => Ok::<int, DrainError>(n as int),
            Err(e) => Err::<int, DrainError>(e),
        }),
{
    let ghost all = events@;
    let mut rest = events;
    // pins all.len() within usize, which bounds the running count below
    let _total: usize = rest.len();
    let mut count: usize = 0;
    loop
        invariant
            count + rest@.len() <= all.len(),
            all.len() <= usize::MAX,
            (match drained_until_empty(rest@) {
                Ok(n) => drained_until_empty(all) == Ok::<int, DrainError>(n + count),
                Err(e) => drained_until_empty(all) == Err::<int, DrainError>(e),
            }),
        decreases rest@.len(),
    {
        if rest.len() == 0 {
            return Ok(count);
        }
        let ghost before = rest@;
        let event = rest.remove(0);
        match event {
            UntilEmptyEvent::ObservedEmpty => {
                proof {
                    assert(drained_until_empty(before) == Ok::<int, DrainError>(0));
                }
                return Ok(count);
            },
            UntilEmptyEvent::Received(_) => {
                proof {
                    assert(before.drop_first() =~= rest@);
                }
                count = count + 1;
            },
            UntilEmptyEvent::FoundDisconnected => {
                proof {
                    assert(drained_until_empty(before) == Err::<int, DrainError>(
                        DrainError::Disconnected,
                    ));
                }
                return Err(DrainError::Disconnected);
            },
        }
    }
}

/// Draining a channel whose rounds produce k items and then an empty
/// observation counts exactly k: a channel pre-loaded with k items and no
/// concurrent sends is counted in full, and the drain leaves it empty.
pub proof fn lemma_until_empty_counts_received<T>(events: Seq<UntilEmptyEvent<T>>, k: int)
    requires
        0 <= k,
        events.len() == k + 1,
        forall|i: int| 0 <= i < k ==> events[i] is Received,
        events[k] is ObservedEmpty,
    ensures
        drained_until_empty(events) == Ok::<int, DrainError>(k),
    decreases k,
{
    if k > 0 {
        let tail = events.drop_first();
        assert forall|i: int| 0 <= i < k - 1 implies tail[i] is Received by {
            assert(tail[i] == events[i + 1]);
        }
        assert(tail[k - 1] is ObservedEmpty);
        lemma_until_empty_counts_received(tail, k - 1);
    }
}

/// A drain whose first observation finds the channel empty yields zero at
/// once and takes nothing: so a second drain right after one that emptied
/// the channel yields zero.
pub proof fn lemma_until_empty_on_empty_is_zero<T>(events: Seq<UntilEmptyEvent<T>>)
    requires
        events.len() > 0,
        events[0] is ObservedEmpty,
    ensures
        drained_until_empty(events) == Ok::<int, DrainError>(0),
{
}

/// A disconnection found mid-drain surfaces as the error, never as a count.
pub proof fn lemma_until_empty_disconnection_surfaces<T>(events: Seq<UntilEmptyEvent<T>>, k: int)
    requires
        0 <= k < events.len(),
        forall|i: int| 0 <= i < k ==> events[i] is Received,
        events[k] is FoundDisconnected,
    ensures
        drained_until_empty(events) == Err::<int, DrainError>(DrainError::Disconnected),
    decreases k,
{
    if k > 0 {
        lemma_until_empty_disconnection_surfaces(events.drop_first(), k - 1);
    }
}

/// A record of received items alone counts each of them.
proof fn lemma_until_empty_all_received<T>(events: Seq<UntilEmptyEvent<T>>)
    requires
        forall|i: int| 0 <= i < events.len() ==> events[i] is Received,
    ensures
        drained_until_empty(events) == Ok::<int, DrainError>(events.len() as int),
    decreases events.len(),
{
    if events.len() > 0 {
        lemma_until_empty_all_received(events.drop_first());
    }
}

/// Drains the channel until its emptiness check reports empty, and returns
/// how many items were taken. A concurrent sender may slip an item in
/// between two checks; such an item is drained too — this drains until
/// emptiness is observed once, not to a point-in-time snapshot. If the
/// channel is found disconnected after a check reported it non-empty, that
/// violated assumption is surfaced as `DrainError::Disconnected` rather
/// than swallowed. What the rounds produce is the channel's to decide; the
/// loop keeps, as a verified invariant, a record of the rounds observed so
/// far, and the outcome is what `drained_until_empty` yields of it.
pub fn drain_until_empty<T>(receiver: &crossbeam::channel::Receiver<T>) -> (outcome: Result<
    i64,
    DrainError,
>)
    ensures
        outcome matches Ok(n) ==> n >= 0,
        exists|rounds: Seq<UntilEmptyEvent<T>>|
            drained_until_empty(rounds) == (match outcome {
                Ok(n) => Ok::<int, DrainError>(n as int),
                Err(e) => Err::<int, DrainError>(e),
            }),
{
    let mut count: i64 = 0;
    let ghost mut rounds: Seq<UntilEmptyEvent<T>> = Seq::empty();
    loop
        invariant
            0 <= count <= i64::MAX,
            forall|i: int| 0 <= i < rounds.len() ==> rounds[i] is Received,
            count as int == rounds.len(),
        ensures
            0 <= count,
            forall|i: int| 0 <= i < rounds.len() ==> rounds[i] is Received,
            count as int == rounds.len(),
        decreases i64::MAX - count,
    {
        if channel_is_empty(receiver) {
            break;
        }
        match recv_blocking(receiver) {
            Some(item) => {
                if count == i64::MAX {
                    break;
                }
                proof {
                    rounds = rounds.push(UntilEmptyEvent::Received(item));
                }
                count = count + 1;
            },
            None => {
                proof {
                    let witness = rounds.push(UntilEmptyEvent::<T>::FoundDisconnected);
                    lemma_until_empty_disconnection_surfaces(witness, rounds.len() as int);
                }
                return Err(DrainError::Disconnected);
            },
        }
    }
    proof {
        lemma_until_empty_all_received(rounds);
    }
    Ok(count)
}

/// What the policy takes is exactly the stretch before the first silence:
/// there is a cut so that every attempt before it produced an item, the
/// attempt at the cut (when one was made) produced none, and the result is
/// the items before the cut, in arrival order.
pub proof fn lemma_policy_stops_at_first_silence<T>(polls: Seq<Option<T>>)
    ensures
        exists|k: int|
            {
                &&& 0 <= k <= polls.len()
                &&& (forall|i: int| 0 <= i < k ==> polls[i] is Some)
                &&& (k < polls.len() ==> polls[k] is None)
                &&& taken_until_first_gap(polls).len() == k
                &&& (forall|i: int|
                    0 <= i < k ==> taken_until_first_gap(polls)[i] == polls[i]->Some_0)
            },
    decreases polls.len(),
{
    if polls.len() == 0 {
        let k: int = 0;
        assert({
            &&& 0 <= k <= polls.len()
            &&& (forall|i: int| 0 <= i < k ==> polls[i] is Some)
            &&& (k < polls.len() ==> polls[k] is None)
            &&& taken_until_first_gap(polls).len() == k
            &&& (forall|i: int| 0 <= i < k ==> taken_until_first_gap(polls)[i] == polls[i]->Some_0)
        });
    } else if polls[0] is None {
        let k: int = 0;
        assert({
            &&& 0 <= k <= polls.len()
            &&& (forall|i: int| 0 <= i < k ==> polls[i] is Some)
            &&& (k < polls.len() ==> polls[k] is None)
            &&& taken_until_first_gap(polls).len() == k
            &&& (forall|i: int| 0 <= i < k ==> taken_until_first_gap(polls)[i] == polls[i]->Some_0)
        });
    } else {
        let tail = polls.drop_first();
        lemma_policy_stops_at_first_silence(tail);
        let j: int = choose|j: int|
            {
                &&& 0 <= j <= tail.len()
                &&& (forall|i: int| 0 <= i < j ==> tail[i] is Some)
                &&& (j < tail.len() ==> tail[j] is None)
                &&& taken_until_first_gap(tail).len() == j
                &&& (forall|i: int|
                    0 <= i < j ==> taken_until_first_gap(tail)[i] == tail[i]->Some_0)
            };
        let k: int = j + 1;
        assert(taken_until_first_gap(polls) =~= seq![polls[0]->Some_0] + taken_until_first_gap(
            tail,
        ));
        assert forall|i: int| 0 <= i < k implies polls[i] is Some by {
            if i > 0 {
                assert(polls[i] == tail[i - 1]);
            }
        }
        assert forall|i: int| 0 <= i < k implies taken_until_first_gap(polls)[i] == polls[i]
            ->Some_0 by {
            if i > 0 {
                assert(taken_until_first_gap(polls)[i] == taken_until_first_gap(tail)[i - 1]);
                assert(polls[i] == tail[i - 1]);
            }
        }
        assert({
            &&& 0 <= k <= polls.len()
            &&& (forall|i: int| 0 <= i < k ==> polls[i] is Some)
            &&& (k < polls.len() ==> polls[k] is None)
            &&& taken_until_first_gap(polls).len() == k
            &&& (forall|i: int| 0 <= i < k ==> taken_until_first_gap(polls)[i] == polls[i]->Some_0)
        });
    }
}

/// When every poll attempt produces an item — no gap opens before the
/// deadline — the duration-bounded policy takes all of them, in the order
/// they arrived.
pub proof fn lemma_no_gap_takes_everything<T>(polls: Seq<Option<T>>)
    requires
        forall|i: int| 0 <= i < polls.len() ==> polls[i] is Some,
    ensures
        taken_until_first_gap(polls).len() == polls.len(),
        forall|i: int|
            0 <= i < polls.len() ==> taken_until_first_gap(polls)[i] == polls[i]->Some_0,
    decreases polls.len(),
{
    if polls.len() > 0 {
        lemma_no_gap_takes_everything(polls.drop_first());
    }
}

/// A drain that meets a gap at once takes nothing: on a channel that stays
/// empty the policy returns an empty result after a single poll interval,
/// not after the whole budget.
pub proof fn lemma_immediate_gap_takes_nothing<T>(polls: Seq<Option<T>>)
    requires
        polls.len() > 0,
        polls[0] is None,
    ensures
        taken_until_first_gap(polls) =~= Seq::<T>::empty(),
{
}

} // verus!
