use vstd::prelude::*;

verus! {

/// Milliseconds of wall-clock time since the Unix epoch.
///
/// Relies on chrono's `From<SystemTime>` conversion and
/// `chrono::DateTime::timestamp_millis`. The conversion handles a clock set
/// before the epoch by yielding a negative timestamp instead of failing, as
/// `chrono::Utc::now` would. The reading comes from the ambient wall clock,
/// so nothing is promised about the value; in particular two successive
/// readings need not increase.
#[verifier::external_body]
pub(crate) fn now_millis() -> i64 {
    chrono::DateTime::<chrono::Utc>::from(std::time::SystemTime::now()).timestamp_millis()
}

/// The absolute deadline lying `budget_ms` after `start_ms`, saturating at
/// the far end of the representable range.
pub fn deadline_after(start_ms: i64, budget_ms: i64) -> (deadline_ms: i64)
    requires
        budget_ms >= 0,
    ensures
        deadline_ms == if start_ms + budget_ms <= i64::MAX {
            start_ms + budget_ms
        } else {
            i64::MAX as int
        },
        deadline_ms >= start_ms,
{
    if start_ms <= i64::MAX - budget_ms {
        start_ms + budget_ms
    } else {
        i64::MAX
    }
}

/// The span from `start_ms` to `end_ms`, saturating at the ends of the
/// representable range when the wall clock has jumped too far.
pub fn millis_between(start_ms: i64, end_ms: i64) -> (span_ms: i64)
    ensures
        span_ms == if end_ms - start_ms > i64::MAX {
            i64::MAX as int
        } else if end_ms - start_ms < i64::MIN {
            i64::MIN as int
        } else {
            end_ms - start_ms
        },
{
    if end_ms >= start_ms {
        if start_ms >= 0 || end_ms <= i64::MAX + start_ms {
            end_ms - start_ms
        } else {
            i64::MAX
        }
    } else {
        if start_ms <= 0 || end_ms >= i64::MIN + start_ms {
            end_ms - start_ms
        } else {
            i64::MIN
        }
    }
}

} // verus!
