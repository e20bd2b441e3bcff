//! The deadline of a search.

use std::time::Duration;
use std::time::Instant;
use vstd::prelude::*;

verus! {

/// A reading of the clock of the standard library. It is only carried
/// along.
#[verifier::external_type_specification]
#[verifier::external_body]
pub struct ExInstant(std::time::Instant);

/// The longest time in milliseconds that one search may take.
pub const LONGEST_SEARCH_MS: u128 = 40_000;

/// The share of the remaining time that one search may take.
pub const TIME_SHARE: u128 = 40;

/// The time in milliseconds that a search may take when `time_left_ms` are
/// left on the clock: a fortieth of what is left, at most forty seconds, and
/// at most `time_limit_ms` where that is given.
pub open spec fn allotted_time(time_left_ms: u128, time_limit_ms: Option<u128>) -> u128 {
    let share = time_left_ms / TIME_SHARE;
    let capped = if share < LONGEST_SEARCH_MS {
        share
    } else {
        LONGEST_SEARCH_MS
    };
    match time_limit_ms {
        Some(limit) => if limit < capped {
            limit
        } else {
            capped
        },
        None => capped,
    }
}

/// The time in milliseconds that a search may take.
pub fn time_budget(time_left_ms: u128, time_limit_ms: Option<u128>) -> (r: u64)
    ensures
        r == allotted_time(time_left_ms, time_limit_ms),
        r <= LONGEST_SEARCH_MS,
{
    let share = time_left_ms / TIME_SHARE;
    let capped = if share < LONGEST_SEARCH_MS {
        share
    } else {
        LONGEST_SEARCH_MS
    };
    let budget = match time_limit_ms {
        Some(limit) => if limit < capped {
            limit
        } else {
            capped
        },
        None => capped,
    };
    budget as u64
}

/// Reads the clock. This is `Instant::now` of the standard library; nothing
/// is claimed of what it returns.
#[verifier::external_body]
fn clock_now() -> Instant {
    Instant::now()
}

/// The time that has passed since `start`. This is `Instant::elapsed` of
/// the standard library; nothing is claimed of what it returns.
#[verifier::external_body]
fn clock_elapsed(start: &Instant) -> Duration {
    start.elapsed()
}

/// A span of time in whole milliseconds. This is `Duration::as_millis` of
/// the standard library; nothing is claimed of what it returns.
#[verifier::external_body]
fn clock_millis(span: &Duration) -> u128 {
    span.as_millis()
}

/// The moment at which a search began and the time that it may take.
pub struct Deadline {
    pub start: Instant,
    pub budget_ms: u64,
}

impl Deadline {
    /// A deadline that lies `budget_ms` milliseconds after now.
    pub fn after(budget_ms: u64) -> (r: Deadline)
        ensures
            r.budget_ms == budget_ms,
    {
        Deadline { start: clock_now(), budget_ms }
    }

    /// The milliseconds that have passed since the search began.
    pub fn elapsed_ms(&self) -> u128 {
        let span = clock_elapsed(&self.start);
        clock_millis(&span)
    }

    /// Whether the clock says that the time is up; with no time to take it always is.
    pub fn reached(&self) -> (r: bool)
        ensures
            self.budget_ms == 0 ==> r,
    {
        time_is_up(self.elapsed_ms(), self.budget_ms)
    }
}

/// Whether a search that may take `budget_ms` milliseconds and has taken
/// `elapsed_ms` has used its time up.
pub open spec fn used_up(elapsed_ms: u128, budget_ms: u64) -> bool {
    elapsed_ms >= budget_ms
}

/// Whether a search that may take `budget_ms` milliseconds and has taken
/// `elapsed_ms` has used its time up.
pub fn time_is_up(elapsed_ms: u128, budget_ms: u64) -> (r: bool)
    ensures
        r == used_up(elapsed_ms, budget_ms),
{
    elapsed_ms >= budget_ms as u128
}

} // verus!
