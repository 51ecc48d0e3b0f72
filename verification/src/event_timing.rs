//! Shared time-state rules for events on a day. All-day and cancelled events are never
//! the "next meeting".

use vstd::prelude::*;

verus! {

/// Where an event stands relative to the current minute of the day.
#[derive(Clone, Copy, Debug, PartialEq, Eq, Structural)]
pub enum Timing {
    AllDay,
    Ended,
    Ongoing,
    Upcoming,
    Cancelled,
}

/// `i32::saturating_add`: the sum, held to the range of `i32`.
pub open spec fn sat_add_i32(a: int, b: int) -> int {
    if a + b > i32::MAX {
        i32::MAX as int
    } else if a + b < i32::MIN {
        i32::MIN as int
    } else {
        a + b
    }
}

/// The timing of an event starting at minute `start` for `duration` minutes (at least one),
/// seen at minute `now`: cancelled and all-day events first, then ended once the end is
/// reached, ongoing once the start is reached, otherwise upcoming.
pub open spec fn timing_of(start: int, duration: int, all_day: bool, cancelled: bool, now: int) -> Timing {
    let d = if duration > 1 {
        duration
    } else {
        1
    };
    if cancelled {
        Timing::Cancelled
    } else if all_day {
        Timing::AllDay
    } else if sat_add_i32(start, d) <= now {
        Timing::Ended
    } else if start <= now {
        Timing::Ongoing
    } else {
        Timing::Upcoming
    }
}

pub fn classify(start: i32, duration: i32, all_day: bool, cancelled: bool, now: i32) -> (t: Timing)
    ensures
        t == timing_of(start as int, duration as int, all_day, cancelled, now as int),
{
    if cancelled {
        Timing::Cancelled
    } else if all_day {
        Timing::AllDay
    } else {
        let d: i64 = if duration > 1 {
            duration as i64
        } else {
            1
        };
        let sum: i64 = start as i64 + d;
        let end: i64 = if sum > i32::MAX as i64 {
            i32::MAX as i64
        } else {
            sum
        };
        if end <= now as i64 {
            Timing::Ended
        } else if start <= now {
            Timing::Ongoing
        } else {
            Timing::Upcoming
        }
    }
}

} // verus!
