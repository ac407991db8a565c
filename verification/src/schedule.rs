//! The nightly renewal window: renewals run once a day, in the hour after
//! midnight, at a random moment of what is left of that hour.
use vstd::prelude::*;

use crate::router::random_below;

verus! {

/// What the renewal loop does at a tick.
#[derive(Debug, PartialEq, Eq, Structural)]
pub enum RenewalTick {
    /// Nothing now.
    Wait,
    /// Run today's renewals within this many seconds.
    Run(u32),
}

/// Renewals are due at a tick in hour 0 of a day that has not had its run;
/// the window is what is left of that hour.
pub open spec fn renewal_tick_spec(hour: u32, minute: u32, second: u32, today: i32, last_run: Option<i32>) -> RenewalTick {
    if hour != 0 || last_run == Some(today) {
        RenewalTick::Wait
    } else if minute * 60 + second >= 3600 {
        RenewalTick::Run(0)
    } else {
        RenewalTick::Run((3600 - (minute * 60 + second)) as u32)
    }
}

/// See [`renewal_tick_spec`]; `today` identifies the local date.
pub fn renewal_tick(hour: u32, minute: u32, second: u32, today: i32, last_run: Option<i32>) -> (r: RenewalTick)
    requires
        minute < 60,
        second < 61,
    ensures
        r == renewal_tick_spec(hour, minute, second, today, last_run),
{
    if hour != 0 {
        return RenewalTick::Wait;
    }
    if last_run == Some(today) {
        return RenewalTick::Wait;
    }
    let elapsed = minute * 60 + second;
    RenewalTick::Run(3600u32.saturating_sub(elapsed))
}

/// How long to wait inside a window: a random number of seconds below it
/// (none for an empty window).
pub fn renewal_delay(window: u32) -> (r: u32)
    ensures
        window == 0 ==> r == 0,
        window > 0 ==> r < window,
{
    if window == 0 {
        0
    } else {
        random_below(window)
    }
}


/// Renewals start inside the hour after midnight: once a tick decides to
/// run, the chosen delay ends before 01:00 (or at once, when no time of the
/// hour is left).
pub proof fn renewal_within_first_hour(hour: u32, minute: u32, second: u32, today: i32, last_run: Option<i32>, delay: u32)
    requires
        minute < 60,
        second < 61,
        renewal_tick_spec(hour, minute, second, today, last_run) matches RenewalTick::Run(w) && ((w == 0
            && delay == 0) || delay < w),
    ensures
        hour == 0,
        last_run != Some(today),
        minute * 60 + second + delay <= 3600,
        minute * 60 + second < 3600 ==> minute * 60 + second + delay < 3600,
{
}
} // verus!
