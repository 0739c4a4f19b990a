//! When to ask for a day's results: the poller's decisions, with times as seconds
//! since the Unix epoch.

use vstd::prelude::*;

verus! {

/// Seconds between polls in the first hour after results are due.
pub const POLL_INTERVAL_FAST: i64 = 300;
/// Seconds between polls after that.
pub const POLL_INTERVAL_SLOW: i64 = 3600;
/// How long after results are due the fast polling lasts.
pub const POLL_FAST_DURATION: i64 = 3600;
/// The first wait after an error, in seconds.
pub const ERROR_RETRY_WAIT: i64 = 15;
/// How much longer each following wait after an error is.
pub const ERROR_RETRY_MULTIPLIER: i64 = 2;
/// Japan's offset from UTC, in seconds.
pub const JST_OFFSET: i64 = 32400;
/// When in the day, Japan time, results start being polled for: 18:00.
pub const POLL_START_JST: i64 = 64800;
/// Seconds in a day.
pub const DAY_SECONDS: i64 = 86400;

/// When polling for day `day` starts: 18:00 Japan time on the basho's `day`-th
/// day, counting the day (in Japan) that the basho starts on as the first.
pub open spec fn poll_start(basho_start: int, day: int) -> int {
    ((basho_start + JST_OFFSET) / (DAY_SECONDS as int) + day - 1) * DAY_SECONDS + POLL_START_JST - JST_OFFSET
}

/// When to poll next for day `day`: at its start when that is still ahead; then
/// every five minutes for an hour; then every hour.
pub open spec fn spec_next_poll(basho_start: int, day: int, now: int) -> int {
    let start = poll_start(basho_start, day);
    if now < start {
        start
    } else if now < start + POLL_FAST_DURATION {
        now + POLL_INTERVAL_FAST
    } else {
        now + POLL_INTERVAL_SLOW
    }
}

/// Are the times small enough to compute with (within some ten thousand years
/// of 1970)?
pub open spec fn times_fit(basho_start: int, now: int) -> bool {
    -400_000_000_000 <= basho_start <= 400_000_000_000 && -400_000_000_000 <= now <= 400_000_000_000
}

/// When to poll next for day `day` of a basho that started at `basho_start`.
pub fn next_poll_time(basho_start: i64, day: u8, now: i64) -> (t: i64)
    requires
        day >= 1,
        times_fit(basho_start as int, now as int),
    ensures
        t == spec_next_poll(basho_start as int, day as int, now as int),
{
    let local = basho_start + JST_OFFSET;
    let local_day = if local >= 0 {
        local / DAY_SECONDS
    } else {
        -((-local + DAY_SECONDS - 1) / DAY_SECONDS)
    };
    assert(local_day == (basho_start + JST_OFFSET) / 86400int) by (nonlinear_arith)
        requires
            local == basho_start + JST_OFFSET,
            local >= 0 ==> local_day == (local as int) / 86400int,
            local < 0 ==> local_day == -((-(local as int) + 86399) / 86400int),
    {
        if local < 0 {
            let q = (-(local as int) + 86399) / 86400int;
            let r = (-(local as int) + 86399) % 86400int;
            assert(-(local as int) + 86399 == q * 86400 + r);
            assert(local == -q * 86400 + (86399 - r));
        }
    }
    let start = (local_day + (day as i64) - 1) * DAY_SECONDS + POLL_START_JST - JST_OFFSET;
    if now < start {
        start
    } else if now < start + POLL_FAST_DURATION {
        now + POLL_INTERVAL_FAST
    } else {
        now + POLL_INTERVAL_SLOW
    }
}

/// What a tick of the poller does.
#[derive(Debug, PartialEq, Eq, Structural, Clone, Copy)]
pub enum TickStep {
    /// All fifteen days are in but the basho is not finalized: wait a day.
    WaitADay,
    /// Ask for the results of this day.
    Query(u8),
}

/// What to do given the last day with results on record.
pub fn tick_step(last_day: u8) -> (s: TickStep)
    requires
        last_day < 255,
    ensures
        s == if last_day + 1 > 15 { TickStep::WaitADay } else { TickStep::Query((last_day + 1) as u8) },
{
    let day = last_day + 1;
    if day > 15 {
        TickStep::WaitADay
    } else {
        TickStep::Query(day)
    }
}

/// When to poll after asking for day `day`: for the next day once this day is
/// complete, otherwise for this day again.
pub fn after_query(basho_start: i64, day: u8, complete: bool, now: i64) -> (t: i64)
    requires
        1 <= day < 255,
        times_fit(basho_start as int, now as int),
    ensures
        t == spec_next_poll(basho_start as int, if complete { day + 1 } else { day as int }, now as int),
{
    if complete {
        next_poll_time(basho_start, day + 1, now)
    } else {
        next_poll_time(basho_start, day, now)
    }
}

/// When to poll when a day's results are all in but the basho is not finalized.
pub fn after_last_day(now: i64) -> (t: i64)
    requires
        times_fit(0, now as int),
    ensures
        t == now + DAY_SECONDS,
{
    now + DAY_SECONDS
}

/// The wait after one more error: twice the last.
pub fn next_retry_wait(wait: i64) -> (w: i64)
    requires
        0 <= wait <= i64::MAX / 2,
    ensures
        w == wait * ERROR_RETRY_MULTIPLIER,
{
    wait * ERROR_RETRY_MULTIPLIER
}

} // verus!
