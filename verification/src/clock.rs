use vstd::prelude::*;
use crate::timestamp::Timestamp;
use crate::timestamp::path_of;

verus! {

/// Relies on chrono::Local::now, read through chrono's Datelike and
/// Timelike accessors: month() ranges 1 to 12, day() 1 to 31, hour() 0 to
/// 23 and minute() 0 to 59. year() is the proleptic Gregorian year and has
/// no such narrow range. chrono aborts inside this call when the system
/// clock stands before the Unix epoch or past chrono's maximum year.
#[verifier::external_body]
fn local_clock() -> (t: (i64, u32, u32, u32, u32))
    ensures
        1 <= t.1 <= 12,
        1 <= t.2 <= 31,
        t.3 <= 23,
        t.4 <= 59,
{
    let now = chrono::Local::now();
    (
        chrono::Datelike::year(&now) as i64,
        chrono::Datelike::month(&now),
        chrono::Datelike::day(&now),
        chrono::Timelike::hour(&now),
        chrono::Timelike::minute(&now),
    )
}

/// Package raw clock components as a timestamp: exactly the years 0
/// through 9999 fit the four-digit storage scheme, every other year is
/// rejected.
pub fn timestamp_of_clock(year: i64, month: u32, day: u32, hour: u32, minute: u32) -> (r: Option<
    Timestamp,
>)
    requires
        1 <= month <= 12,
        1 <= day <= 31,
        hour <= 23,
        minute <= 59,
    ensures
        0 <= year <= 9999 ==> r == Some(Timestamp { year: year as u32, month, day, hour, minute }),
        !(0 <= year <= 9999) ==> r is None,
{
    if 0 <= year && year <= 9999 {
        Some(Timestamp { year: year as u32, month, day, hour, minute })
    } else {
        None
    }
}

/// The current local time at minute precision. Every returned timestamp is
/// valid; which instant comes back depends on the clock. `None` only when
/// the clock reports a year outside the four-digit storage scheme.
pub fn now_timestamp() -> (r: Option<Timestamp>)
    ensures
        r matches Some(t) ==> t.valid(),
{
    let (year, month, day, hour, minute) = local_clock();
    timestamp_of_clock(year, month, day, hour, minute)
}

/// The current local time together with the storage path a note created at
/// it gets: `path_of` applied to that time. `None` only when the clock
/// reports a year outside the four-digit storage scheme.
pub fn current_note() -> (r: Option<(Timestamp, String)>)
    ensures
        r matches Some(tp) ==> tp.0.valid() && tp.1@ == path_of(tp.0),
{
    match now_timestamp() {
        Some(t) => {
            let p = t.derive_path();
            Some((t, p))
        },
        None => None,
    }
}

} // verus!
