use vstd::prelude::*;

pub mod audio;
pub mod calendar;
pub mod calls;
pub mod commands;
pub mod date;
pub mod db;
pub mod export;
pub mod granola;
pub mod jobs;
pub mod keys;
pub mod paths;
pub mod protocol;
pub mod reminders;
pub mod search;
pub mod session;
pub mod speakers;
pub mod text;
pub mod tools;

verus! {

/// One day in milliseconds.
pub const DAY_MS: i64 = 86400000;

/// The number of days that new meetings keep their audio, unless the user changes it.
pub const DEFAULT_AUDIO_RETENTION_DAYS: i64 = 7;

/// The longest time that a meeting keeps its audio, in days.
pub const MAX_AUDIO_RETENTION_DAYS: i64 = 30;

/// The number of days that a deleted meeting or deleted audio stays in the trash.
pub const TRASH_DAYS: i64 = 7;

} // verus!

verus! {

/// Reads the wall clock: `SystemTime::now().duration_since(UNIX_EPOCH)` in milliseconds, or `None`
/// when the clock is before 1970. The result depends on the time, so the contract states nothing of it.
#[verifier::external_body]
fn millis_since_epoch() -> (r: Option<u128>) {
    std::time::SystemTime::now().duration_since(std::time::UNIX_EPOCH).ok().map(|d| d.as_millis())
}

/// The time in epoch milliseconds of a clock reading: the milliseconds as an `i64` (`as`, which
/// keeps the low 64 bits), or 0 for a clock before 1970.
pub open spec fn epoch_ms_of(reading: Option<u128>) -> i64 {
    match reading {
        Some(ms) => ms as i64,
        None => 0,
    }
}

/// Turns a clock reading into epoch milliseconds, as `epoch_ms_of` states.
pub fn epoch_ms(reading: Option<u128>) -> (r: i64)
    ensures
        r == epoch_ms_of(reading),
{
    match reading {
        Some(ms) => ms as i64,
        None => 0,
    }
}

/// The current time in epoch milliseconds, or 0 when the clock is before 1970. The reading depends
/// on the time, so the contract states nothing of it; `epoch_ms` turns the reading into the result.
pub fn now_ms() -> i64 {
    epoch_ms(millis_since_epoch())
}

} // verus!
