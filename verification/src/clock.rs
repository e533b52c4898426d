//! The time of day.
use std::time::{SystemTime, UNIX_EPOCH};
use vstd::prelude::*;

verus! {

/// `SystemTime::now` and `duration_since` the Unix epoch: whole seconds, and milliseconds of the
/// next one; nothing if the clock stands before the epoch. What time it is, nothing says.
#[verifier::external_body]
fn since_epoch() -> (r: Option<(u64, u32)>)
    ensures
        r matches Some(t) ==> t.1 < 1000,
{
    let d = SystemTime::now().duration_since(UNIX_EPOCH).ok()?;
    Some((d.as_secs(), d.subsec_millis()))
}

/// Seconds since the epoch; zero for a clock that stands before it.
pub fn unix_seconds(t: Option<(u64, u32)>) -> (r: i64)
    ensures
        r == (match t {
            Some(t) => if t.0 <= i64::MAX {
                t.0 as int
            } else {
                i64::MAX as int
            },
            None => 0,
        }),
{
    match t {
        Some(t) => if t.0 <= i64::MAX as u64 {
            t.0 as i64
        } else {
            i64::MAX
        },
        None => 0,
    }
}

/// Milliseconds since the epoch; zero for a clock that stands before it.
pub fn unix_milliseconds(t: Option<(u64, u32)>) -> (r: i64)
    ensures
        r == (match t {
            Some(t) => if t.0 * 1000 + t.1 <= i64::MAX {
                t.0 * 1000 + t.1
            } else {
                i64::MAX as int
            },
            None => 0,
        }),
{
    match t {
        Some(t) => {
            let ms: u128 = (t.0 as u128) * 1000 + (t.1 as u128);
            if ms <= i64::MAX as u128 {
                ms as i64
            } else {
                i64::MAX
            }
        },
        None => 0,
    }
}

/// The time now, in seconds since the epoch.
pub fn now_unix() -> (r: i64)
    ensures
        0 <= r,
{
    unix_seconds(since_epoch())
}

/// The time now, in milliseconds since the epoch.
pub fn now_unix_ms() -> (r: i64)
    ensures
        0 <= r,
{
    unix_milliseconds(since_epoch())
}

} // verus!
