//! How long ago something was.

use crate::text;
use crate::text::{decimal, Text};
use vstd::prelude::*;

verus! {

/// An integer in decimal digits.
pub open spec fn signed_decimal(n: int) -> Text {
    if n < 0 {
        "-"@ + decimal((-n) as nat)
    } else {
        decimal(n as nat)
    }
}

/// How long `then` is ago at the time `now`, both in seconds.
pub open spec fn relative_time(then: int, now: int) -> Text {
    let d = now - then;
    if d < 45 {
        "just now"@
    } else if d < 90 {
        "a minute ago"@
    } else if d < 60 * 45 {
        decimal((d / 60) as nat) + " minutes ago"@
    } else if d < 60 * 90 {
        "an hour ago"@
    } else if d < 60 * 60 * 22 {
        decimal((d / 3600) as nat) + " hours ago"@
    } else if d < 60 * 60 * 36 {
        "yesterday"@
    } else if d < 60 * 60 * 24 * 7 {
        decimal((d / 86400) as nat) + " days ago"@
    } else {
        signed_decimal(then) + " (run timestamp)"@
    }
}

/// An integer in decimal digits.
pub fn signed_decimal_of(n: i64) -> (r: String)
    ensures
        r@ == signed_decimal(n as int),
{
    if n < 0 {
        let m: u64 = (-(n as i128)) as u64;
        text::cat("-", text::decimal_of(m).as_str())
    } else {
        text::decimal_of(n as u64)
    }
}

/// How long `unix_secs` is ago at the time `now`.
pub fn format_relative_time_at(unix_secs: i64, now: i64) -> (r: String)
    ensures
        r@ == relative_time(unix_secs as int, now as int),
{
    let d: i128 = now as i128 - unix_secs as i128;
    if d < 45 {
        "just now".to_owned()
    } else if d < 90 {
        "a minute ago".to_owned()
    } else if d < 60 * 45 {
        text::cat(text::decimal_of((d / 60) as u64).as_str(), " minutes ago")
    } else if d < 60 * 90 {
        "an hour ago".to_owned()
    } else if d < 60 * 60 * 22 {
        text::cat(text::decimal_of((d / 3600) as u64).as_str(), " hours ago")
    } else if d < 60 * 60 * 36 {
        "yesterday".to_owned()
    } else if d < 60 * 60 * 24 * 7 {
        text::cat(text::decimal_of((d / 86400) as u64).as_str(), " days ago")
    } else {
        text::cat(signed_decimal_of(unix_secs).as_str(), " (run timestamp)")
    }
}

/// `SystemTime::elapsed` of `std::time::UNIX_EPOCH`: the whole seconds since then, or nothing
/// where the clock stands before it. The result depends on the clock: nothing is claimed of it.
#[verifier::external_body]
fn seconds_since_epoch() -> (r: Option<u64>) {
    std::time::UNIX_EPOCH.elapsed().ok().map(|d| d.as_secs())
}

/// The time that a clock shows, by the seconds since the epoch; 0 where it stands before that.
pub open spec fn clock_time(elapsed: Option<u64>) -> int {
    match elapsed {
        Some(s) => if s <= i64::MAX {
            s as int
        } else {
            i64::MAX as int
        },
        None => 0,
    }
}

/// The time that a clock shows, by the seconds since the epoch; 0 where it stands before that.
pub fn time_of_clock(elapsed: Option<u64>) -> (r: i64)
    ensures
        r == clock_time(elapsed),
{
    match elapsed {
        Some(s) => if s <= i64::MAX as u64 {
            s as i64
        } else {
            i64::MAX
        },
        None => 0,
    }
}

/// The time of the clock, in seconds since the epoch.
pub fn unix_now() -> (r: i64)
    ensures
        exists|elapsed: Option<u64>| r == #[trigger] clock_time(elapsed),
{
    time_of_clock(seconds_since_epoch())
}

/// How long `unix_secs` is ago by the clock.
pub fn format_relative_time(unix_secs: i64) -> (r: String)
    ensures
        exists|elapsed: Option<u64>|
            r@ == #[trigger] relative_time(unix_secs as int, clock_time(elapsed)),
{
    let now = unix_now();
    format_relative_time_at(unix_secs, now)
}

} // verus!
