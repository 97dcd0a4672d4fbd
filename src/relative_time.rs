//! Human-readable age of a timestamp ("3 days ago").

use vstd::prelude::*;
use crate::text::{decimal_text, digits_of, joined};

verus! {

/// "`n` `unit`s ago", with the unit singular when `n` is one.
pub open spec fn ago_phrase(n: nat, unit: Seq<char>) -> Seq<char> {
    digits_of(n) + " "@ + unit + (if n == 1 { ""@ } else { "s"@ }) + " ago"@
}

pub const MINUTE: i128 = 60;
pub const HOUR: i128 = 3600;
pub const DAY: i128 = 86400;
pub const MONTH: i128 = 2592000;
pub const YEAR: i128 = 31536000;

/// The age text for an age of `diff` seconds: a month is thirty days and a
/// year 365 days; counts are rounded down.
pub open spec fn relative_text(diff: int) -> Seq<char> {
    if diff < (MINUTE as int) {
        "just now"@
    } else if diff < (HOUR as int) {
        ago_phrase((diff / (MINUTE as int)) as nat, "minute"@)
    } else if diff < (DAY as int) {
        ago_phrase((diff / (HOUR as int)) as nat, "hour"@)
    } else if diff < (MONTH as int) {
        ago_phrase((diff / (DAY as int)) as nat, "day"@)
    } else if diff < (YEAR as int) {
        ago_phrase((diff / (MONTH as int)) as nat, "month"@)
    } else {
        ago_phrase((diff / (YEAR as int)) as nat, "year"@)
    }
}

/// The age text of `timestamp` as seen at `now`.
pub open spec fn age_text(timestamp: i64, now: i64) -> Seq<char> {
    relative_text(now - timestamp)
}

fn ago_text(n: u64, unit: &str) -> (r: String)
    ensures
        r@ == ago_phrase(n as nat, unit@),
{
    let digits = decimal_text(n);
    let s = joined(digits.as_str(), " ");
    let s = joined(s.as_str(), unit);
    let s = if n == 1 {
        s
    } else {
        joined(s.as_str(), "s")
    };
    let r = joined(s.as_str(), " ago");
    proof {
        reveal_strlit(" ");
        reveal_strlit("s");
        reveal_strlit("");
        reveal_strlit(" ago");
        if n == 1 {
            assert(digits@ + " "@ + unit@ =~= digits@ + " "@ + unit@ + ""@);
        }
    }
    r
}

/// The age of `timestamp` as seen at `now`, both in seconds since the Unix
/// epoch.
pub fn format_relative_time(timestamp: i64, now: i64) -> (r: String)
    ensures
        r@ == age_text(timestamp, now),
{
    let diff: i128 = now as i128 - timestamp as i128;
    if diff < MINUTE {
        "just now".to_owned()
    } else if diff < HOUR {
        ago_text((diff / MINUTE) as u64, "minute")
    } else if diff < DAY {
        ago_text((diff / HOUR) as u64, "hour")
    } else if diff < MONTH {
        ago_text((diff / DAY) as u64, "day")
    } else if diff < YEAR {
        ago_text((diff / MONTH) as u64, "month")
    } else {
        assert(diff / YEAR <= u64::MAX) by (nonlinear_arith)
            requires diff <= 0x1_0000_0000_0000_0000i128;
        ago_text((diff / YEAR) as u64, "year")
    }
}

} // verus!
