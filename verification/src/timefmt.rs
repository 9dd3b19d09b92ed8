//! Times as the console shows them: how long ago something happened.

use crate::text::{decimal, decimal_of};
use vstd::prelude::*;
use vstd::string::StringExecFns;

verus! {

/// A count with its unit, in the plural unless the count is one.
pub open spec fn counted_ago(n: nat, unit: Seq<char>) -> Seq<char> {
    decimal_of(n) + " "@ + unit + (if n == 1 {
        ""@
    } else {
        "s"@
    }) + " ago"@
}

/// How long ago a time was, given the whole seconds that have passed since:
/// in minutes below an hour, hours below a day, days below a week, weeks
/// below sixty days, months of thirty days below a year of 365 days, and
/// years from there on. Less than a minute, or a time ahead, is just now.
pub open spec fn relative_time(elapsed: int) -> Seq<char> {
    if elapsed < 60 {
        "just now"@
    } else if elapsed / 60 < 60 {
        counted_ago((elapsed / 60) as nat, "minute"@)
    } else if elapsed / 3600 < 24 {
        counted_ago((elapsed / 3600) as nat, "hour"@)
    } else if elapsed / 86400 < 7 {
        counted_ago((elapsed / 86400) as nat, "day"@)
    } else if elapsed / 86400 < 60 {
        counted_ago((elapsed / 86400 / 7) as nat, "week"@)
    } else if elapsed / 86400 < 365 {
        counted_ago((elapsed / 86400 / 30) as nat, "month"@)
    } else {
        counted_ago((elapsed / 86400 / 365) as nat, "year"@)
    }
}

/// A count with its unit.
fn count_ago(n: u64, unit: &str) -> (text: String)
    ensures
        text@ == counted_ago(n as nat, unit@),
{
    let plural = if n == 1 {
        ""
    } else {
        "s"
    };
    decimal(n).concat(" ").concat(unit).concat(plural).concat(" ago")
}

/// How long ago a time was, given the whole seconds that have passed since.
pub fn format_relative_time(elapsed_seconds: i64) -> (text: String)
    ensures
        text@ == relative_time(elapsed_seconds as int),
{
    if elapsed_seconds < 60 {
        return "just now".to_owned();
    }
    let seconds: u64 = elapsed_seconds as u64;
    let minutes = seconds / 60;
    let hours = seconds / 3600;
    let days = seconds / 86400;
    if minutes < 60 {
        count_ago(minutes, "minute")
    } else if hours < 24 {
        count_ago(hours, "hour")
    } else if days < 7 {
        count_ago(days, "day")
    } else if days < 60 {
        count_ago(days / 7, "week")
    } else if days < 365 {
        count_ago(days / 30, "month")
    } else {
        count_ago(days / 365, "year")
    }
}

} // verus!
