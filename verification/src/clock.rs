//! The clock and the calendar, as the `chrono` crate has them.

use vstd::prelude::*;
use vstd::utf8::*;

verus! {

/// The last second that `chrono` has a date for, counted from the start of 1970.
pub const LAST_SECOND: i64 = 8_210_266_876_799;

/// What `chrono` makes of a point in time, given in seconds from the start of 1970 UTC, and a
/// pattern of `%` specifiers; nothing when the point lies outside its calendar.
pub uninterp spec fn strftime(seconds: i64, pattern: Seq<char>) -> Option<Seq<char>>;

/// Calls `chrono::Utc::now` and takes the whole seconds since the start of 1970 with
/// `chrono::DateTime::timestamp`. The call panics when the machine's clock stands before 1970 or
/// behind the last date of the crate's calendar; when it returns, the second lies between the two.
/// Which second it is, depends on the clock.
#[verifier::external_body]
pub(crate) fn seconds_now() -> (r: i64)
    ensures
        0 <= r <= LAST_SECOND,
{
    chrono::Utc::now().timestamp()
}

/// Calls `chrono::DateTime::from_timestamp` and `chrono::DateTime::format`: the text of a point
/// in time. From the start of 1970 to the last date there is such a text, and for the pattern of
/// an HTTP date it is ASCII: English names, digits, signs, spaces and the literal characters of
/// the pattern.
#[verifier::external_body]
pub(crate) fn format_seconds(seconds: i64, pattern: &str) -> (r: Option<String>)
    requires
        pattern@ == "%a, %e %b %Y %H:%M:%S GMT"@,
    ensures
        r is Some <==> strftime(seconds, pattern@) is Some,
        r matches Some(text) ==> strftime(seconds, pattern@) == Some(text@) && is_ascii_chars(text@),
        0 <= seconds <= LAST_SECOND ==> r is Some,
{
    let date = chrono::DateTime::from_timestamp(seconds, 0)?;
    Some(date.format(pattern).to_string())
}

} // verus!
