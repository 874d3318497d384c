//! The wall clock, read as a timestamp text.

use crate::timestamp::is_clock_text;
use vstd::prelude::*;

verus! {

/// The pattern timestamps are written in: date and time of day, to the
/// second.
pub const TIMESTAMP_PATTERN: &'static str = "%Y-%m-%d %H:%M:%S";

/// Calls `chrono::Local::now` and renders the instant with
/// `DateTime::format`. Trusted. Which instant is written depends on the
/// clock and on the machine's time zone, and nothing is claimed of it.
/// What is claimed is how it is written, which chrono documents for each
/// specifier of the pattern and which holds of every instant: the year
/// padded with zeros to four digits, with a sign when it lies outside 0 to
/// 9999, and month, day, hour, minute and second with two digits each,
/// within their ranges. Rendering panics on a malformed pattern, so only
/// the library's own pattern is admitted. Reading the clock itself fails
/// only where the system time stands before 1970, which no argument can
/// rule out.
#[verifier::external_body]
fn local_time_text(pattern: &str) -> (r: String)
    requires
        pattern@ == TIMESTAMP_PATTERN@,
    ensures
        is_clock_text(r@),
{
    chrono::Local::now().format(pattern).to_string()
}

/// The current local time, written under the pattern of timestamps.
///
/// Which instant is written is up to the clock; the text is always a year
/// followed by `-MM-DD hh:mm:ss`, and in the years 0 to 9999 it has the 19
/// characters of a timestamp.
pub fn current_timestamp() -> (r: String)
    ensures
        is_clock_text(r@),
{
    local_time_text(TIMESTAMP_PATTERN)
}

} // verus!
