//! Times of modification as text.
use crate::model::Candidate;
use crate::text::owned;
use vstd::prelude::*;

verus! {

/// A moment as whole seconds since the Unix epoch and the nanoseconds
/// beyond them; `None` for a moment before the epoch or too far from it for
/// 64 bits of seconds.
pub open spec fn clock_parts(ts: i128) -> Option<(i64, u32)> {
    if ts < 0 || ts / 1_000_000_000 > i64::MAX {
        None
    } else {
        Some(((ts / 1_000_000_000) as i64, (ts % 1_000_000_000) as u32))
    }
}

/// Splits a moment into seconds and nanoseconds; see [`clock_parts`].
pub fn split_time(ts: i128) -> (parts: Option<(i64, u32)>)
    ensures
        parts == clock_parts(ts),
{
    if ts < 0 {
        return None;
    }
    let secs: i128 = ts / 1_000_000_000;
    let nanos: i128 = ts % 1_000_000_000;
    if secs > i64::MAX as i128 {
        return None;
    }
    Some((secs as i64, nanos as u32))
}

/// Renders a moment in the machine's time zone as year, month, day, hour
/// and minute.
///
/// Calls `chrono::DateTime::from_timestamp`, then `with_timezone` for
/// `chrono::Local` and `format` with `%Y-%m-%d %H:%M` on what it returns.
/// The text depends on the time zone that the machine is set to, so nothing
/// is claimed of it. `None` is what the first call answers for a moment
/// that the calendar of that crate cannot hold.
#[verifier::external_body]
fn local_minute_text(secs: i64, nanos: u32) -> (text: Option<String>) {
    match chrono::DateTime::from_timestamp(secs, nanos) {
        Some(utc) => Some(utc.with_timezone(&chrono::Local).format("%Y-%m-%d %H:%M").to_string()),
        None => None,
    }
}

/// The text for a rendered moment: the rendering, or a dash where there is
/// none.
pub fn time_text(rendered: Option<String>) -> (text: String)
    ensures
        match rendered {
            Some(rendering) => text@ == rendering@,
            None => text@ == "-"@,
        },
{
    match rendered {
        Some(rendering) => rendering,
        None => owned("-"),
    }
}

/// The time of modification `ts`, in nanoseconds since the Unix epoch, as
/// local date and time of day to the minute. A moment before the epoch is
/// shown as a dash, and so is one that cannot be rendered.
pub fn format_system_time(ts: i128) -> (text: String)
    ensures
        clock_parts(ts) is None ==> text@ == "-"@,
{
    match split_time(ts) {
        Some((secs, nanos)) => time_text(local_minute_text(secs, nanos)),
        None => time_text(None),
    }
}

impl Candidate {
    /// When the candidate was last modified, as text; a dash where that is
    /// not known.
    pub fn last_used_str(&self) -> (text: String)
        ensures
            self.last_used is None ==> text@ == "-"@,
            self.last_used is Some && clock_parts(self.last_used->0) is None ==> text@ == "-"@,
    {
        match self.last_used {
            Some(ts) => format_system_time(ts),
            None => owned("-"),
        }
    }
}

} // verus!
