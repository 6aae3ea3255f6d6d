//! Conversions between stored timestamps and milliseconds since the epoch.

use vstd::prelude::*;
use vstd::string::*;

verus! {

/// The milliseconds since 1970-01-01 00:00:00 UTC of the date and time that
/// `chrono` reads from `text` under the strftime pattern `format`, taken as
/// UTC; `None` where `chrono` rejects the text or the pattern.
pub uninterp spec fn naive_datetime_millis(text: Seq<char>, format: Seq<char>) -> Option<i64>;

/// Calls `chrono::NaiveDateTime::parse_from_str`, then `and_utc` and
/// `timestamp_millis` on what it read.
///
/// Trusted: the result is named [`naive_datetime_millis`]; nothing else is
/// claimed of it.
#[verifier::external_body]
fn parse_naive_millis(text: &str, format: &str) -> (millis: Option<i64>)
    ensures
        millis == naive_datetime_millis(text@, format@),
{
    chrono::NaiveDateTime::parse_from_str(text, format)
        .ok()
        .map(|dt| dt.and_utc().timestamp_millis())
}

/// The text that `chrono` writes for the UTC instant `millis` under the
/// strftime pattern `format`; `None` where `millis` is outside the range of
/// instants that `chrono` represents.
pub uninterp spec fn utc_text(millis: i64, format: Seq<char>) -> Option<Seq<char>>;

/// Calls `chrono::DateTime::from_timestamp_millis`, then `format` on the
/// instant and `to_string` on what `format` returned.
///
/// Trusted: the result is named [`utc_text`]; nothing else is claimed of it.
/// Writing fails on a pattern that `chrono` cannot render, so only the
/// stored pattern is admitted.
#[verifier::external_body]
fn format_utc_millis(millis: i64, format: &str) -> (text: Option<String>)
    requires
        format@ == "%Y-%m-%d %H:%M:%S"@,
    ensures
        text.deep_view() == utc_text(millis, format@),
{
    chrono::DateTime::from_timestamp_millis(millis).map(|dt| dt.format(format).to_string())
}

/// Calls `chrono::Utc::now` and `timestamp_millis` on it.
///
/// Trusted, with nothing claimed: two calls may differ.
#[verifier::external_body]
pub(crate) fn utc_now_millis() -> i64 {
    chrono::Utc::now().timestamp_millis()
}

/// The instant that a timestamp names, in milliseconds since the epoch: it
/// is read in the stored form `YYYY-MM-DD HH:mm:ss`, else in the form with
/// `T` between date and time. `None` for a text that is in neither form.
pub open spec fn instant_of(ts: Seq<char>) -> Option<i64> {
    match naive_datetime_millis(ts, "%Y-%m-%d %H:%M:%S"@) {
        Some(millis) => Some(millis),
        None => naive_datetime_millis(ts, "%Y-%m-%dT%H:%M:%S"@),
    }
}

/// The stored form of an instant; `None` for an instant out of range.
pub open spec fn timestamp_of(ms: i64) -> Option<Seq<char>> {
    utc_text(ms, "%Y-%m-%d %H:%M:%S"@)
}

/// What [`to_timems`] returns: the instant that `ts` names, or 0 where it
/// names none.
pub open spec fn timems(ts: Seq<char>) -> i64 {
    match instant_of(ts) {
        Some(millis) => millis,
        None => 0,
    }
}

/// What [`to_timestr`] returns: the instant in the stored form, or
/// `Unknown` for an instant out of range.
pub open spec fn timestr(ms: i64) -> Seq<char> {
    match timestamp_of(ms) {
        Some(text) => text,
        None => "Unknown"@,
    }
}

/// Reads a timestamp as milliseconds since the epoch, where it can be read.
pub fn read_timestamp(ts: &str) -> (millis: Option<i64>)
    ensures
        millis == instant_of(ts@),
{
    match parse_naive_millis(ts, "%Y-%m-%d %H:%M:%S") {
        Some(millis) => Some(millis),
        None => parse_naive_millis(ts, "%Y-%m-%dT%H:%M:%S"),
    }
}

/// Writes milliseconds since the epoch as a stored timestamp, where the
/// instant is in range.
pub fn write_timestamp(ms: i64) -> (text: Option<String>)
    ensures
        text.deep_view() == timestamp_of(ms),
{
    format_utc_millis(ms, "%Y-%m-%d %H:%M:%S")
}

/// Reads a stored timestamp as milliseconds since the epoch. A timestamp
/// that cannot be read counts as 0.
pub fn to_timems(ts: &str) -> (millis: i64)
    ensures
        millis == timems(ts@),
{
    match read_timestamp(ts) {
        Some(millis) => millis,
        None => 0,
    }
}

/// Writes milliseconds since the epoch as a stored timestamp.
pub fn to_timestr(ms: i64) -> (text: String)
    ensures
        text@ == timestr(ms),
{
    match write_timestamp(ms) {
        Some(text) => text,
        None => String::from_str("Unknown"),
    }
}

} // verus!
