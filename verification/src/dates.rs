//! Calendar dates and moments, as the `time` crate reads and writes them.
//!
//! Moments are Unix timestamps. What `time` parses and prints is not
//! proved here: each of its results has a name, and the functions of this
//! library state what they return over those names.

use crate::text::option_text;
use vstd::prelude::*;
use vstd::string::StringExecFns;

verus! {

/// The seconds of the year-long window in which a verification counts.
pub const FRESHNESS_WINDOW_SECONDS: i64 = 31_536_000;

/// The Unix timestamp of the moment that `time` reads from `text` as an
/// RFC 3339 date-time; nothing where it reads none.
pub uninterp spec fn rfc3339_timestamp(text: Seq<char>) -> Option<i64>;

/// The moment `timestamp` in UTC as `time` writes it in its default
/// ISO 8601 form, with nine decimals of the second; nothing where `time`
/// cannot hold or write the moment.
pub uninterp spec fn iso8601_text(timestamp: i64) -> Option<Seq<char>>;

/// The calendar date of the moment `timestamp` in UTC as `time` prints it,
/// year, month and day; nothing where `time` cannot hold the moment.
pub uninterp spec fn utc_date_text(timestamp: i64) -> Option<Seq<char>>;

/// The start, in UTC, of the day written as `date`.
pub open spec fn day_start(date: Seq<char>) -> Option<i64> {
    rfc3339_timestamp(date + "T00:00:00Z"@)
}

/// `time::OffsetDateTime::parse` with the RFC 3339 description, and the Unix
/// timestamp of what it parsed. The contract only names the result.
#[verifier::external_body]
fn parse_rfc3339(text: &str) -> (timestamp: Option<i64>)
    ensures
        timestamp == rfc3339_timestamp(text@),
{
    match time::OffsetDateTime::parse(text, &time::format_description::well_known::Rfc3339) {
        Ok(moment) => Some(moment.unix_timestamp()),
        Err(_) => None,
    }
}

/// `time::OffsetDateTime::format` with the default ISO 8601 description, on
/// the moment that `from_unix_timestamp` makes. The contract only names the
/// result, which is nothing where either call fails.
#[verifier::external_body]
pub(crate) fn format_iso8601(timestamp: i64) -> (text: Option<String>)
    ensures
        option_text(text) == iso8601_text(timestamp),
{
    match time::OffsetDateTime::from_unix_timestamp(timestamp) {
        Ok(moment) => moment.format(&time::format_description::well_known::Iso8601::DEFAULT).ok(),
        Err(_) => None,
    }
}

/// `time::OffsetDateTime::date`, printed, on the moment that
/// `from_unix_timestamp` makes. The contract only names the result, which is
/// nothing where the timestamp is out of range.
#[verifier::external_body]
fn format_utc_date(timestamp: i64) -> (text: Option<String>)
    ensures
        option_text(text) == utc_date_text(timestamp),
{
    match time::OffsetDateTime::from_unix_timestamp(timestamp) {
        Ok(moment) => Some(moment.date().to_string()),
        Err(_) => None,
    }
}

/// The Unix timestamp at which the day written as `date` begins in UTC.
pub fn day_start_of(date: &str) -> (timestamp: Option<i64>)
    ensures
        timestamp == day_start(date@),
{
    let mut text = date.to_owned();
    text.append("T00:00:00Z");
    parse_rfc3339(text.as_str())
}

/// The date before which a verification is out of date: the calendar date of
/// the moment one window before `now`.
pub open spec fn freshness_limit(now: i64) -> Option<Seq<char>> {
    if now - FRESHNESS_WINDOW_SECONDS >= i64::MIN {
        utc_date_text((now - FRESHNESS_WINDOW_SECONDS) as i64)
    } else {
        None
    }
}

/// The date before which a verification is out of date, or nothing where
/// that date lies beyond what a calendar date can hold.
pub fn freshness_limit_of(now: i64) -> (limit: Option<String>)
    ensures
        option_text(limit) == freshness_limit(now),
{
    match now.checked_sub(FRESHNESS_WINDOW_SECONDS) {
        Some(then) => format_utc_date(then),
        None => None,
    }
}

} // verus!
