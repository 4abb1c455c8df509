//! Times as the logbook writes them.

use crate::text::text_view;
use vstd::prelude::*;

verus! {

/// How the logbook writes a time: year, month and day, then hour, minute and
/// second, as chrono's `format` reads it.
pub const DATE_FORMAT: &'static str = "%Y-%m-%d %H:%M:%S";

/// The text of a time in UTC, as chrono writes it under `DATE_FORMAT`; the
/// time is in seconds since the Unix epoch. `None` where chrono has no date
/// for the time.
pub uninterp spec fn utc_text(time: i64) -> Option<Seq<char>>;

/// Writes a time with chrono: `DateTime::from_timestamp` makes the date, and
/// `DateTime::format` with `DATE_FORMAT` its text. The text is the one that
/// `utc_text` names.
#[verifier::external_body]
pub(crate) fn date_to_string(time: i64) -> (text: Option<String>)
    ensures
        text_view(text) == utc_text(time),
{
    match chrono::DateTime::from_timestamp(time, 0) {
        Some(date) => Some(date.format(DATE_FORMAT).to_string()),
        None => None,
    }
}

/// The text of a time that may not have come yet.
pub open spec fn time_text(time: Option<i64>) -> Option<Seq<char>> {
    match time {
        Some(time) => utc_text(time),
        None => None,
    }
}

/// Writes a time that may not have come yet, as `time_text` says.
pub fn time_field(time: Option<i64>) -> (text: Option<String>)
    ensures
        text_view(text) == time_text(time),
{
    match time {
        Some(time) => date_to_string(time),
        None => None,
    }
}

} // verus!
