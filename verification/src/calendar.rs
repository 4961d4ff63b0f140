//! Instants as calendar text, by way of the `chrono` crate.

use chrono::{DateTime, NaiveDateTime};
use std::fmt::Write;
use vstd::prelude::*;

verus! {

/// The text that `chrono` writes for the UTC instant `secs` seconds and
/// `nanos` nanoseconds after the Unix epoch under the strftime pattern
/// `pattern`, or `None` where the instant lies outside `chrono`'s calendar or
/// the pattern cannot be written.
pub uninterp spec fn formatted_instant(secs: i64, nanos: u32, pattern: Seq<char>) -> Option<
    Seq<char>,
>;

/// The UTC instant, as seconds and nanoseconds after the Unix epoch, that
/// `chrono` reads from `text` under the strftime pattern `pattern`, or `None`
/// where `text` does not match the pattern or names no date and time.
pub uninterp spec fn parsed_instant(text: Seq<char>, pattern: Seq<char>) -> Option<(i64, u32)>;

/// Calls `chrono::DateTime::from_timestamp` and then `DateTime::format`, and
/// writes the result into a string. The contract claims only that the text
/// is the one that `formatted_instant` names for these arguments: it depends
/// on nothing else, since the instant is in UTC and no locale is involved.
/// An instant that `from_timestamp` refuses, or a pattern whose writing
/// fails, gives `None`.
#[verifier::external_body]
pub(crate) fn format_instant(secs: i64, nanos: u32, pattern: &str) -> (text: Option<String>)
    ensures
        match text {
            Some(text) => formatted_instant(secs, nanos, pattern@) == Some(text@),
            None => formatted_instant(secs, nanos, pattern@) is None,
        },
{
    let instant = DateTime::from_timestamp(secs, nanos)?;
    let mut text = String::new();
    write!(text, "{}", instant.format(pattern)).ok()?;
    Some(text)
}

/// Why `chrono` could not read a text as a date and time.
#[verifier::external_type_specification]
#[verifier::external_body]
pub struct ExParseError(chrono::ParseError);

/// Calls `chrono::NaiveDateTime::parse_from_str`, takes the result as UTC
/// and hands back its `timestamp` and `timestamp_subsec_nanos`. The contract
/// claims only that the instant is the one that `parsed_instant` names for
/// these arguments, and that `parse_from_str` refuses the text where
/// `parsed_instant` names none.
#[verifier::external_body]
pub(crate) fn parse_instant(text: &str, pattern: &str) -> (instant: Result<
    (i64, u32),
    chrono::ParseError,
>)
    ensures
        match instant {
            Ok(instant) => parsed_instant(text@, pattern@) == Some(instant),
            Err(_) => parsed_instant(text@, pattern@) is None,
        },
{
    let parsed = NaiveDateTime::parse_from_str(text, pattern)?;
    let utc = parsed.and_utc();
    Ok((utc.timestamp(), utc.timestamp_subsec_nanos()))
}

/// Calls `to_string` on a `chrono::ParseError`, which writes one of its
/// fixed sentences. The contract claims nothing of the text.
#[verifier::external_body]
pub(crate) fn parse_error_text(error: &chrono::ParseError) -> (text: String) {
    error.to_string()
}

} // verus!
