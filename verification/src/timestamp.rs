//! Dates and timestamps as plain values, read and written by `chrono`.
//!
//! An instant is the pair (whole seconds since the Unix epoch, nanoseconds
//! within the second), as `DateTime::timestamp` and
//! `DateTime::timestamp_subsec_nanos` report it; a date is (year, month, day).
use crate::numtext::nat_digits;
use chrono::{DateTime, Datelike, NaiveDate, Utc};
use vstd::prelude::*;

verus! {

/// Result of `DateTime::parse_from_rfc3339`, as the instant it denotes
/// (`None` for a parse error).
pub uninterp spec fn rfc3339_instant(text: Seq<char>) -> Option<(i64, u32)>;

/// Whole seconds of `signed_duration_since` between two instants, truncated
/// toward zero (`None` when an instant is outside `DateTime`'s range).
pub uninterp spec fn whole_seconds_between(later: (i64, u32), earlier: (i64, u32)) -> Option<i64>;

/// `DateTime::from_timestamp_millis` written by `to_rfc3339` (`None` when the
/// milliseconds are outside `DateTime`'s range).
pub uninterp spec fn rfc3339_of_millis(millis: i64) -> Option<Seq<char>>;

/// Result of `NaiveDate::parse_from_str(text, "%Y-%m-%d")` as (year, month, day).
pub uninterp spec fn iso_date(text: Seq<char>) -> Option<(i32, u32, u32)>;

/// The digits of `n`, with zeros in front up to `width` characters.
pub open spec fn zero_padded(n: nat, width: nat) -> Seq<char> {
    let d = nat_digits(n);
    if d.len() < width {
        Seq::new((width - d.len()) as nat, |i: int| '0') + d
    } else {
        d
    }
}

/// `%Y`: a year from 0 to 9999 as four digits; any other year with its sign
/// and at least four digits.
pub open spec fn year_text(y: int) -> Seq<char> {
    if 0 <= y <= 9999 {
        zero_padded(y as nat, 4)
    } else if y < 0 {
        seq!['-'] + zero_padded((-y) as nat, 4)
    } else {
        seq!['+'] + zero_padded(y as nat, 4)
    }
}

/// A date written by `NaiveDate::format("%Y-%m-%d")`: the year as `%Y`
/// writes it, then the month and the day as two digits each.
pub open spec fn iso_date_text(date: (i32, u32, u32)) -> Seq<char> {
    year_text(date.0 as int) + seq!['-'] + zero_padded(date.1 as nat, 2) + seq!['-'] + zero_padded(date.2 as nat, 2)
}

/// `a` is a later date than `b` (`NaiveDate`'s order).
pub open spec fn date_after(a: (i32, u32, u32), b: (i32, u32, u32)) -> bool {
    a.0 > b.0 || (a.0 == b.0 && (a.1 > b.1 || (a.1 == b.1 && a.2 > b.2)))
}

/// `DateTime::parse_from_rfc3339`, read as an instant.
#[verifier::external_body]
pub(crate) fn parse_rfc3339(text: &str) -> (r: Option<(i64, u32)>)
    ensures
        r == rfc3339_instant(text@),
{
    DateTime::parse_from_rfc3339(text).ok().map(|t| (t.timestamp(), t.timestamp_subsec_nanos()))
}

/// `signed_duration_since(..).num_seconds()` between two instants.
#[verifier::external_body]
pub(crate) fn seconds_between(later: (i64, u32), earlier: (i64, u32)) -> (r: Option<i64>)
    ensures
        r == whole_seconds_between(later, earlier),
{
    match (DateTime::from_timestamp(later.0, later.1), DateTime::from_timestamp(earlier.0, earlier.1)) {
        (Some(a), Some(b)) => Some(a.signed_duration_since(b).num_seconds()),
        _ => None,
    }
}

/// `DateTime::from_timestamp_millis(millis)` written by `to_rfc3339`.
#[verifier::external_body]
pub(crate) fn rfc3339_from_millis(millis: i64) -> (r: Option<String>)
    ensures
        match r {
            Some(t) => rfc3339_of_millis(millis) == Some(t@),
            None => rfc3339_of_millis(millis) is None,
        },
{
    DateTime::from_timestamp_millis(millis).map(|t| t.to_rfc3339())
}

/// `NaiveDate::parse_from_str(text, "%Y-%m-%d")`, with the date written back
/// by `format("%Y-%m-%d")`. The parse is named; the text written back is
/// stated (chrono's `write_year` and `write_two` with zero padding).
#[verifier::external_body]
pub(crate) fn parse_iso_date(text: &str) -> (r: Option<((i32, u32, u32), String)>)
    ensures
        match r {
            Some((d, written)) => iso_date(text@) == Some(d) && written@ == iso_date_text(d),
            None => iso_date(text@) is None,
        },
{
    NaiveDate::parse_from_str(text, "%Y-%m-%d")
        .ok()
        .map(|d| ((d.year(), d.month(), d.day()), d.format("%Y-%m-%d").to_string()))
}

/// `Utc::now().date_naive()`: today's date in UTC. Nothing is claimed of it.
#[verifier::external_body]
pub(crate) fn today() -> (r: (i32, u32, u32)) {
    let d = Utc::now().date_naive();
    (d.year(), d.month(), d.day())
}

} // verus!
