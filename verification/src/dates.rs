//! Dates as mail writes them, and the instants they stand for.
use vstd::prelude::*;
use crate::text::{decimal, decimal_of};

verus! {

/// An instant: seconds since the epoch, and nanoseconds within the second.
pub type Instant = (i64, u32);

/// The instant that a date written after RFC 2822 stands for.
pub uninterp spec fn mail_instant(date: Seq<char>) -> Option<Instant>;

/// `chrono::DateTime::parse_from_rfc2822`: the seconds since the epoch and the
/// nanoseconds of the date, or nothing where the text is no such date. What such
/// a date is is left to the crate.
#[verifier::external_body]
pub(crate) fn read_mail_date(date: &str) -> (r: Option<Instant>)
    ensures
        r == mail_instant(date@),
{
    match chrono::DateTime::parse_from_rfc2822(date) {
        Ok(at) => Some((at.timestamp(), at.timestamp_subsec_nanos())),
        Err(_) => None,
    }
}

/// Whether an instant is earlier than another.
pub open spec fn earlier(a: Instant, b: Instant) -> bool {
    a.0 < b.0 || (a.0 == b.0 && a.1 < b.1)
}

pub fn is_earlier(a: Instant, b: Instant) -> (r: bool)
    ensures
        r == earlier(a, b),
{
    a.0 < b.0 || (a.0 == b.0 && a.1 < b.1)
}

/// The instant of a date that may not be given; nothing where it is no date.
pub open spec fn given_instant(date: Option<Seq<char>>) -> Option<Instant> {
    match date {
        Some(date) => mail_instant(date),
        None => None,
    }
}

/// The text of a date that may not be given.
pub open spec fn given_text(date: Option<&str>) -> Option<Seq<char>> {
    match date {
        Some(date) => Some(date@),
        None => None,
    }
}

/// The instant of a date that may not be given; nothing where it is no date.
pub fn instant_given(date: Option<&str>) -> (r: Option<Instant>)
    ensures
        r == given_instant(given_text(date)),
{
    match date {
        Some(date) => read_mail_date(date),
        None => None,
    }
}

/// The timestamp of a date: 0 where it is no date.
pub open spec fn timestamp_of(date: Seq<char>) -> i64 {
    match mail_instant(date) {
        Some(at) => at.0,
        None => 0,
    }
}

/// Parse an RFC 2822 date string into a Unix timestamp.
/// Returns 0 if parsing fails.
pub fn parse_date_to_timestamp(date: &str) -> (r: i64)
    ensures
        r == timestamp_of(date@),
{
    match read_mail_date(date) {
        Some(at) => at.0,
        None => 0,
    }
}

/// The timestamp of a row: the one that is stored, or else the one its date
/// stands for, for databases that predate the column.
pub fn get_date_timestamp(stored: Option<i64>, date: &str) -> (r: i64)
    ensures
        r == (match stored {
            Some(stored) => stored,
            None => timestamp_of(date@),
        }),
{
    match stored {
        Some(stored) => stored,
        None => parse_date_to_timestamp(date),
    }
}

/// A number in decimal, with a sign where it is negative.
pub open spec fn signed_decimal(n: int) -> Seq<char> {
    if n < 0 {
        "-"@ + decimal((-n) as nat)
    } else {
        decimal(n as nat)
    }
}

pub fn signed_decimal_of(n: i64) -> (r: String)
    ensures
        r@ == signed_decimal(n as int),
{
    if n < 0 {
        let size: u64 = (-(n + 1)) as u64 + 1;
        let mut out = String::from_str("-");
        out.append(decimal_of(size).as_str());
        out
    } else {
        decimal_of(n as u64)
    }
}

/// Selects the rows from one timestamp to another, where they are given; nothing
/// where neither is, or where the table has no timestamps.
pub open spec fn date_range(
    has_timestamps: bool,
    since: Option<Instant>,
    until: Option<Instant>,
) -> Option<Seq<char>> {
    if !has_timestamps {
        None
    } else {
        match (since, until) {
            (Some(since), Some(until)) => Some(
                "date_timestamp >= "@ + signed_decimal(since.0 as int) + " AND date_timestamp <= "@
                    + signed_decimal(until.0 as int),
            ),
            (Some(since), None) => Some("date_timestamp >= "@ + signed_decimal(since.0 as int)),
            (None, Some(until)) => Some("date_timestamp <= "@ + signed_decimal(until.0 as int)),
            (None, None) => None,
        }
    }
}

/// Selects the emails of a range of dates, where the table has timestamps.
pub fn date_filter(has_timestamps: bool, since_date: Option<&str>, until_date: Option<&str>) -> (r:
    Option<String>)
    ensures
        match r {
            Some(filter) => date_range(
                has_timestamps,
                given_instant(given_text(since_date)),
                given_instant(given_text(until_date)),
            ) == Some(filter@),
            None => date_range(
                has_timestamps,
                given_instant(given_text(since_date)),
                given_instant(given_text(until_date)),
            ) is None,
        },
{
    let since = instant_given(since_date);
    let until = instant_given(until_date);
    if !has_timestamps {
        return None;
    }
    match (since, until) {
        (Some(since), Some(until)) => {
            let mut out = String::from_str("date_timestamp >= ");
            out.append(signed_decimal_of(since.0).as_str());
            out.append(" AND date_timestamp <= ");
            out.append(signed_decimal_of(until.0).as_str());
            Some(out)
        },
        (Some(since), None) => {
            let mut out = String::from_str("date_timestamp >= ");
            out.append(signed_decimal_of(since.0).as_str());
            Some(out)
        },
        (None, Some(until)) => {
            let mut out = String::from_str("date_timestamp <= ");
            out.append(signed_decimal_of(until.0).as_str());
            Some(out)
        },
        (None, None) => None,
    }
}

/// Whether a date is in a range. Without a range every date is; with one, only a
/// text that is a date can be.
pub open spec fn in_range(date: Seq<char>, since: Option<Instant>, until: Option<Instant>) -> bool {
    (since is None && until is None) || match mail_instant(date) {
        Some(at) => !(since is Some && earlier(at, since->0)) && !(until is Some && earlier(
            until->0,
            at,
        )),
        None => false,
    }
}

pub fn is_in_range(date: &str, since: Option<Instant>, until: Option<Instant>) -> (r: bool)
    ensures
        r == in_range(date@, since, until),
{
    if since.is_none() && until.is_none() {
        return true;
    }
    match read_mail_date(date) {
        Some(at) => {
            let too_early = match since {
                Some(since) => is_earlier(at, since),
                None => false,
            };
            let too_late = match until {
                Some(until) => is_earlier(until, at),
                None => false,
            };
            !too_early && !too_late
        },
        None => false,
    }
}

} // verus!
