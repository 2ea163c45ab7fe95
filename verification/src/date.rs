//! Dates and times in the notation of RFC 3339, read and written by `chrono`.

use chrono::format::ParseErrorKind;
use vstd::prelude::*;

use crate::error::{DateErrorKind, Error, ErrorView};
use crate::model::DateTime;

verus! {

/// The instant that a text in the notation of RFC 3339 denotes, as
/// `chrono::DateTime::parse_from_rfc3339` reads it; or why it denotes none.
pub uninterp spec fn rfc3339_value(text: Seq<char>) -> Result<DateTime, DateErrorKind>;

/// The instant in the notation of RFC 3339, with as many digits for the
/// fraction of the second as it needs (none, three, six or nine) and `Z` for
/// an offset of zero, as `chrono::DateTime::to_rfc3339_opts` writes it; `None`
/// where the three numbers are no instant that `chrono` can hold, or the
/// offset is a day or more, or the local time is out of range.
pub uninterp spec fn rfc3339_text(secs: i64, nanos: u32, offset: i32) -> Option<Seq<char>>;

/// `chrono::DateTime::parse_from_rfc3339`, with what it found taken apart by
/// `timestamp`, `timestamp_subsec_nanos` and `offset`, or the kind of its
/// error.
#[verifier::external_body]
pub(crate) fn read_rfc3339(text: &str) -> (r: Result<DateTime, DateErrorKind>)
    ensures
        r == rfc3339_value(text@),
{
    match chrono::DateTime::parse_from_rfc3339(text) {
        Ok(d) => Ok(DateTime { secs: d.timestamp(), nanos: d.timestamp_subsec_nanos(), offset: d.offset().local_minus_utc() }),
        Err(e) => Err(match e.kind() {
            ParseErrorKind::OutOfRange => DateErrorKind::OutOfRange,
            ParseErrorKind::Impossible => DateErrorKind::Impossible,
            ParseErrorKind::NotEnough => DateErrorKind::NotEnough,
            ParseErrorKind::Invalid => DateErrorKind::Invalid,
            ParseErrorKind::TooShort => DateErrorKind::TooShort,
            ParseErrorKind::TooLong => DateErrorKind::TooLong,
            _ => DateErrorKind::BadFormat,
        }),
    }
}

/// `chrono::DateTime::from_timestamp`, `FixedOffset::east_opt`,
/// `NaiveDateTime::checked_add_offset` and `DateTime::to_rfc3339_opts`: the
/// instant in the notation of RFC 3339, where there is such an instant.
#[verifier::external_body]
pub(crate) fn write_rfc3339(secs: i64, nanos: u32, offset: i32) -> (r: Option<String>)
    ensures
        match r {
            Some(s) => rfc3339_text(secs, nanos, offset) == Some(s@),
            None => rfc3339_text(secs, nanos, offset) is None,
        },
{
    let utc = chrono::DateTime::from_timestamp(secs, nanos)?;
    let zone = chrono::FixedOffset::east_opt(offset)?;
    utc.naive_utc().checked_add_offset(zone)?;
    Some(utc.with_timezone(&zone).to_rfc3339_opts(chrono::SecondsFormat::AutoSi, true))
}

impl DateTime {
    /// Reads a date and time in the notation of RFC 3339.
    pub fn parse_from_rfc3339(text: &str) -> (r: Result<DateTime, Error>)
        ensures
            match r {
                Ok(d) => rfc3339_value(text@) == Ok::<DateTime, DateErrorKind>(d),
                Err(e) => rfc3339_value(text@) is Err && e@ == ErrorView::ParseDateTimeError(
                    rfc3339_value(text@)->Err_0,
                ),
            },
    {
        match read_rfc3339(text) {
            Ok(d) => Ok(d),
            Err(kind) => Err(Error::ParseDateTimeError(kind)),
        }
    }

    /// The date and time in the notation of RFC 3339; `None` where the
    /// numbers are out of the range of the calendar.
    pub fn to_rfc3339(&self) -> (r: Option<String>)
        ensures
            match r {
                Some(s) => rfc3339_text(self.secs, self.nanos, self.offset) == Some(s@),
                None => rfc3339_text(self.secs, self.nanos, self.offset) is None,
            },
    {
        write_rfc3339(self.secs, self.nanos, self.offset)
    }
}

} // verus!
