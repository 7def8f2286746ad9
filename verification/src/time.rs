//! Instants in time, and their text forms.

use vstd::prelude::*;

verus! {

/// An instant on the UTC time line: whole seconds since 1970-01-01T00:00:00Z
/// and the nanoseconds that have passed of the second after.
#[derive(Clone, Copy, Debug, PartialEq, Eq, Structural)]
pub struct Timestamp {
    pub secs: i64,
    pub nanos: u32,
}

impl Timestamp {
    /// Whether this is 1970-01-01T00:00:00Z, the instant that marks the
    /// initial value of an object's attribute.
    pub open spec fn is_epoch(self) -> bool {
        self.secs == 0 && self.nanos == 0
    }

    /// Chronological order: earlier or the same instant.
    pub open spec fn at_or_before(self, other: Timestamp) -> bool {
        self.secs < other.secs || (self.secs == other.secs && self.nanos <= other.nanos)
    }

    /// 1970-01-01T00:00:00Z.
    pub fn epoch() -> (t: Timestamp)
        ensures
            t.is_epoch(),
    {
        Timestamp { secs: 0, nanos: 0 }
    }

    /// Tells whether this is the epoch.
    pub fn at_epoch(&self) -> (r: bool)
        ensures
            r == self.is_epoch(),
    {
        self.secs == 0 && self.nanos == 0
    }
}

/// The instant that an RFC 3339 date-and-time text denotes, as seconds and
/// nanoseconds; `None` for any other text.
pub uninterp spec fn rfc3339_instant(text: Seq<char>) -> Option<(i64, u32)>;

/// The instant that `text` denotes under the strftime-like `format`, where
/// the text names its own UTC offset; `None` where it does not fit.
pub uninterp spec fn formatted_instant(text: Seq<char>, format: Seq<char>) -> Option<(i64, u32)>;

/// The instant that `text` denotes under the strftime-like `format` when
/// read as UTC without regard to any offset; `None` where it does not fit.
pub uninterp spec fn formatted_utc_instant(text: Seq<char>, format: Seq<char>) -> Option<
    (i64, u32),
>;

/// The RFC 3339 text of an instant; `None` where the calendar cannot hold it.
pub uninterp spec fn rfc3339_text(secs: i64, nanos: u32) -> Option<Seq<char>>;

/// Trusted: `chrono::DateTime::parse_from_rfc3339`, which reads an RFC 3339
/// date-and-time and fails on any other text. The result is a function of the
/// text alone; it is handed on as `timestamp()` and `timestamp_subsec_nanos()`.
#[verifier::external_body]
fn read_rfc3339(text: &str) -> (r: Option<(i64, u32)>)
    ensures
        r == rfc3339_instant(text@),
{
    match chrono::DateTime::parse_from_rfc3339(text) {
        Ok(d) => Some((d.timestamp(), d.timestamp_subsec_nanos())),
        Err(_) => None,
    }
}

/// Trusted: `chrono::DateTime::parse_from_str`, which reads a date-and-time
/// with its offset under a format and fails where the text does not fit or
/// names no offset. The result is a function of text and format alone.
#[verifier::external_body]
fn read_with_offset(text: &str, format: &str) -> (r: Option<(i64, u32)>)
    ensures
        r == formatted_instant(text@, format@),
{
    match chrono::DateTime::parse_from_str(text, format) {
        Ok(d) => Some((d.timestamp(), d.timestamp_subsec_nanos())),
        Err(_) => None,
    }
}

/// Trusted: `chrono::NaiveDateTime::parse_from_str`, which reads a
/// date-and-time under a format without adjusting for an offset; the result
/// is taken as UTC. It is a function of text and format alone.
#[verifier::external_body]
fn read_as_utc(text: &str, format: &str) -> (r: Option<(i64, u32)>)
    ensures
        r == formatted_utc_instant(text@, format@),
{
    match chrono::NaiveDateTime::parse_from_str(text, format) {
        Ok(d) => Some((d.and_utc().timestamp(), d.and_utc().timestamp_subsec_nanos())),
        Err(_) => None,
    }
}

/// Trusted: `chrono::DateTime::from_timestamp` followed by `to_rfc3339`,
/// which writes an instant as RFC 3339 text in UTC. `from_timestamp` gives
/// nothing for seconds or nanoseconds out of range.
#[verifier::external_body]
fn write_rfc3339(secs: i64, nanos: u32) -> (r: Option<String>)
    ensures
        match r {
            Some(s) => rfc3339_text(secs, nanos) == Some(s@),
            None => rfc3339_text(secs, nanos).is_none(),
        },
{
    match chrono::DateTime::from_timestamp(secs, nanos) {
        Some(d) => Some(d.to_rfc3339()),
        None => None,
    }
}

/// The instant behind what a reader of date texts gave.
pub open spec fn instant_of(parts: Option<(i64, u32)>) -> Option<Timestamp> {
    match parts {
        Some(p) => Some(Timestamp { secs: p.0, nanos: p.1 }),
        None => None,
    }
}

/// What a text with an offset gave, or else what the same text gave when
/// read as UTC.
pub open spec fn prefer_offset(with_offset: Option<(i64, u32)>, as_utc: Option<(i64, u32)>)
    -> Option<Timestamp> {
    if with_offset.is_some() {
        instant_of(with_offset)
    } else {
        instant_of(as_utc)
    }
}

/// The instant that a date text denotes: under `format` where one is given
/// (with the text's own offset, or as UTC where it names none), else as
/// RFC 3339.
pub open spec fn instant_of_text(text: Seq<char>, format: Option<Seq<char>>) -> Option<
    Timestamp,
> {
    match format {
        Some(f) => prefer_offset(formatted_instant(text, f), formatted_utc_instant(text, f)),
        None => instant_of(rfc3339_instant(text)),
    }
}

/// The view of an optional format.
pub open spec fn format_view(format: Option<String>) -> Option<Seq<char>> {
    match format {
        Some(f) => Some(f@),
        None => None,
    }
}

/// Makes an instant of the seconds and nanoseconds that a reader gave.
pub fn instant_from_parts(parts: Option<(i64, u32)>) -> (r: Option<Timestamp>)
    ensures
        r == instant_of(parts),
{
    match parts {
        Some(p) => Some(Timestamp { secs: p.0, nanos: p.1 }),
        None => None,
    }
}

/// Chooses between two readings of one text: the one with an offset wins.
pub fn choose_instant(with_offset: Option<(i64, u32)>, as_utc: Option<(i64, u32)>) -> (r: Option<
    Timestamp,
>)
    ensures
        r == prefer_offset(with_offset, as_utc),
{
    if with_offset.is_some() {
        instant_from_parts(with_offset)
    } else {
        instant_from_parts(as_utc)
    }
}

/// Reads a date text.
pub fn parse_timestamp(text: &str, format: &Option<String>) -> (r: Option<Timestamp>)
    ensures
        r == instant_of_text(text@, format_view(*format)),
{
    match format {
        Some(f) => {
            let with_offset = read_with_offset(text, f.as_str());
            let as_utc = read_as_utc(text, f.as_str());
            choose_instant(with_offset, as_utc)
        },
        None => instant_from_parts(read_rfc3339(text)),
    }
}

/// The text of an instant for a table cell: RFC 3339 where the calendar
/// holds the instant, else its seconds in decimal.
pub open spec fn instant_text(t: Timestamp) -> Seq<char> {
    match rfc3339_text(t.secs, t.nanos) {
        Some(s) => s,
        None => crate::text::int_decimal(t.secs as int),
    }
}

/// The text to show for an instant, given what the calendar made of it.
pub fn text_or_seconds(calendar: Option<String>, secs: i64) -> (s: String)
    ensures
        s@ == match calendar {
            Some(c) => c@,
            None => crate::text::int_decimal(secs as int),
        },
{
    match calendar {
        Some(c) => c,
        None => {
            let digits = crate::text::decimal_text(secs);
            crate::text::chars_to_string(&digits)
        },
    }
}

/// Writes an instant as text.
pub fn timestamp_text(t: &Timestamp) -> (s: String)
    ensures
        s@ == instant_text(*t),
{
    text_or_seconds(write_rfc3339(t.secs, t.nanos), t.secs)
}

} // verus!
