//! Points in time, counted in nanoseconds from the Unix epoch.

use jiff::civil::Date;
use jiff::tz::TimeZone;
use std::str::FromStr;
use vstd::prelude::*;

verus! {

/// The earliest point in time.
pub const MIN_NANOSECOND: i128 = -377705023201000000000;

/// The latest point in time.
pub const MAX_NANOSECOND: i128 = 253402207200999999999;

/// The nanoseconds of a day.
pub const NANOSECONDS_PER_DAY: i128 = 86400000000000;

/// The range of points in time.
pub open spec fn in_time(nanosecond: int) -> bool {
    MIN_NANOSECOND <= nanosecond <= MAX_NANOSECOND
}

/// The first moment of the day, in UTC, to which a point in time belongs.
pub open spec fn midnight(nanosecond: int) -> int {
    nanosecond - nanosecond % (NANOSECONDS_PER_DAY as int)
}

/// The date in UTC of a point in time, written as year, month and day.
pub uninterp spec fn date_text(nanosecond: int) -> Seq<char>;

/// The midnight in UTC of the date that `text` gives as year, month and day,
/// or the words in which the reading fails.
pub uninterp spec fn date_read(text: Seq<char>) -> Result<int, Seq<char>>;

/// A point in time written as date and time of day in UTC.
pub uninterp spec fn timestamp_text(nanosecond: int) -> Seq<char>;

/// The point in time that `text` gives as date and time of day, if it does.
pub uninterp spec fn timestamp_read(text: Seq<char>) -> Option<int>;

/// Whether a date is written in ten characters, as those of the years from
/// 0 to 9999 are.
pub open spec fn is_short_date(text: Seq<char>) -> bool {
    text.len() == 10
}

/// Whether `text` is the date of the point in time, in ten characters.
pub open spec fn writes_date(nanosecond: int, text: Seq<char>) -> bool {
    in_time(nanosecond) && text == date_text(nanosecond) && is_short_date(text)
}

/// Whether `text` is the point in time, written as date and time of day.
pub open spec fn writes_timestamp(nanosecond: int, text: Seq<char>) -> bool {
    in_time(nanosecond) && text == timestamp_text(nanosecond)
}

/// The characters of a date.
pub open spec fn is_date_char(c: char) -> bool {
    '0' <= c <= '9' || c == '-'
}

/// A point in time.
#[derive(Debug, Clone, Copy, PartialEq, Eq, PartialOrd, Ord, Hash)]
pub struct Timestamp {
    nanosecond: i128,
}

impl View for Timestamp {
    type V = int;

    closed spec fn view(&self) -> int {
        self.nanosecond as int
    }
}

/// The nanoseconds of a date that was read, or the words in which the
/// reading failed.
pub open spec fn moment_of(read: Result<Timestamp, String>) -> Result<int, Seq<char>> {
    match read {
        Ok(t) => Ok(t@),
        Err(words) => Err(words@),
    }
}

/// The nanoseconds of a point in time that may be there.
pub open spec fn moment(read: Option<Timestamp>) -> Option<int> {
    match read {
        Some(t) => Some(t@),
        None => None,
    }
}

/// A date that was read as the midnight `nanosecond`.
pub open spec fn day_read(nanosecond: int) -> Result<int, Seq<char>> {
    Ok(nanosecond)
}

/// `jiff::Timestamp::to_zoned(UTC).date()`, displayed: the text depends on
/// the point in time alone and is made of digits and hyphens.
#[verifier::external_body]
fn jiff_date_text(t: Timestamp) -> (s: String)
    requires
        in_time(t@),
    ensures
        s@ == date_text(t@),
        s@.len() > 0,
        forall|i: int| 0 <= i < s@.len() ==> is_date_char(#[trigger] s@[i]),
{
    let at = jiff::Timestamp::from_nanosecond(t.nanosecond).expect("in range");
    at.to_zoned(TimeZone::UTC).date().to_string()
}

/// `jiff::civil::Date::strptime` with year, month and day, taken at midnight
/// in UTC: what it makes of a text depends on the text alone. A date in ten
/// characters that a point in time has is read as the midnight of that day.
#[verifier::external_body]
fn jiff_read_date(s: &str) -> (read: Result<Timestamp, String>)
    ensures
        moment_of(read) == date_read(s@),
        read matches Ok(t) ==> in_time(t@),
        read matches Ok(t) ==> t@ == midnight(t@),
        forall|n: int| #[trigger] writes_date(n, s@) ==> moment_of(read) == day_read(midnight(n)),
{
    Date::strptime("%Y-%m-%d", s)
        .and_then(|date| date.at(0, 0, 0, 0).to_zoned(TimeZone::UTC))
        .map(|zoned| Timestamp { nanosecond: zoned.timestamp().as_nanosecond() })
        .map_err(|e| e.to_string())
}

/// `jiff::Timestamp`'s `to_string`: the text depends on the point in time
/// alone.
#[verifier::external_body]
fn jiff_timestamp_text(t: Timestamp) -> (s: String)
    requires
        in_time(t@),
    ensures
        s@ == timestamp_text(t@),
{
    jiff::Timestamp::from_nanosecond(t.nanosecond).expect("in range").to_string()
}

/// `jiff::Timestamp::from_str`: what it makes of a text depends on the text
/// alone; what `to_string` wrote is read back as it was.
#[verifier::external_body]
fn jiff_read_timestamp(s: &str) -> (read: Option<Timestamp>)
    ensures
        moment(read) == timestamp_read(s@),
        read matches Some(t) ==> in_time(t@),
        forall|n: int| #[trigger] writes_timestamp(n, s@) ==> moment(read) == Some(n),
{
    jiff::Timestamp::from_str(s).ok().map(|t| Timestamp { nanosecond: t.as_nanosecond() })
}

/// `jiff::Zoned::now()`: the date that the clock shows in the time zone of
/// the machine, as the midnight in UTC of that date. Which day the clock
/// shows is not said. A clock set beyond the points in time makes it panic.
#[verifier::external_body]
fn jiff_today() -> (t: Timestamp)
    ensures
        in_time(t@),
        t@ == midnight(t@),
{
    let midnight = jiff::Zoned::now().date().at(0, 0, 0, 0).to_zoned(TimeZone::UTC);
    let t = midnight.expect("midnight UTC is never ambiguous").timestamp();
    Timestamp { nanosecond: t.as_nanosecond() }
}

impl Timestamp {
    #[verifier::type_invariant]
    spec fn in_range(self) -> bool {
        in_time(self@)
    }

    /// The point in time so many nanoseconds from the Unix epoch, if it is
    /// in range.
    pub fn from_nanosecond(nanosecond: i128) -> (t: Option<Timestamp>)
        ensures
            moment(t) == (if in_time(nanosecond as int) {
                Some(nanosecond as int)
            } else {
                None
            }),
    {
        if MIN_NANOSECOND <= nanosecond && nanosecond <= MAX_NANOSECOND {
            Some(Timestamp { nanosecond })
        } else {
            None
        }
    }

    /// The nanoseconds from the Unix epoch.
    pub fn as_nanosecond(&self) -> (nanosecond: i128)
        ensures
            nanosecond == self@,
            in_time(self@),
    {
        proof {
            use_type_invariant(self);
        }
        self.nanosecond
    }

    /// Whether this point in time is before `other`.
    pub fn is_before(&self, other: &Timestamp) -> (before: bool)
        ensures
            before == (self@ < other@),
    {
        self.nanosecond < other.nanosecond
    }

    /// The date of the point in time in UTC.
    pub fn date(&self) -> (s: String)
        ensures
            s@ == date_text(self@),
            s@.len() > 0,
            forall|i: int| 0 <= i < s@.len() ==> is_date_char(#[trigger] s@[i]),
    {
        proof {
            use_type_invariant(self);
        }
        jiff_date_text(*self)
    }

    /// Reads a date, as its midnight in UTC, or says in words why it cannot
    /// be read.
    pub fn parse_date(s: &str) -> (read: Result<Timestamp, String>)
        ensures
            moment_of(read) == date_read(s@),
            read matches Ok(t) ==> in_time(t@) && t@ == midnight(t@),
            forall|n: int| #[trigger] writes_date(n, s@) ==> moment_of(read) == day_read(midnight(n)),
    {
        jiff_read_date(s)
    }

    /// The point in time with date and time of day in UTC.
    pub fn to_text(&self) -> (s: String)
        ensures
            s@ == timestamp_text(self@),
    {
        proof {
            use_type_invariant(self);
        }
        jiff_timestamp_text(*self)
    }

    /// Reads a point in time, if `s` is one.
    pub fn parse(s: &str) -> (read: Option<Timestamp>)
        ensures
            moment(read) == timestamp_read(s@),
            read matches Some(t) ==> in_time(t@),
            forall|n: int| #[trigger] writes_timestamp(n, s@) ==> moment(read) == Some(n),
    {
        jiff_read_timestamp(s)
    }

    /// The midnight in UTC of the date that the clock shows.
    pub fn today() -> (t: Timestamp)
        ensures
            in_time(t@),
            t@ == midnight(t@),
    {
        jiff_today()
    }
}

} // verus!
