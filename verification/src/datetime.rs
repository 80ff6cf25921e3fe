//! Points in time, and the resolutions integer timestamps come in.

use vstd::prelude::*;
use vstd::string::*;

verus! {

/// A point in time: microseconds since the Unix epoch.
#[derive(Clone, Copy, Debug, PartialEq, Eq, Structural)]
pub struct DateTime {
    micros: i64,
}

impl View for DateTime {
    type V = int;

    closed spec fn view(&self) -> int {
        self.micros as int
    }
}

impl DateTime {
    /// The point `micros` microseconds after the epoch.  Always there.
    pub fn from_micros(micros: i64) -> (time: Option<DateTime>)
        ensures
            time is Some,
            time->0@ == micros,
    {
        Some(DateTime { micros })
    }

    /// The point `millis` milliseconds after the epoch, if it can be
    /// counted in microseconds.
    pub fn from_millis(millis: i64) -> (time: Option<DateTime>)
        ensures
            time is Some <==> i64::MIN <= millis * 1_000 <= i64::MAX,
            time matches Some(t) ==> t@ == millis * 1_000,
    {
        match millis.checked_mul(1_000) {
            Some(micros) => Some(DateTime { micros }),
            None => None,
        }
    }

    /// The point `secs` seconds after the epoch, if it can be counted in
    /// microseconds.
    pub fn from_secs(secs: i64) -> (time: Option<DateTime>)
        ensures
            time is Some <==> i64::MIN <= secs * 1_000_000 <= i64::MAX,
            time matches Some(t) ==> t@ == secs * 1_000_000,
    {
        match secs.checked_mul(1_000_000) {
            Some(micros) => Some(DateTime { micros }),
            None => None,
        }
    }

    /// Microseconds since the epoch.
    pub fn as_micros(&self) -> (micros: i64)
        ensures
            micros == self@,
    {
        self.micros
    }
}

/// The nanoseconds since the epoch that a text stands for when read as an
/// RFC 3339 date and time, if it is one.
pub uninterp spec fn rfc3339_nanos(text: Seq<char>) -> Option<i128>;

/// The nanoseconds since the epoch that a text stands for when read as an
/// RFC 2822 date and time, if it is one.
pub uninterp spec fn rfc2822_nanos(text: Seq<char>) -> Option<i128>;

/// The nanoseconds since the epoch that a text stands for when read by the
/// format with the given description, if the description is one and the
/// text matches it.
pub uninterp spec fn custom_nanos(description: Seq<char>, text: Seq<char>) -> Option<i128>;

/// The RFC 3339 rendering of the point in time that lies the given
/// nanoseconds after the epoch, if it has one.
pub uninterp spec fn rfc3339_text(nanos: i128) -> Option<Seq<char>>;

/// Wraps `time::OffsetDateTime::parse` with the well-known RFC 3339 format,
/// and `unix_timestamp_nanos` on what it yields.
#[verifier::external_body]
pub(crate) fn parse_rfc3339(text: &str) -> (nanos: Option<i128>)
    ensures
        nanos == rfc3339_nanos(text@),
{
    match time::OffsetDateTime::parse(text, &time::format_description::well_known::Rfc3339) {
        Ok(moment) => Some(moment.unix_timestamp_nanos()),
        Err(_) => None,
    }
}

/// Wraps `time::OffsetDateTime::parse` with the well-known RFC 2822 format,
/// and `unix_timestamp_nanos` on what it yields.
#[verifier::external_body]
pub(crate) fn parse_rfc2822(text: &str) -> (nanos: Option<i128>)
    ensures
        nanos == rfc2822_nanos(text@),
{
    match time::OffsetDateTime::parse(text, &time::format_description::well_known::Rfc2822) {
        Ok(moment) => Some(moment.unix_timestamp_nanos()),
        Err(_) => None,
    }
}

/// Wraps `time::format_description::parse_owned`, which turns the
/// description into a format, and `time::OffsetDateTime::parse` with that
/// format; `unix_timestamp_nanos` on what it yields.
#[verifier::external_body]
pub(crate) fn parse_custom(description: &str, text: &str) -> (nanos: Option<i128>)
    ensures
        nanos == custom_nanos(description@, text@),
{
    match time::format_description::parse_owned::<2>(description) {
        Ok(format) => match time::OffsetDateTime::parse(text, &format) {
            Ok(moment) => Some(moment.unix_timestamp_nanos()),
            Err(_) => None,
        },
        Err(_) => None,
    }
}

/// Wraps `time::OffsetDateTime::from_unix_timestamp_nanos` and `format`
/// with the well-known RFC 3339 format on what it yields.
#[verifier::external_body]
pub(crate) fn format_rfc3339(nanos: i128) -> (text: Option<String>)
    ensures
        match rfc3339_text(nanos) {
            Some(rendered) => text is Some && text->0@ == rendered,
            None => text is None,
        },
{
    match time::OffsetDateTime::from_unix_timestamp_nanos(nanos) {
        Ok(moment) => moment.format(&time::format_description::well_known::Rfc3339).ok(),
        Err(_) => None,
    }
}

/// Whole microseconds in a count of nanoseconds, rounded towards zero.
pub open spec fn micros_of_nanos(nanos: int) -> int {
    if nanos >= 0 {
        nanos / 1_000
    } else {
        -((-nanos) / 1_000)
    }
}

/// The point in time that lies the given nanoseconds after the epoch, to
/// the microsecond; `None` where that is beyond what 64 bits can count.
pub fn from_nanos(nanos: i128) -> (time: Option<DateTime>)
    ensures
        time is Some <==> i64::MIN <= micros_of_nanos(nanos as int) <= i64::MAX,
        time matches Some(t) ==> t@ == micros_of_nanos(nanos as int),
{
    if nanos >= 0 {
        let micros = nanos / 1_000;
        if micros > i64::MAX as i128 {
            None
        } else {
            DateTime::from_micros(micros as i64)
        }
    } else if nanos == i128::MIN {
        None
    } else {
        let micros = (-nanos) / 1_000;
        if micros > i64::MAX as i128 + 1 {
            None
        } else {
            DateTime::from_micros((-micros) as i64)
        }
    }
}

impl DateTime {
    /// The point in time as RFC 3339 text; `None` where it lies outside the
    /// years that the format can render.
    pub fn to_rfc3339(&self) -> (text: Option<String>)
        ensures
            match rfc3339_text((self@ * 1_000) as i128) {
                Some(rendered) => text is Some && text->0@ == rendered,
                None => text is None,
            },
    {
        let nanos: i128 = self.micros as i128 * 1_000;
        format_rfc3339(nanos)
    }
}

/// The unit an integer timestamp counts in.
#[derive(Clone, Copy, Debug, PartialEq, Eq, Structural)]
pub enum TimestampResolution {
    /// Seconds since the epoch.
    Seconds,
    /// Milliseconds since the epoch.
    Millis,
    /// Microseconds since the epoch.
    Micros,
}

impl TimestampResolution {
    /// How many microseconds one unit is.
    pub open spec fn micros_per_unit(self) -> int {
        match self {
            TimestampResolution::Seconds => 1_000_000,
            TimestampResolution::Millis => 1_000,
            TimestampResolution::Micros => 1,
        }
    }

    /// The point in time a timestamp of this resolution stands for; `None`
    /// where it lies beyond what microseconds in 64 bits can count.
    pub fn cast(&self, ts: i64) -> (time: Option<DateTime>)
        ensures
            time is Some <==> i64::MIN <= ts * self.micros_per_unit() <= i64::MAX,
            time matches Some(t) ==> t@ == ts * self.micros_per_unit(),
    {
        match self {
            TimestampResolution::Seconds => DateTime::from_secs(ts),
            TimestampResolution::Millis => DateTime::from_millis(ts),
            TimestampResolution::Micros => DateTime::from_micros(ts),
        }
    }

    /// The resolution's name as schemas spell it.
    pub fn name(&self) -> (name: &'static str)
        ensures
            name@ == match self {
                TimestampResolution::Seconds => "unix_seconds"@,
                TimestampResolution::Millis => "unix_millis"@,
                TimestampResolution::Micros => "unix_micros"@,
            },
    {
        match self {
            TimestampResolution::Seconds => "unix_seconds",
            TimestampResolution::Millis => "unix_millis",
            TimestampResolution::Micros => "unix_micros",
        }
    }

    /// The resolution's name as schemas spell it.
    pub fn to_string(&self) -> (name: String)
        ensures
            name@ == match self {
                TimestampResolution::Seconds => "unix_seconds"@,
                TimestampResolution::Millis => "unix_millis"@,
                TimestampResolution::Micros => "unix_micros"@,
            },
    {
        String::from_str(self.name())
    }
}

} // verus!
