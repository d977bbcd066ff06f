//! Spans of time and points in time, as whole seconds and nanoseconds.

use vstd::prelude::*;
use vstd::string::StringExecFns;
use chrono::TimeZone;

verus! {

/// Nanoseconds in one second.
pub const NANOS_PER_SEC: u32 = 1_000_000_000;

/// A span of time: whole seconds and the nanoseconds beyond them.
#[derive(Clone, Copy, PartialEq, Eq, Structural, Debug)]
pub struct Duration {
    secs: u64,
    nanos: u32,
}

impl View for Duration {
    type V = (u64, u32);

    closed spec fn view(&self) -> (u64, u32) {
        (self.secs, self.nanos)
    }
}

impl Duration {
    /// The nanoseconds stay below one second.
    pub open spec fn wf(&self) -> bool {
        self@.1 < NANOS_PER_SEC
    }

    /// The span of `secs` seconds and `nanos` nanoseconds, where `nanos` is below one
    /// second.
    pub fn new(secs: u64, nanos: u32) -> (d: Option<Duration>)
        ensures
            match d {
                Some(d) => nanos < NANOS_PER_SEC && d@ == (secs, nanos) && d.wf(),
                None => nanos >= NANOS_PER_SEC,
            },
    {
        if nanos < NANOS_PER_SEC {
            Some(Duration { secs, nanos })
        } else {
            None
        }
    }

    pub fn from_secs(secs: u64) -> (d: Duration)
        ensures
            d@ == (secs, 0u32),
            d.wf(),
    {
        Duration { secs, nanos: 0 }
    }

    pub fn secs(&self) -> (secs: u64)
        ensures
            secs == self@.0,
    {
        self.secs
    }

    pub fn subsec_nanos(&self) -> (nanos: u32)
        ensures
            nanos == self@.1,
    {
        self.nanos
    }
}

/// Whether `chrono` can hold the instant `secs` seconds and `nanos` nanoseconds after the
/// start of 1970 in UTC.
pub uninterp spec fn timestamp_in_range(secs: i64, nanos: u32) -> bool;

/// Calls `Utc.timestamp_opt` and says whether it found exactly one instant.
#[verifier::external_body]
fn timestamp_exists(secs: i64, nanos: u32) -> (exists: bool)
    ensures
        exists == timestamp_in_range(secs, nanos),
{
    chrono::Utc.timestamp_opt(secs, nanos).single().is_some()
}

/// The seconds from the start of 1970 in UTC to this date and time of day, where the
/// calendar has that day and the day has that time.
pub uninterp spec fn civil_seconds(
    year: i32,
    month: u32,
    day: u32,
    hour: u32,
    minute: u32,
    second: u32,
) -> Option<i64>;

/// Calls `NaiveDate::from_ymd_opt` and `NaiveDate::and_hms_opt`, and reads the seconds
/// since the start of 1970 off the result with `NaiveDateTime::and_utc` and
/// `DateTime::timestamp`.
#[verifier::external_body]
pub(crate) fn civil_to_seconds(
    year: i32,
    month: u32,
    day: u32,
    hour: u32,
    minute: u32,
    second: u32,
) -> (seconds: Option<i64>)
    ensures
        seconds == civil_seconds(year, month, day, hour, minute, second),
{
    let date = chrono::NaiveDate::from_ymd_opt(year, month, day)?;
    let time = date.and_hms_opt(hour, minute, second)?;
    Some(time.and_utc().timestamp())
}

/// The text that `chrono` writes for an instant in UTC in the form of RFC 3339, with as
/// many digits of the fraction of a second as are needed, in threes, and `Z` for the zone;
/// nothing where `chrono` cannot hold the instant.
pub uninterp spec fn rfc3339_text(secs: i64, nanos: u32) -> Option<Seq<char>>;

/// Calls `Utc.timestamp_opt` and then `DateTime::to_rfc3339_opts`, with
/// `SecondsFormat::AutoSi` and `Z` for the zone.
#[verifier::external_body]
fn instant_text(secs: i64, nanos: u32) -> (text: Option<String>)
    ensures
        match text {
            Some(text) => rfc3339_text(secs, nanos) == Some(text@),
            None => rfc3339_text(secs, nanos) is None,
        },
{
    match chrono::Utc.timestamp_opt(secs, nanos).single() {
        Some(instant) => Some(instant.to_rfc3339_opts(chrono::SecondsFormat::AutoSi, true)),
        None => None,
    }
}

/// An instant as it is written: in the form of RFC 3339, or as the empty text where the
/// calendar cannot hold it.
pub open spec fn instant_written(secs: i64, nanos: u32) -> Seq<char> {
    match rfc3339_text(secs, nanos) {
        Some(text) => text,
        None => Seq::empty(),
    }
}

/// A point in time in UTC: seconds since the start of 1970, and nanoseconds beyond them.
#[derive(Clone, Copy, PartialEq, Eq, Structural, Debug)]
pub struct Datetime {
    secs: i64,
    nanos: u32,
}

impl View for Datetime {
    type V = (i64, u32);

    closed spec fn view(&self) -> (i64, u32) {
        (self.secs, self.nanos)
    }
}

impl Datetime {
    /// The instant is one that the calendar can hold.
    pub open spec fn wf(&self) -> bool {
        timestamp_in_range(self@.0, self@.1)
    }

    /// The instant `secs` seconds and `nanos` nanoseconds after the start of 1970, where
    /// the calendar can hold it.
    pub fn from_timestamp(secs: i64, nanos: u32) -> (d: Option<Datetime>)
        ensures
            match d {
                Some(d) => timestamp_in_range(secs, nanos) && d@ == (secs, nanos) && d.wf(),
                None => !timestamp_in_range(secs, nanos),
            },
    {
        if timestamp_exists(secs, nanos) {
            Some(Datetime { secs, nanos })
        } else {
            None
        }
    }

    pub fn timestamp(&self) -> (secs: i64)
        ensures
            secs == self@.0,
    {
        self.secs
    }

    pub fn timestamp_subsec_nanos(&self) -> (nanos: u32)
        ensures
            nanos == self@.1,
    {
        self.nanos
    }

    /// The instant as text, in the form of RFC 3339.
    pub fn to_text(&self) -> (text: String)
        ensures
            text@ == instant_written(self@.0, self@.1),
    {
        match instant_text(self.secs, self.nanos) {
            Some(text) => text,
            None => {
                let text = String::from_str("");
                proof {
                    reveal_strlit("");
                    assert(text@ =~= Seq::<char>::empty());
                }
                text
            },
        }
    }
}

} // verus!
