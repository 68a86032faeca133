//! Points in time and their texts.

use vstd::prelude::*;
use vstd::string::*;

use crate::error::{internal, internal_error, ApiError};

verus! {

/// A point in time: whole seconds since 1970 in UTC, and nanoseconds.
#[derive(Debug, Clone, Copy, PartialEq, Eq, Structural)]
pub struct Timestamp {
    pub secs: i64,
    pub nanos: u32,
}

impl Timestamp {
    /// Whether the point is later than another.
    pub open spec fn is_after(self, other: Self) -> bool {
        self.secs > other.secs || (self.secs == other.secs && self.nanos > other.nanos)
    }

    /// The point that lies some seconds later, where there is one.
    pub open spec fn later(self, seconds: int) -> Option<Timestamp> {
        if i64::MIN <= self.secs + seconds <= i64::MAX {
            Some(Timestamp { secs: (self.secs + seconds) as i64, nanos: self.nanos })
        } else {
            None
        }
    }

    /// Whether the point is later than another.
    pub fn after(&self, other: &Timestamp) -> (r: bool)
        ensures
            r == self.is_after(*other),
    {
        self.secs > other.secs || (self.secs == other.secs && self.nanos > other.nanos)
    }

    /// The point that lies some seconds later.
    pub fn plus_seconds(&self, seconds: i64) -> (r: Option<Timestamp>)
        ensures
            r == self.later(seconds as int),
    {
        match self.secs.checked_add(seconds) {
            Some(secs) => Some(Timestamp { secs, nanos: self.nanos }),
            None => None,
        }
    }
}

/// The RFC 3339 text that `chrono` writes for a point in time in UTC; none where the point is
/// outside of its calendar.
pub uninterp spec fn time_text(secs: i64, nanos: u32) -> Option<Seq<char>>;

/// The point in time that `chrono` reads in an RFC 3339 text, or what it says of another text.
pub uninterp spec fn time_parsed(s: Seq<char>) -> Result<(i64, u32), Seq<char>>;

/// Calls `chrono::DateTime::from_timestamp` and `to_rfc3339`: [`time_text`] of the point.
#[verifier::external_body]
fn write_rfc3339(secs: i64, nanos: u32) -> (r: Option<String>)
    ensures
        match r {
            Some(s) => time_text(secs, nanos) == Some(s@),
            None => time_text(secs, nanos) is None,
        },
{
    chrono::DateTime::<chrono::Utc>::from_timestamp(secs, nanos).map(|time| time.to_rfc3339())
}

/// Calls `chrono::DateTime::parse_from_rfc3339`: [`time_parsed`] of the text.
#[verifier::external_body]
fn read_rfc3339(s: &str) -> (r: Result<(i64, u32), String>)
    ensures
        match r {
            Ok(time) => time_parsed(s@) == Ok::<(i64, u32), Seq<char>>(time),
            Err(message) => time_parsed(s@) == Err::<(i64, u32), Seq<char>>(message@),
        },
{
    match chrono::DateTime::parse_from_rfc3339(s) {
        Ok(time) => Ok((time.timestamp(), time.timestamp_subsec_nanos())),
        Err(error) => Err(error.to_string()),
    }
}

/// The point in time that a text writes.
pub open spec fn timestamp_in(s: Seq<char>) -> Option<Timestamp> {
    match time_parsed(s) {
        Ok((secs, nanos)) => Some(Timestamp { secs, nanos }),
        Err(_) => None,
    }
}

/// What is said of a text that writes no point in time.
pub open spec fn time_fault(s: Seq<char>) -> Seq<char> {
    match time_parsed(s) {
        Ok(_) => Seq::empty(),
        Err(message) => message,
    }
}

/// The point in time that a text writes, or what is said of another text.
pub fn read_time(s: &str) -> (r: Result<Timestamp, String>)
    ensures
        match r {
            Ok(time) => timestamp_in(s@) == Some(time),
            Err(message) => timestamp_in(s@) is None && message@ == time_fault(s@),
        },
{
    match read_rfc3339(s) {
        Ok((secs, nanos)) => Ok(Timestamp { secs, nanos }),
        Err(message) => Err(message),
    }
}

/// The point in time that a text writes.
pub fn parse_time(s: &str) -> (r: Option<Timestamp>)
    ensures
        r == timestamp_in(s@),
{
    match read_time(s) {
        Ok(time) => Some(time),
        Err(_) => None,
    }
}

/// The text of a point in time.
pub fn render_time(time: Timestamp) -> (r: Result<String, ApiError>)
    ensures
        match time_text(time.secs, time.nanos) {
            Some(text) => r matches Ok(s) && s@ == text,
            None => r matches Err(e) && e@ == internal("timestamp is out of range"@),
        },
{
    match write_rfc3339(time.secs, time.nanos) {
        Some(s) => Ok(s),
        None => Err(internal_error("timestamp is out of range")),
    }
}

/// What is said of a time some seconds after another: its text, or that there is none.
pub open spec fn later_text(time: Timestamp, seconds: int) -> Option<Seq<char>> {
    match time.later(seconds) {
        Some(t) => time_text(t.secs, t.nanos),
        None => None,
    }
}

/// The text of the time some seconds after another.
pub fn render_later(time: Timestamp, seconds: i64) -> (r: Result<String, ApiError>)
    ensures
        match later_text(time, seconds as int) {
            Some(text) => r matches Ok(s) && s@ == text,
            None => r matches Err(e) && e@ == internal("timestamp is out of range"@),
        },
{
    match time.plus_seconds(seconds) {
        Some(t) => render_time(t),
        None => Err(internal_error("timestamp is out of range")),
    }
}

/// Whether something was last seen within 45 seconds before a point in time.
pub open spec fn is_fresh(last_seen: Option<Seq<char>>, now: Timestamp) -> bool {
    match last_seen {
        None => false,
        Some(s) => match timestamp_in(s) {
            None => false,
            Some(seen) => seen.secs + 45 > now.secs || (seen.secs + 45 == now.secs && seen.nanos
                > now.nanos),
        },
    }
}

/// Whether something was last seen within 45 seconds before a point in time.
pub fn fresh(last_seen: Option<&str>, now: Timestamp) -> (r: bool)
    ensures
        r == is_fresh(
            match last_seen {
                Some(s) => Some(s@),
                None => None,
            },
            now,
        ),
{
    match last_seen {
        None => false,
        Some(s) => match parse_time(s) {
            None => false,
            Some(seen) => {
                if seen.secs > i64::MAX - 45 {
                    return true;
                }
                seen.secs + 45 > now.secs || (seen.secs + 45 == now.secs && seen.nanos > now.nanos)
            },
        },
    }
}

} // verus!
