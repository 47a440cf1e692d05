//! Instants on the UTC time line, and how they are read from text.

use crate::types::Error;
use std::cmp::Ordering;
use vstd::prelude::*;
use vstd::std_specs::cmp::PartialOrdSpecImpl;

verus! {

/// An instant: whole seconds since the Unix epoch and the nanoseconds within
/// that second. Instants are ordered by their seconds, then by their
/// nanoseconds.
#[derive(Clone, Copy, Debug, PartialEq, Eq, Structural)]
pub struct Timestamp {
    pub secs: i64,
    pub nanos: u32,
}

impl Timestamp {
    /// `self` is strictly later than `other`.
    pub open spec fn later_than(self, other: Timestamp) -> bool {
        self.secs > other.secs || (self.secs == other.secs && self.nanos > other.nanos)
    }

    pub fn new(secs: i64, nanos: u32) -> (r: Timestamp)
        ensures
            r == (Timestamp { secs, nanos }),
    {
        Timestamp { secs, nanos }
    }

    /// Whether `self` is strictly later than `other`.
    pub fn is_later_than(&self, other: &Timestamp) -> (b: bool)
        ensures
            b == self.later_than(*other),
    {
        self.secs > other.secs || (self.secs == other.secs && self.nanos > other.nanos)
    }
}

impl PartialOrd for Timestamp {
    fn partial_cmp(&self, other: &Timestamp) -> (r: Option<Ordering>) {
        if other.is_later_than(self) {
            Some(Ordering::Less)
        } else if self.is_later_than(other) {
            Some(Ordering::Greater)
        } else {
            Some(Ordering::Equal)
        }
    }
}

impl PartialOrdSpecImpl for Timestamp {
    open spec fn obeys_partial_cmp_spec() -> bool {
        true
    }

    open spec fn partial_cmp_spec(&self, other: &Timestamp) -> Option<Ordering> {
        if other.later_than(*self) {
            Some(Ordering::Less)
        } else if self.later_than(*other) {
            Some(Ordering::Greater)
        } else {
            Some(Ordering::Equal)
        }
    }
}

/// The instant that an RFC 3339 date-and-time text denotes, as seconds since
/// the Unix epoch and nanoseconds within the second; `None` where the text is
/// no such date and time.
pub uninterp spec fn rfc3339_instant(text: Seq<char>) -> Option<(i64, u32)>;

/// Calls `chrono::DateTime::parse_from_rfc3339` and reads the parsed value's
/// `timestamp()` and `timestamp_subsec_nanos()`. Trusted: the result is
/// `rfc3339_instant` of the text, which is all that is claimed of it; that
/// chrono orders its date-times as these two numbers are ordered here is read
/// off its source, not proved.
#[verifier::external_body]
fn parse_rfc3339(text: &str) -> (r: Option<(i64, u32)>)
    ensures
        r == rfc3339_instant(text@),
{
    match chrono::DateTime::parse_from_rfc3339(text) {
        Ok(parsed) => Some((parsed.timestamp(), parsed.timestamp_subsec_nanos())),
        Err(_) => None,
    }
}

/// What a parsed date and time becomes: the instant, or the error for a text
/// that was none.
pub open spec fn instant_or_error(parsed: Option<(i64, u32)>) -> Result<Timestamp, Error> {
    match parsed {
        Some(parts) => Ok(Timestamp { secs: parts.0, nanos: parts.1 }),
        None => Err(Error::MalformedTimestamp),
    }
}

/// Turns the outcome of parsing a date and time into a timestamp.
pub fn timestamp_from(parsed: Option<(i64, u32)>) -> (r: Result<Timestamp, Error>)
    ensures
        r == instant_or_error(parsed),
{
    match parsed {
        Some(parts) => Ok(Timestamp { secs: parts.0, nanos: parts.1 }),
        None => Err(Error::MalformedTimestamp),
    }
}

/// Reads an RFC 3339 date and time.
pub fn parse_datetime(text: &str) -> (r: Result<Timestamp, Error>)
    ensures
        r == instant_or_error(rfc3339_instant(text@)),
{
    timestamp_from(parse_rfc3339(text))
}

/// Reads an RFC 3339 date and time that may be absent.
pub fn parse_datetime_optional(text: Option<&str>) -> (r: Result<Option<Timestamp>, Error>)
    ensures
        match text {
            None => r == Ok::<Option<Timestamp>, Error>(None),
            Some(t) => match instant_or_error(rfc3339_instant(t@)) {
                Ok(instant) => r == Ok::<Option<Timestamp>, Error>(Some(instant)),
                Err(e) => r == Err::<Option<Timestamp>, Error>(e),
            },
        },
{
    match text {
        None => Ok(None),
        Some(t) => match parse_datetime(t) {
            Ok(instant) => Ok(Some(instant)),
            Err(e) => Err(e),
        },
    }
}

} // verus!
