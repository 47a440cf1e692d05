use statuspage::time::parse_datetime;
use statuspage::time::parse_datetime_optional;
use statuspage::time::timestamp_from;
use statuspage::time::Timestamp;
use statuspage::types::Error;
use std::cmp::Ordering;

#[test]
fn parse_datetime_reads_utc() {
    assert_eq!(
        parse_datetime("2021-03-01T10:00:00Z"),
        Ok(Timestamp { secs: 1614592800, nanos: 0 })
    );
    assert_eq!(parse_datetime("1970-01-01T00:00:00Z"), Ok(Timestamp { secs: 0, nanos: 0 }));
}

#[test]
fn parse_datetime_applies_the_offset() {
    assert_eq!(
        parse_datetime("2021-03-01T12:00:00+02:00"),
        Ok(Timestamp { secs: 1614592800, nanos: 0 })
    );
    assert_eq!(
        parse_datetime("1996-12-19T16:39:57-08:00"),
        Ok(Timestamp { secs: 851042397, nanos: 0 })
    );
}

#[test]
fn parse_datetime_keeps_the_fraction() {
    assert_eq!(
        parse_datetime("2021-03-01T10:00:00.25Z"),
        Ok(Timestamp { secs: 1614592800, nanos: 250_000_000 })
    );
}

#[test]
fn parse_datetime_reads_times_before_the_epoch() {
    assert_eq!(parse_datetime("1969-12-31T23:59:59Z"), Ok(Timestamp { secs: -1, nanos: 0 }));
}

#[test]
fn parse_datetime_rejects_what_is_no_date() {
    assert_eq!(parse_datetime(""), Err(Error::MalformedTimestamp));
    assert_eq!(parse_datetime("yesterday"), Err(Error::MalformedTimestamp));
    assert_eq!(parse_datetime("2021-03-01"), Err(Error::MalformedTimestamp));
    assert_eq!(parse_datetime("2021-13-01T10:00:00Z"), Err(Error::MalformedTimestamp));
    assert_eq!(parse_datetime("2021-03-01T10:00:00"), Err(Error::MalformedTimestamp));
}

#[test]
fn parse_datetime_optional_passes_absence_on() {
    assert_eq!(parse_datetime_optional(None), Ok(None));
    assert_eq!(
        parse_datetime_optional(Some("2021-03-01T10:00:00Z")),
        Ok(Some(Timestamp { secs: 1614592800, nanos: 0 }))
    );
    assert_eq!(parse_datetime_optional(Some("soon")), Err(Error::MalformedTimestamp));
}

#[test]
fn timestamp_from_maps_both_outcomes() {
    assert_eq!(timestamp_from(Some((5, 7))), Ok(Timestamp { secs: 5, nanos: 7 }));
    assert_eq!(timestamp_from(Some((-5, 0))), Ok(Timestamp { secs: -5, nanos: 0 }));
    assert_eq!(timestamp_from(None), Err(Error::MalformedTimestamp));
}

#[test]
fn timestamps_order_by_seconds_then_nanoseconds() {
    let a = Timestamp::new(10, 5);
    let b = Timestamp::new(10, 6);
    let c = Timestamp::new(11, 0);
    let d = Timestamp::new(-1, 999);
    assert!(b.is_later_than(&a));
    assert!(c.is_later_than(&b));
    assert!(a.is_later_than(&d));
    assert!(!a.is_later_than(&a));
    assert!(!a.is_later_than(&b));
    assert!(a < b && b < c && d < a);
    assert_eq!(a.partial_cmp(&a), Some(Ordering::Equal));
    assert_eq!(c.partial_cmp(&a), Some(Ordering::Greater));
    assert_eq!(a.partial_cmp(&c), Some(Ordering::Less));
    assert_eq!(a, Timestamp { secs: 10, nanos: 5 });
}

#[test]
fn timestamps_order_as_the_texts_they_were_read_from() {
    let early = parse_datetime("2021-03-01T10:00:00Z").unwrap();
    let late = parse_datetime("2021-03-01T10:00:00.000000001Z").unwrap();
    let later = parse_datetime("2021-03-01T11:00:01+01:00").unwrap();
    assert!(late.is_later_than(&early));
    assert!(later.is_later_than(&late));
}
