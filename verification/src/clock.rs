//! Points in time, counted from the Unix epoch in UTC.
use chrono::TimeZone;
use vstd::prelude::*;

verus! {

pub const NANOS_PER_SEC: i128 = 1_000_000_000;

pub const NANOS_PER_DAY: i128 = 86_400_000_000_000;

/// A point in time: whole seconds since the Unix epoch and the nanoseconds of
/// the second that has begun.
#[derive(Debug, Clone, Copy, PartialEq, Eq, Structural)]
pub struct Timestamp {
    pub secs: i64,
    pub nanos: u32,
}

/// The earliest and the latest second that the calendar covers: the first of
/// the year -262143 and the last of the year 262142.
pub const FIRST_SECOND: i64 = -8_334_601_228_800;

pub const LAST_SECOND: i64 = 8_210_266_876_799;

impl Timestamp {
    /// Nanoseconds since the epoch.
    pub open spec fn instant(self) -> int {
        self.secs * NANOS_PER_SEC + self.nanos
    }

    /// Whether this point in time is before the other.
    pub fn before(&self, other: &Timestamp) -> (r: bool)
        ensures
            r == (self.instant() < other.instant()),
    {
        self.secs as i128 * NANOS_PER_SEC + (self.nanos as i128) < other.secs as i128
            * NANOS_PER_SEC + (other.nanos as i128)
    }
}

/// Whole days from one point in time to another; a part of a day is dropped, so
/// the count is rounded toward zero.
pub open spec fn days_between(from: Timestamp, to: Timestamp) -> int {
    let elapsed = to.instant() - from.instant();
    if elapsed >= 0 {
        elapsed / NANOS_PER_DAY as int
    } else {
        -((-elapsed) / NANOS_PER_DAY as int)
    }
}

/// Counts the whole days from one point in time to another.
pub fn whole_days(from: Timestamp, to: Timestamp) -> (r: i64)
    ensures
        r == days_between(from, to),
{
    let elapsed: i128 = (to.secs as i128 * NANOS_PER_SEC + to.nanos as i128) - (from.secs as i128
        * NANOS_PER_SEC + from.nanos as i128);
    if elapsed >= 0 {
        (elapsed / NANOS_PER_DAY) as i64
    } else {
        -(((-elapsed) / NANOS_PER_DAY) as i64)
    }
}

/// The point in time of a Unix second, where the calendar covers it.
pub open spec fn timestamp_of(secs: i64) -> Option<Timestamp> {
    if FIRST_SECOND <= secs <= LAST_SECOND {
        Some(Timestamp { secs, nanos: 0 })
    } else {
        None
    }
}

/// `chrono::TimeZone::timestamp_opt` of `Utc` with no nanoseconds: there is one
/// result when the second lies in the range of the calendar, and none
/// otherwise.
#[verifier::external_body]
pub(crate) fn utc_timestamp(secs: i64) -> (r: Option<Timestamp>)
    ensures
        r == timestamp_of(secs),
{
    chrono::Utc.timestamp_opt(secs, 0).single().map(
        |t| Timestamp { secs: t.timestamp(), nanos: t.timestamp_subsec_nanos() },
    )
}

/// A second that a clock can show: the calendar covers it.
pub open spec fn clock_second(secs: i64) -> bool {
    FIRST_SECOND <= secs <= LAST_SECOND
}

/// A point in time that a clock can show.
pub open spec fn clock_time(t: Timestamp) -> bool {
    clock_second(t.secs) && t.nanos < NANOS_PER_SEC
}

/// `chrono::Utc::now`. The clock decides the result; all that is said of it is
/// that the calendar covers it and that its nanoseconds are less than a second.
#[verifier::external_body]
pub(crate) fn utc_now() -> (r: Timestamp)
    ensures
        clock_time(r),
{
    let t = chrono::Utc::now();
    Timestamp { secs: t.timestamp(), nanos: t.timestamp_subsec_nanos() }
}

/// The clock showed this point in time: `utc_now` gave it. Nothing else is known
/// of such a point in time than what `utc_now` says, and of no given one is it
/// known that the clock showed it.
pub open(crate) spec fn clock_showed(t: Timestamp) -> bool {
    call_ensures(utc_now, (), t)
}

/// The text of a point in time in the format of RFC 3339, in UTC.
pub uninterp spec fn rfc3339(secs: i64, nanos: u32) -> Option<Seq<char>>;

/// `chrono::DateTime::from_timestamp` and `to_rfc3339_opts` with as many
/// digits of the second as the value needs and the suffix `Z`. There is a text
/// for each point in time in the range of the calendar.
#[verifier::external_body]
pub(crate) fn rfc3339_text(t: Timestamp) -> (r: Option<String>)
    ensures
        match r {
            Some(s) => rfc3339(t.secs, t.nanos) == Some(s@),
            None => rfc3339(t.secs, t.nanos) is None,
        },
        FIRST_SECOND <= t.secs <= LAST_SECOND && t.nanos < 1_000_000_000 ==> r is Some,
{
    chrono::DateTime::from_timestamp(t.secs, t.nanos).map(
        |d| d.to_rfc3339_opts(chrono::SecondsFormat::AutoSi, true),
    )
}

} // verus!
