//! Points in time, and the time between them.

use chrono::{DateTime, TimeDelta, Utc};
use vstd::prelude::*;

verus! {

/// The first second that a timestamp can name, counted from the start of 1970.
pub const MIN_SECS: i64 = -8_334_601_228_800;

/// The last second that a timestamp can name, counted from the start of 1970.
pub const MAX_SECS: i64 = 8_210_266_876_799;

/// The most seconds that a time span can be made of.
pub const MAX_SPAN_SECS: i64 = 9_223_372_036_854_775;

/// A point in time, to the nanosecond, in the years that the calendar covers.
#[derive(Debug, Clone, Copy, PartialEq, Eq, Structural)]
pub struct Timestamp {
    secs: i64,
    nanos: u32,
}

impl Timestamp {
    /// Whether the timestamp lies in the years that the calendar covers.
    #[verifier::type_invariant]
    pub closed spec fn valid(self) -> bool {
        MIN_SECS <= self.secs <= MAX_SECS && self.nanos < 1_000_000_000
    }

    /// The nanoseconds since the start of 1970.
    pub closed spec fn instant(self) -> int {
        self.secs * 1_000_000_000 + self.nanos
    }

    /// Whether a clock can show this time: it lies in 1970 or later.
    pub open spec fn shown(self) -> bool {
        self.valid() && self.instant() >= 0
    }

    /// The timestamp `nanos` nanoseconds into second `secs` since the start of 1970, if
    /// there is one.
    pub fn from_unix(secs: i64, nanos: u32) -> (timestamp: Option<Timestamp>)
        ensures
            match timestamp {
                Some(t) => {
                    &&& MIN_SECS <= secs <= MAX_SECS
                    &&& nanos < 1_000_000_000
                    &&& t.valid()
                    &&& t.instant() == secs * 1_000_000_000 + nanos
                },
                None => !(MIN_SECS <= secs <= MAX_SECS && nanos < 1_000_000_000),
            },
    {
        if MIN_SECS <= secs && secs <= MAX_SECS && nanos < 1_000_000_000 {
            Some(Timestamp { secs, nanos })
        } else {
            None
        }
    }

    /// The seconds since the start of 1970 and the nanoseconds in the last of them.
    pub fn to_unix(&self) -> (parts: (i64, u32))
        ensures
            self.instant() == parts.0 * 1_000_000_000 + parts.1,
            parts.1 < 1_000_000_000,
            MIN_SECS <= parts.0 <= MAX_SECS,
    {
        proof {
            use_type_invariant(self);
        }
        (self.secs, self.nanos)
    }
}

/// A time span: whole seconds, and the nanoseconds beyond them, which have the same sign.
#[derive(Debug, Clone, Copy, PartialEq, Eq, Structural)]
pub struct TimeSpan {
    pub secs: i64,
    pub nanos: i32,
}

impl TimeSpan {
    /// The length of the span in nanoseconds.
    pub open spec fn length(self) -> int {
        self.secs * 1_000_000_000 + self.nanos
    }

    /// Whether the nanoseconds are less than a second and point the way the seconds do.
    pub open spec fn valid(self) -> bool {
        &&& -1_000_000_000 < self.nanos < 1_000_000_000
        &&& self.secs > 0 ==> self.nanos >= 0
        &&& self.secs < 0 ==> self.nanos <= 0
    }

    /// Whether the span is longer than another one.
    pub fn exceeds(&self, other: &TimeSpan) -> (longer: bool)
        ensures
            longer == (self.length() > other.length()),
    {
        let a: i128 = self.secs as i128 * 1_000_000_000 + self.nanos as i128;
        let b: i128 = other.secs as i128 * 1_000_000_000 + other.nanos as i128;
        a > b
    }
}

/// A count of seconds as the 64 bit signed number with the same bits.
pub open spec fn as_signed(secs: u64) -> int {
    if secs < 0x8000_0000_0000_0000 {
        secs as int
    } else {
        secs - 0x1_0000_0000_0000_0000
    }
}

/// A count of seconds as the 64 bit signed number with the same bits.
pub fn signed_secs(secs: u64) -> (signed: i64)
    ensures
        signed == as_signed(secs),
{
    assert(secs < 0x8000_0000_0000_0000u64 ==> (secs as i64) == secs) by (bit_vector);
    assert(secs >= 0x8000_0000_0000_0000u64 ==> (secs as i64) == secs - 0x1_0000_0000_0000_0000)
        by (bit_vector);
    secs as i64
}

/// Whether there is a time span of so many seconds.
pub open spec fn is_span(secs: u64) -> bool {
    -MAX_SPAN_SECS <= as_signed(secs) <= MAX_SPAN_SECS
}

/// Whether there is a time span of so many seconds.
pub fn has_span(secs: u64) -> (found: bool)
    ensures
        found == is_span(secs),
{
    let signed: i64 = signed_secs(secs);
    -MAX_SPAN_SECS <= signed && signed <= MAX_SPAN_SECS
}

/// The whole seconds in so many nanoseconds, what is left over dropped.
pub open spec fn whole_secs(nanos: int) -> int {
    if nanos >= 0 {
        nanos / 1_000_000_000
    } else {
        -((-nanos) / 1_000_000_000)
    }
}

/// The seconds of a time span are the whole seconds of its length.
pub proof fn lemma_whole_secs(span: TimeSpan)
    requires
        span.valid(),
    ensures
        span.secs == whole_secs(span.length()),
{
}

/// No two timestamps are further apart than the calendar is long.
pub proof fn lemma_between(earlier: Timestamp, later: Timestamp)
    requires
        earlier.valid(),
        later.valid(),
    ensures
        -(MAX_SECS - MIN_SECS + 1) <= whole_secs(later.instant() - earlier.instant()) <= MAX_SECS
            - MIN_SECS + 1,
{
}

/// The current time, from `chrono::Utc::now`, which lies in 1970 or later. More than that is
/// not said of it, nor that a later call gives a later time. The call panics where the clock of
/// the machine shows an earlier year, or one beyond the calendar.
#[verifier::external_body]
pub(crate) fn utc_now() -> (now: Timestamp)
    ensures
        now.shown(),
{
    let now = Utc::now();
    Timestamp { secs: now.timestamp(), nanos: now.timestamp_subsec_nanos() }
}

/// The time from `earlier` to `later`, from the subtraction of two `chrono::DateTime<Utc>`:
/// the difference of the two instants, as whole seconds and the nanoseconds beyond them.
#[verifier::external_body]
pub(crate) fn time_between(earlier: Timestamp, later: Timestamp) -> (span: TimeSpan)
    requires
        earlier.valid(),
        later.valid(),
    ensures
        span.valid(),
        span.length() == later.instant() - earlier.instant(),
{
    let from: DateTime<Utc> = DateTime::from_timestamp(earlier.secs, earlier.nanos).unwrap();
    let to: DateTime<Utc> = DateTime::from_timestamp(later.secs, later.nanos).unwrap();
    let span = to - from;
    TimeSpan { secs: span.num_seconds(), nanos: span.subsec_nanos() }
}

/// The span of `secs` seconds, from `chrono::TimeDelta::seconds`.
#[verifier::external_body]
pub(crate) fn seconds(secs: i64) -> (span: TimeSpan)
    requires
        -MAX_SPAN_SECS <= secs <= MAX_SPAN_SECS,
    ensures
        span.valid(),
        span.length() == secs * 1_000_000_000,
{
    let span = TimeDelta::seconds(secs);
    TimeSpan { secs: span.num_seconds(), nanos: span.subsec_nanos() }
}

} // verus!
