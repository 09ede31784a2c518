//! Points in time and spans between them.

use vstd::prelude::*;

verus! {

/// A point in time: seconds since 1970-01-01T00:00:00Z, and nanoseconds after
/// that second.
#[derive(Debug, Clone, Copy, PartialEq, Eq, Structural, Hash)]
pub struct Timestamp {
    pub secs: i64,
    pub nanos: u32,
}

/// A span of time: seconds, possibly negative, and nanoseconds on top.
#[derive(Debug, Clone, Copy, PartialEq, Eq, Structural, Hash)]
pub struct Span {
    pub secs: i64,
    pub nanos: u32,
}

/// Nanoseconds in a second.
pub const NANOS_PER_SEC: u32 = 1_000_000_000;

/// The first second of the calendar: -262143-01-01T00:00:00Z.
pub const FIRST_SECOND: i64 = -8_334_601_228_800;

/// The last second of the calendar: +262142-12-31T23:59:59Z.
pub const LAST_SECOND: i64 = 8_210_266_876_799;

impl Timestamp {
    /// Whether the nanoseconds stay below a second.
    pub open spec fn valid(&self) -> bool {
        self.nanos < NANOS_PER_SEC
    }

    /// Whether `self` is no later than `other`.
    pub open spec fn at_most(&self, other: Timestamp) -> bool {
        self.secs < other.secs || (self.secs == other.secs && self.nanos <= other.nanos)
    }

    /// 1970-01-01T00:00:00Z.
    pub open spec fn epoch_start() -> Timestamp {
        Timestamp { secs: 0, nanos: 0 }
    }

    /// Whether `self` is no later than `other`.
    pub fn not_after(&self, other: &Timestamp) -> (r: bool)
        ensures
            r == self.at_most(*other),
    {
        self.secs < other.secs || (self.secs == other.secs && self.nanos <= other.nanos)
    }
}

impl Span {
    /// Whether the nanoseconds stay below a second.
    pub open spec fn valid(&self) -> bool {
        self.nanos < NANOS_PER_SEC
    }

    /// A span of whole seconds.
    pub fn seconds(secs: i64) -> (r: Span)
        ensures
            r == (Span { secs, nanos: 0 }),
    {
        Span { secs, nanos: 0 }
    }
}

/// The seconds of `now` plus `span`.
pub open spec fn sum_secs(now: Timestamp, span: Span) -> int {
    now.secs + span.secs + (if now.nanos + span.nanos >= NANOS_PER_SEC {
        1int
    } else {
        0int
    })
}

/// `now` plus `span`.
pub open spec fn plus(now: Timestamp, span: Span) -> Timestamp {
    Timestamp {
        secs: sum_secs(now, span) as i64,
        nanos: (if now.nanos + span.nanos >= NANOS_PER_SEC {
            now.nanos + span.nanos - NANOS_PER_SEC
        } else {
            now.nanos + span.nanos
        }) as u32,
    }
}

/// Whether both `now` and `now` plus `span` lie in the calendar.
pub open spec fn in_calendar(now: Timestamp, span: Span) -> bool {
    &&& FIRST_SECOND <= now.secs <= LAST_SECOND
    &&& FIRST_SECOND <= sum_secs(now, span) <= LAST_SECOND
}

/// Calls `chrono::DateTime::from_timestamp`, `chrono::TimeDelta::new` and
/// `DateTime::checked_add_signed`: the sum of a point in time and a span, where
/// both points lie in the calendar of `chrono`, and nothing where they do not.
#[verifier::external_body]
pub(crate) fn checked_plus(now: Timestamp, span: Span) -> (r: Option<Timestamp>)
    requires
        now.valid(),
        span.valid(),
    ensures
        r == (if in_calendar(now, span) {
            Some(plus(now, span))
        } else {
            None
        }),
{
    let start = chrono::DateTime::from_timestamp(now.secs, now.nanos)?;
    let end = start.checked_add_signed(chrono::TimeDelta::new(span.secs, span.nanos)?)?;
    Some(Timestamp { secs: end.timestamp(), nanos: end.timestamp_subsec_nanos() })
}

/// Calls `chrono::Utc::now`. Nothing is known of the time but that its
/// nanoseconds stay below a second.
#[verifier::external_body]
pub(crate) fn utc_now() -> (r: Timestamp)
    ensures
        r.valid(),
{
    let now = chrono::Utc::now();
    Timestamp { secs: now.timestamp(), nanos: now.timestamp_subsec_nanos() }
}

/// A point in time as nanoseconds since 1970.
pub open spec fn since_epoch(t: Timestamp) -> int {
    t.secs * 1_000_000_000 + t.nanos
}

/// The order of points in time is that of their distance from 1970.
pub proof fn lemma_order_is_chronological(a: Timestamp, b: Timestamp)
    requires
        a.nanos < 1_000_000_000,
        b.nanos < 1_000_000_000,
    ensures
        a.at_most(b) <==> since_epoch(a) <= since_epoch(b),
{
}

/// A span later is that many nanoseconds later.
pub proof fn lemma_plus_adds_up(now: Timestamp, span: Span)
    requires
        now.valid(),
        span.valid(),
        in_calendar(now, span),
    ensures
        since_epoch(plus(now, span)) == since_epoch(now) + span.secs * 1_000_000_000 + span.nanos,
        plus(now, span).nanos < 1_000_000_000,
{
}

} // verus!
