//! Points in time, and the two clocks that the cluster reads.
use chrono::{DateTime, Duration, Utc};
use std::time::Instant;
use vstd::prelude::*;

verus! {

/// The first second that the calendar can represent, counted from 1970.
pub const FIRST_SECOND: i64 = -8_334_601_228_800;

/// The last second that the calendar can represent, counted from 1970.
pub const LAST_SECOND: i64 = 8_210_266_876_799;

/// The longest span, in seconds, that calendar arithmetic accepts.
pub const LONGEST_SPAN: i64 = 9_223_372_036_854_775;

/// A point in time: whole seconds since 1970 in UTC, and nanoseconds within the
/// second. Inside a leap second the nanoseconds exceed one thousand million.
#[derive(Clone, Copy, Debug, PartialEq, Eq, Structural)]
pub struct Timestamp {
    pub secs: i64,
    pub nanos: u32,
}

impl DeepView for Timestamp {
    type V = Timestamp;

    open spec fn deep_view(&self) -> Timestamp {
        *self
    }
}

impl Timestamp {
    /// A time that the calendar can represent, not inside a leap second.
    pub open spec fn is_regular(self) -> bool {
        FIRST_SECOND <= self.secs <= LAST_SECOND && self.nanos < 1_000_000_000
    }

    /// A time that the calendar clock can show: it never shows one before 1970.
    pub open spec fn is_reading(self) -> bool {
        self.is_regular() && 0 <= self.secs
    }

    /// A time that the calendar can represent, inside a leap second too.
    pub open spec fn is_representable(self) -> bool {
        &&& FIRST_SECOND <= self.secs <= LAST_SECOND
        &&& self.nanos < 1_000_000_000 || (self.nanos < 2_000_000_000 && self.secs as int % 60
            == 59)
    }

    /// Whether this point lies before the other.
    pub open spec fn precedes(self, other: Timestamp) -> bool {
        self.secs < other.secs || (self.secs == other.secs && self.nanos < other.nanos)
    }

    /// Whether the point `timeout` seconds before this one can be represented.
    /// The timeout is read as a signed number of 64 bits.
    pub open spec fn reaches_back(self, timeout: u64) -> bool {
        &&& -LONGEST_SPAN <= timeout as i64 <= LONGEST_SPAN
        &&& FIRST_SECOND <= self.secs - (timeout as i64) <= LAST_SECOND
    }

    /// The point `timeout` seconds before this one.
    pub open spec fn minus_seconds(self, timeout: u64) -> Timestamp {
        Timestamp { secs: (self.secs - (timeout as i64)) as i64, nanos: self.nanos }
    }

    /// Whether this point lies before the other.
    pub fn before(&self, other: &Timestamp) -> (r: bool)
        ensures
            r == self.precedes(*other),
    {
        self.secs < other.secs || (self.secs == other.secs && self.nanos < other.nanos)
    }

    /// Whether the calendar can represent this point.
    pub fn can_be_shown(&self) -> (r: bool)
        ensures
            r == self.is_representable(),
    {
        FIRST_SECOND <= self.secs && self.secs <= LAST_SECOND && (self.nanos < 1_000_000_000 || (
        self.nanos < 2_000_000_000 && (self.secs - FIRST_SECOND) % 60 == 59))
    }

    /// Whether `earlier` can be asked for the point `timeout` seconds back.
    pub fn can_go_back(&self, timeout: u64) -> (r: bool)
        ensures
            r == (self.is_regular() && self.reaches_back(timeout)),
    {
        let span: i64 = timeout as i64;
        FIRST_SECOND <= self.secs && self.secs <= LAST_SECOND && self.nanos < 1_000_000_000
            && -LONGEST_SPAN <= span && span <= LONGEST_SPAN && FIRST_SECOND <= self.secs - span
            && self.secs - span <= LAST_SECOND
    }

    /// The point `timeout` seconds back.
    pub fn earlier(&self, timeout: u64) -> (r: Timestamp)
        requires
            self.is_regular(),
            self.reaches_back(timeout),
        ensures
            r == self.minus_seconds(timeout),
    {
        let (secs, nanos) = utc_minus_seconds(self.secs, self.nanos, timeout as i64);
        Timestamp { secs, nanos }
    }
}

/// `chrono::Utc::now`, as seconds since 1970 and nanoseconds within the second.
/// The time itself is left open; it is one that the calendar can represent, not
/// before 1970 and never inside a leap second. On a machine whose clock shows a
/// time before 1970 the function does not return.
#[verifier::external_body]
fn utc_now() -> (r: (i64, u32))
    ensures
        0 <= r.0 <= LAST_SECOND,
        r.1 < 1_000_000_000,
{
    let t = Utc::now();
    (t.timestamp(), t.timestamp_subsec_nanos())
}

/// `chrono`'s subtraction of `Duration::seconds(span)` from a `DateTime<Utc>`.
/// Outside a leap second, and as long as the result can be represented, whole
/// seconds are taken from the seconds and the nanoseconds stay.
#[verifier::external_body]
fn utc_minus_seconds(secs: i64, nanos: u32, span: i64) -> (r: (i64, u32))
    requires
        FIRST_SECOND <= secs <= LAST_SECOND,
        nanos < 1_000_000_000,
        -LONGEST_SPAN <= span <= LONGEST_SPAN,
        FIRST_SECOND <= secs - span <= LAST_SECOND,
    ensures
        r.0 == secs - span,
        r.1 == nanos,
{
    let t: DateTime<Utc> = DateTime::from_timestamp(secs, nanos).unwrap() - Duration::seconds(span);
    (t.timestamp(), t.timestamp_subsec_nanos())
}

/// How `chrono` writes a point in time for diagnostics.
pub uninterp spec fn time_text(secs: i64, nanos: u32) -> Seq<char>;

/// The `Debug` form of a `DateTime<Utc>`. How it reads is not spelled out.
#[verifier::external_body]
pub(crate) fn utc_text(secs: i64, nanos: u32) -> (text: String)
    requires
        (Timestamp { secs, nanos }).is_representable(),
    ensures
        text@ == time_text(secs, nanos),
{
    format!("{:?}", DateTime::from_timestamp(secs, nanos).unwrap())
}

/// The time that the calendar clock shows.
pub fn now() -> (r: Timestamp)
    ensures
        r.is_reading(),
{
    let (secs, nanos) = utc_now();
    Timestamp { secs, nanos }
}

/// A reading of the monotonic clock of std, as an opaque type.
#[verifier::external_type_specification]
#[verifier::external_body]
pub struct ExInstant(Instant);

/// `Instant::now`. Nothing is known of the reading.
pub assume_specification[ std::time::Instant::now ]() -> std::time::Instant
;

/// A reading of both clocks.
#[derive(Clone, Copy, Debug)]
pub struct Moment {
    /// What the calendar clock shows.
    pub time: Timestamp,
    /// What the monotonic clock shows.
    pub instant: Instant,
}

/// A reading of both clocks at the present time.
pub fn moment() -> (r: Moment)
    ensures
        r.time.is_reading(),
{
    Moment { time: now(), instant: Instant::now() }
}

/// `Instant::elapsed`, in whole milliseconds. Nothing is known of the number:
/// it rests on how much time has passed.
#[verifier::external_body]
pub(crate) fn elapsed_millis(since: &Instant) -> u128 {
    since.elapsed().as_millis()
}

/// A number of milliseconds as it is reported: the lowest 64 bits count.
pub fn reported_millis(elapsed: u128) -> (ms: u64)
    ensures
        ms == elapsed % 0x1_0000_0000_0000_0000,
{
    assert(elapsed as u64 == elapsed % 0x1_0000_0000_0000_0000u128) by (bit_vector);
    elapsed as u64
}

} // verus!
