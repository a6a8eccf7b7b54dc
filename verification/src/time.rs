//! The instants and spans of time that the rate limiters work with.
//!
//! An [`Timestamp`] stands for a UTC calendar instant with nanosecond precision, within the span of
//! years that chrono's calendar types can represent; an [`Interval`] stands for a signed span of
//! time as chrono's `TimeDelta` holds one.

use std::time::{SystemTime, UNIX_EPOCH};
use vstd::prelude::*;

verus! {

/// Nanoseconds in one second.
pub const NANOS_PER_SEC: u32 = 1_000_000_000;

/// Seconds from the Unix epoch to -262143-01-01T00:00:00, the earliest instant of chrono's calendar.
pub const MIN_UNIX_SECS: i64 = -8_334_601_315_200;

/// Seconds from the Unix epoch to +262142-12-31T23:59:59, the last whole second of chrono's
/// calendar.
pub const MAX_UNIX_SECS: i64 = 8_210_266_876_799;

/// The largest span chrono's `TimeDelta` holds, in milliseconds (the negative bound is its
/// negation).
pub const MAX_INTERVAL_MILLIS: i64 = 9_223_372_036_854_775_807;

/// Whether an instant, given as nanoseconds from the Unix epoch, lies in the calendar.
pub open spec fn in_calendar(nanos: int) -> bool {
    MIN_UNIX_SECS * 1_000_000_000 <= nanos < (MAX_UNIX_SECS + 1) * 1_000_000_000
}

/// Whether a span, given in nanoseconds, can be held by an [`Interval`].
pub open spec fn in_interval_range(nanos: int) -> bool {
    -MAX_INTERVAL_MILLIS * 1_000_000 <= nanos <= MAX_INTERVAL_MILLIS * 1_000_000
}

/// The instant `nanos` (from the Unix epoch) if the calendar holds it.
pub open spec fn calendar_instant(nanos: int) -> Option<int> {
    if in_calendar(nanos) {
        Some(nanos)
    } else {
        None
    }
}

/// A UTC instant: whole seconds from the Unix epoch and the nanoseconds past that second.
#[derive(Debug, Clone, Copy, PartialEq, Eq, Hash)]
pub struct Timestamp {
    secs: i64,
    nanos: u32,
}

impl View for Timestamp {
    type V = int;

    /// Nanoseconds from the Unix epoch.
    closed spec fn view(&self) -> int {
        self.secs * 1_000_000_000 + self.nanos
    }
}

impl Timestamp {
    #[verifier::type_invariant]
    spec fn well_formed(self) -> bool {
        &&& self.nanos < 1_000_000_000
        &&& MIN_UNIX_SECS <= self.secs <= MAX_UNIX_SECS
    }

    /// The whole seconds from the Unix epoch.
    pub closed spec fn spec_unix_seconds(self) -> int {
        self.secs as int
    }

    /// The nanoseconds past the whole second.
    pub closed spec fn spec_subsec_nanos(self) -> int {
        self.nanos as int
    }

    /// The instant `secs` seconds and `nanos` nanoseconds after the Unix epoch, if the calendar
    /// holds it and `nanos` is less than a second.
    pub fn from_unix(secs: i64, nanos: u32) -> (r: Option<Timestamp>)
        ensures
            r is Some <==> (nanos < NANOS_PER_SEC && MIN_UNIX_SECS <= secs <= MAX_UNIX_SECS),
            r matches Some(t) ==> t.spec_unix_seconds() == secs && t.spec_subsec_nanos() == nanos
                && t@ == secs * 1_000_000_000 + nanos,
    {
        if nanos < NANOS_PER_SEC && MIN_UNIX_SECS <= secs && secs <= MAX_UNIX_SECS {
            Some(Timestamp { secs, nanos })
        } else {
            None
        }
    }

    /// The timestamp that is `nanos` nanoseconds from the Unix epoch, if the calendar holds it.
    fn from_total_nanos(total: i128) -> (r: Option<Timestamp>)
        ensures
            r is Some <==> in_calendar(total as int),
            r matches Some(t) ==> t@ == total,
    {
        let min: i128 = MIN_UNIX_SECS as i128 * 1_000_000_000;
        let max: i128 = (MAX_UNIX_SECS as i128 + 1) * 1_000_000_000;
        if total < min || total >= max {
            return None;
        }
        let shifted: i128 = total - min;
        let secs_from_min: i128 = shifted / 1_000_000_000;
        let nanos: i128 = shifted % 1_000_000_000;
        assert(shifted == secs_from_min * 1_000_000_000 + nanos) by (nonlinear_arith)
            requires
                secs_from_min == shifted / 1_000_000_000,
                nanos == shifted % 1_000_000_000,
                shifted >= 0,
        ;
        assert(0 <= nanos < 1_000_000_000);
        assert(secs_from_min * 1_000_000_000 < max - min) by (nonlinear_arith)
            requires
                shifted == secs_from_min * 1_000_000_000 + nanos,
                0 <= nanos,
                shifted < max - min,
        ;
        assert(secs_from_min < MAX_UNIX_SECS + 1 - MIN_UNIX_SECS) by (nonlinear_arith)
            requires
                secs_from_min * 1_000_000_000 < (MAX_UNIX_SECS + 1 - MIN_UNIX_SECS) * 1_000_000_000,
        ;
        assert(secs_from_min >= 0) by (nonlinear_arith)
            requires
                shifted == secs_from_min * 1_000_000_000 + nanos,
                nanos < 1_000_000_000,
                shifted >= 0,
        ;
        let secs: i64 = (secs_from_min + MIN_UNIX_SECS as i128) as i64;
        let t = Timestamp { secs, nanos: nanos as u32 };
        Some(t)
    }

    /// The whole seconds from the Unix epoch.
    pub fn unix_seconds(&self) -> (r: i64)
        ensures
            r == self.spec_unix_seconds(),
    {
        self.secs
    }

    /// The nanoseconds past the whole second.
    pub fn subsec_nanos(&self) -> (r: u32)
        ensures
            r == self.spec_subsec_nanos(),
    {
        self.nanos
    }

    /// Nanoseconds from the Unix epoch.
    pub fn total_nanos(&self) -> (r: i128)
        ensures
            r == self@,
            in_calendar(r as int),
    {
        proof {
            use_type_invariant(self);
        }
        self.secs as i128 * 1_000_000_000 + self.nanos as i128
    }

    /// Whether this instant comes strictly before `other`.
    pub fn is_before(&self, other: &Timestamp) -> (r: bool)
        ensures
            r == (self@ < other@),
    {
        self.total_nanos() < other.total_nanos()
    }

    /// The instant `interval` after this one, if the calendar holds it (chrono's
    /// `checked_add_signed`).
    pub fn checked_add_interval(&self, interval: &Interval) -> (r: Option<Timestamp>)
        ensures
            r is Some <==> in_calendar(self@ + interval@),
            r matches Some(t) ==> t@ == self@ + interval@,
    {
        proof {
            use_type_invariant(self);
            use_type_invariant(interval);
        }
        Timestamp::from_total_nanos(self.total_nanos() + interval.total_nanos())
    }

    /// The span from `earlier` to this instant.
    pub fn since(&self, earlier: &Timestamp) -> (r: Interval)
        ensures
            r@ == self@ - earlier@,
    {
        proof {
            use_type_invariant(self);
            use_type_invariant(earlier);
        }
        let d = self.total_nanos() - earlier.total_nanos();
        Interval::from_total_nanos(d)
    }
}

#[verifier::external_type_specification]
#[verifier::external_body]
pub struct ExSystemTime(SystemTime);

/// Reads the system clock (`std::time::SystemTime::now`). What it reads is not stated.
#[verifier::external_body]
fn system_now() -> SystemTime {
    SystemTime::now()
}

/// How far `t` lies from the Unix epoch (`SystemTime::duration_since(UNIX_EPOCH)`), as whether
/// it lies before the epoch, the whole seconds and the nanoseconds past them. Before the epoch
/// the distance is the one std's `SystemTimeError::duration` reports. std documents the
/// nanoseconds of a `Duration` as less than one second; nothing else is stated.
#[verifier::external_body]
fn offset_from_unix_epoch(t: &SystemTime) -> (r: (bool, u64, u32))
    ensures
        r.2 < NANOS_PER_SEC,
{
    match t.duration_since(UNIX_EPOCH) {
        Ok(after) => (false, after.as_secs(), after.subsec_nanos()),
        Err(before) => (true, before.duration().as_secs(), before.duration().subsec_nanos()),
    }
}

/// The first instant of the calendar, in nanoseconds from the Unix epoch.
pub open spec fn calendar_start() -> int {
    MIN_UNIX_SECS * 1_000_000_000
}

/// The last instant of the calendar, in nanoseconds from the Unix epoch.
pub open spec fn calendar_end() -> int {
    (MAX_UNIX_SECS + 1) * 1_000_000_000 - 1
}

/// The instant `nanos` (from the Unix epoch), or the nearer end of the calendar when the
/// calendar does not hold it.
pub open spec fn nearest_calendar_instant(nanos: int) -> int {
    if nanos < calendar_start() {
        calendar_start()
    } else if nanos > calendar_end() {
        calendar_end()
    } else {
        nanos
    }
}

/// The signed distance from the Unix epoch of a clock reading: `secs` seconds and `nanos`
/// nanoseconds, before the epoch when `before`.
pub open spec fn clock_offset(before: bool, secs: u64, nanos: u32) -> int {
    if before {
        -(secs * 1_000_000_000 + nanos)
    } else {
        secs * 1_000_000_000 + nanos
    }
}

impl Timestamp {
    /// The instant of a clock reading that lies `secs` seconds and `nanos` nanoseconds from the
    /// Unix epoch (before it when `before`); a reading past either end of the calendar is taken
    /// as that end.
    pub fn from_clock_reading(before: bool, secs: u64, nanos: u32) -> (r: Timestamp)
        requires
            nanos < NANOS_PER_SEC,
        ensures
            r@ == nearest_calendar_instant(clock_offset(before, secs, nanos)),
    {
        let magnitude: i128 = secs as i128 * 1_000_000_000 + nanos as i128;
        let offset: i128 = if before {
            -magnitude
        } else {
            magnitude
        };
        match Timestamp::from_total_nanos(offset) {
            Some(t) => t,
            None => {
                if offset < 0 {
                    Timestamp { secs: MIN_UNIX_SECS, nanos: 0 }
                } else {
                    Timestamp { secs: MAX_UNIX_SECS, nanos: NANOS_PER_SEC - 1 }
                }
            },
        }
    }
}

/// The present instant, read from the system clock; a reading past either end of the calendar
/// is taken as that end. What the clock reads is not stated.
pub(crate) fn current_time() -> Timestamp {
    let now = system_now();
    let (before, secs, nanos) = offset_from_unix_epoch(&now);
    Timestamp::from_clock_reading(before, secs, nanos)
}

/// A signed span of time: whole seconds (rounded down) and the nanoseconds past them, bounded as
/// chrono's `TimeDelta` is, by `i64::MAX` milliseconds either way.
#[derive(Debug, Clone, Copy, PartialEq, Eq, Hash)]
pub struct Interval {
    secs: i64,
    nanos: u32,
}

impl View for Interval {
    type V = int;

    /// The span in nanoseconds.
    closed spec fn view(&self) -> int {
        self.secs * 1_000_000_000 + self.nanos
    }
}

impl Interval {
    #[verifier::type_invariant]
    spec fn well_formed(self) -> bool {
        &&& self.nanos < 1_000_000_000
        &&& in_interval_range(self.secs * 1_000_000_000 + self.nanos)
    }

    /// The whole seconds, rounded down.
    pub closed spec fn spec_floor_seconds(self) -> int {
        self.secs as int
    }

    /// The nanoseconds past the rounded-down seconds.
    pub closed spec fn spec_subsec_nanos(self) -> int {
        self.nanos as int
    }

    /// The span of `seconds` seconds (chrono's `TimeDelta::seconds`, which panics beyond
    /// `i64::MAX / 1000` seconds either way).
    pub fn seconds(seconds: i64) -> (r: Interval)
        requires
            -(MAX_INTERVAL_MILLIS / 1000) <= seconds <= MAX_INTERVAL_MILLIS / 1000,
        ensures
            r@ == seconds * 1_000_000_000,
    {
        Interval { secs: seconds, nanos: 0 }
    }

    /// The span of `millis` milliseconds (chrono's `TimeDelta::milliseconds`, which panics on
    /// `i64::MIN`).
    pub fn milliseconds(millis: i64) -> (r: Interval)
        requires
            millis >= -MAX_INTERVAL_MILLIS,
        ensures
            r@ == millis * 1_000_000,
    {
        let total: i128 = millis as i128 * 1_000_000;
        Interval::from_total_nanos(total)
    }

    /// The span of `secs` seconds plus `nanos` nanoseconds, if `nanos` is less than a second and
    /// the span lies in range (chrono's `TimeDelta::new`).
    pub fn new(secs: i64, nanos: u32) -> (r: Option<Interval>)
        ensures
            r is Some <==> (nanos < NANOS_PER_SEC && in_interval_range(secs * 1_000_000_000 + nanos)),
            r matches Some(d) ==> d@ == secs * 1_000_000_000 + nanos,
    {
        if nanos >= NANOS_PER_SEC {
            return None;
        }
        let total: i128 = secs as i128 * 1_000_000_000 + nanos as i128;
        let bound: i128 = MAX_INTERVAL_MILLIS as i128 * 1_000_000;
        if total < -bound || total > bound {
            None
        } else {
            Some(Interval { secs, nanos })
        }
    }

    /// The empty span.
    pub fn zero() -> (r: Interval)
        ensures
            r@ == 0,
    {
        Interval { secs: 0, nanos: 0 }
    }

    /// The span of `total` nanoseconds.
    fn from_total_nanos(total: i128) -> (r: Interval)
        requires
            in_interval_range(total as int),
        ensures
            r@ == total,
    {
        let bound: i128 = MAX_INTERVAL_MILLIS as i128 * 1_000_000;
        let shifted: i128 = total + bound;
        let secs_part: i128 = shifted / 1_000_000_000;
        let nanos: i128 = shifted % 1_000_000_000;
        assert(shifted == secs_part * 1_000_000_000 + nanos) by (nonlinear_arith)
            requires
                secs_part == shifted / 1_000_000_000,
                nanos == shifted % 1_000_000_000,
                shifted >= 0,
        ;
        assert(0 <= secs_part <= 2 * bound / 1_000_000_000) by (nonlinear_arith)
            requires
                shifted == secs_part * 1_000_000_000 + nanos,
                0 <= nanos < 1_000_000_000,
                0 <= shifted <= 2 * bound,
        ;
        // `bound` is a whole number of milliseconds, not of seconds: carry its sub-second part.
        let bound_secs: i128 = 9_223_372_036_854_775;
        let bound_nanos: i128 = 807_000_000;
        assert(bound == bound_secs * 1_000_000_000 + bound_nanos);
        let mut secs: i128 = secs_part - bound_secs;
        let mut rest: i128 = nanos - bound_nanos;
        if rest < 0 {
            rest = rest + 1_000_000_000;
            secs = secs - 1;
        }
        assert(total == secs * 1_000_000_000 + rest);
        let r = Interval { secs: secs as i64, nanos: rest as u32 };
        r
    }

    /// The span in nanoseconds.
    pub fn total_nanos(&self) -> (r: i128)
        ensures
            r == self@,
            in_interval_range(r as int),
    {
        proof {
            use_type_invariant(self);
        }
        self.secs as i128 * 1_000_000_000 + self.nanos as i128
    }

    /// The whole seconds, rounded down.
    pub fn floor_seconds(&self) -> (r: i64)
        ensures
            r == self.spec_floor_seconds(),
    {
        self.secs
    }

    /// The nanoseconds past the rounded-down seconds.
    pub fn subsec_nanos(&self) -> (r: u32)
        ensures
            r == self.spec_subsec_nanos(),
    {
        self.nanos
    }
}

} // verus!
