//! Points in time and half-open intervals between them.
//!
//! All timestamps are offsets from one reference epoch (UTC), so every
//! comparison in the engine happens on a single basis. An interval is
//! half-open: `[start, end)` includes its start and excludes its end, so two
//! intervals that share only a boundary point do not overlap.

use crate::ReservationError;
use vstd::prelude::*;

verus! {

/// Number of nanoseconds in one second; a well-formed timestamp keeps its
/// sub-second part below this bound.
pub const NANOS_PER_SECOND: u32 = 1_000_000_000;

/// A point in time: whole seconds since the UTC epoch plus a sub-second
/// nanosecond part. Negative seconds name points before the epoch.
#[derive(Clone, Copy, PartialEq, Eq, Structural, Debug)]
pub struct Timestamp {
    pub seconds: i64,
    pub nanos: u32,
}

impl Timestamp {
    /// The total offset from the epoch in nanoseconds: the single value on
    /// which all ordering and overlap decisions are made.
    pub open spec fn value(self) -> int {
        self.seconds as int * 1_000_000_000 + self.nanos as int
    }

    /// A parsable timestamp: the nanosecond part names a point inside its
    /// own second.
    pub open spec fn wf(self) -> bool {
        self.nanos < NANOS_PER_SECOND
    }

    /// Executable well-formedness test, for callers outside verified code.
    pub fn is_wf(&self) -> (r: bool)
        ensures
            r == self.wf(),
    {
        self.nanos < NANOS_PER_SECOND
    }

    /// Strict order on well-formed timestamps: lexicographic on
    /// (seconds, nanos), which coincides with the order of the total
    /// nanosecond offsets.
    pub fn before(&self, other: &Timestamp) -> (r: bool)
        requires
            self.wf(),
            other.wf(),
        ensures
            r == (self.value() < other.value()),
    {
        if self.seconds != other.seconds {
            self.seconds < other.seconds
        } else {
            self.nanos < other.nanos
        }
    }
}

/// Both timestamps of a candidate range are present, parsable, and in
/// strictly increasing order: exactly the ranges `normalize` accepts.
pub open spec fn times_valid(start: Option<Timestamp>, end: Option<Timestamp>) -> bool {
    match (start, end) {
        (Some(s), Some(e)) => s.wf() && e.wf() && s.value() < e.value(),
        _ => false,
    }
}

/// A half-open time range `[start, end)` on the reference epoch.
///
/// The type's invariant is [`Interval::wf`]: both endpoints well-formed and
/// `start` strictly before `end` (zero-length ranges are invalid).
/// [`Interval::normalize`] is the only operation that establishes it.
#[derive(Clone, Copy, PartialEq, Eq, Structural, Debug)]
pub struct Interval {
    pub start: Timestamp,
    pub end: Timestamp,
}

/// The sole correctness-critical predicate of the engine: two half-open
/// ranges overlap iff each starts before the other ends.
pub open spec fn spec_overlaps(a: Interval, b: Interval) -> bool {
    a.start.value() < b.end.value() && b.start.value() < a.end.value()
}

impl Interval {
    /// The interval's invariant: well-formed endpoints, start strictly
    /// before end.
    pub open spec fn wf(self) -> bool {
        self.start.wf() && self.end.wf() && self.start.value() < self.end.value()
    }

    /// Executable well-formedness test, for callers outside verified code.
    pub fn is_wf(&self) -> (r: bool)
        ensures
            r == self.wf(),
    {
        self.start.is_wf() && self.end.is_wf() && self.start.before(&self.end)
    }

    /// Validates a candidate range and yields the interval it names.
    ///
    /// Succeeds on exactly the ranges where both timestamps are present and
    /// parsable and the start lies strictly before the end; every other
    /// input fails with `InvalidTime`.
    pub fn normalize(start: Option<Timestamp>, end: Option<Timestamp>) -> (r: Result<
        Interval,
        ReservationError,
    >)
        ensures
            match r {
                Ok(iv) => {
                    &&& times_valid(start, end)
                    &&& iv.start == start.unwrap()
                    &&& iv.end == end.unwrap()
                    &&& iv.wf()
                },
                Err(e) => {
                    &&& e == ReservationError::InvalidTime
                    &&& !times_valid(start, end)
                },
            },
    {
        match (start, end) {
            (Some(s), Some(e)) => {
                if s.is_wf() && e.is_wf() && s.before(&e) {
                    Ok(Interval { start: s, end: e })
                } else {
                    Err(ReservationError::InvalidTime)
                }
            },
            _ => Err(ReservationError::InvalidTime),
        }
    }

    /// Executable form of [`spec_overlaps`], the half-open overlap test.
    pub fn overlaps(&self, other: &Interval) -> (r: bool)
        requires
            self.wf(),
            other.wf(),
        ensures
            r == spec_overlaps(*self, *other),
    {
        self.start.before(&other.end) && other.start.before(&self.end)
    }
}

/// The overlap predicate is symmetric: whether two ranges collide does not
/// depend on the order in which they are asked about.
pub proof fn lemma_overlaps_symmetric(a: Interval, b: Interval)
    ensures
        spec_overlaps(a, b) == spec_overlaps(b, a),
{
}

/// Two half-open ranges that share only a boundary point do not overlap:
/// `[t0, t1)` and `[t1, t2)` are disjoint.
pub proof fn lemma_touching_intervals_disjoint(a: Interval, b: Interval)
    requires
        a.end.value() == b.start.value(),
    ensures
        !spec_overlaps(a, b),
        !spec_overlaps(b, a),
{
}

} // verus!
