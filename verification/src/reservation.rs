//! The reservation record and the candidate a caller submits to create one.

use crate::interval::{Interval, Timestamp};
use crate::status::ReservationStatus;
use vstd::prelude::*;

verus! {

/// A booking of one resource for one exclusive interval.
///
/// The id is assigned by the store on creation and never changes; the
/// requester and resource identifiers are opaque to the engine; the note is
/// free-form and mutable; the status is driven by the state machine.
#[derive(Debug)]
pub struct Reservation {
    pub id: u64,
    pub requester_id: String,
    pub resource_id: String,
    pub interval: Interval,
    pub note: String,
    pub status: ReservationStatus,
}

impl Reservation {
    /// A well-formed record carries a well-formed interval.
    pub open spec fn wf(self) -> bool {
        self.interval.wf()
    }
}

impl Clone for Reservation {
    /// A value copy: callers receive clones of the authoritative records,
    /// never handles into them.
    fn clone(&self) -> (r: Self)
        ensures
            r == *self,
    {
        Reservation {
            id: self.id,
            requester_id: self.requester_id.clone(),
            resource_id: self.resource_id.clone(),
            interval: self.interval,
            note: self.note.clone(),
            status: self.status,
        }
    }
}

/// What a caller submits to book a resource: the timestamps arrive raw and
/// optional, exactly as an outside request carries them, and are validated
/// by the engine before anything is stored.
#[derive(Debug)]
pub struct Candidate {
    pub requester_id: String,
    pub resource_id: String,
    pub start: Option<Timestamp>,
    pub end: Option<Timestamp>,
    pub note: String,
}

impl Clone for Candidate {
    fn clone(&self) -> (r: Self)
        ensures
            r == *self,
    {
        Candidate {
            requester_id: self.requester_id.clone(),
            resource_id: self.resource_id.clone(),
            start: self.start,
            end: self.end,
            note: self.note.clone(),
        }
    }
}

/// The deterministic result order of the query engine: ascending interval
/// start, ties broken by ascending id.
pub open spec fn key_le(a: Reservation, b: Reservation) -> bool {
    ||| a.interval.start.value() < b.interval.start.value()
    ||| (a.interval.start.value() == b.interval.start.value() && a.id <= b.id)
}

} // verus!
