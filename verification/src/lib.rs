//! A conflict-aware interval-booking engine.
//!
//! The engine books a shared resource for an exclusive half-open time
//! interval on behalf of a requester. It guarantees that no two active
//! bookings on the same resource ever overlap in time, drives the
//! reservation status state machine, and answers filtered, deterministically
//! ordered queries over the reservation set.
//!
//! The authoritative reservation set lives inside [`manager::ReservationManager`],
//! which is the sole owner of the records: callers receive value copies and
//! mutate only through its operation surface, so the check-then-insert of a
//! new booking is atomic with respect to every other caller.

use vstd::prelude::*;

pub mod interval;
pub mod manager;
pub mod query;
pub mod reservation;
pub mod status;

verus! {

/// Every failure the engine reports, distinguishable by the caller.
#[derive(Clone, Copy, PartialEq, Eq, Structural, Debug)]
pub enum ReservationError {
    /// A timestamp is absent or unparsable, or the start is not strictly
    /// before the end.
    InvalidTime,
    /// The requested interval overlaps an existing active reservation on the
    /// same resource.
    Conflict,
    /// The referenced reservation id does not exist.
    NotFound,
    /// The requested status change is not permitted from the current status.
    InvalidStatusTransition,
    /// The storage layer failed; the in-process store reserves this for
    /// deployments that put a persistence backend behind the same surface.
    BackendUnavailable,
}

} // verus!
