//! The reservation status state machine.
//!
//! A reservation starts `Pending`, may be confirmed, and ends in one of the
//! terminal states `Cancelled` or `Completed`. Only an active reservation
//! (`Pending` or `Confirmed`) occupies its resource for conflict purposes.

use crate::ReservationError;
use vstd::prelude::*;

verus! {

/// The lifecycle states of a reservation.
#[derive(Clone, Copy, PartialEq, Eq, Structural, Debug)]
pub enum ReservationStatus {
    /// Initial state of every new reservation.
    Pending,
    /// The booking was confirmed; still occupies the resource.
    Confirmed,
    /// Terminal: the booking was withdrawn and frees its interval.
    Cancelled,
    /// Terminal: the booking ran its course and frees its interval.
    Completed,
}

/// The full transition table: exactly four legal moves. Everything else,
/// including self-transitions and any move out of a terminal state, is
/// rejected.
pub open spec fn transition_allowed(
    current: ReservationStatus,
    requested: ReservationStatus,
) -> bool {
    match (current, requested) {
        (ReservationStatus::Pending, ReservationStatus::Confirmed) => true,
        (ReservationStatus::Pending, ReservationStatus::Cancelled) => true,
        (ReservationStatus::Confirmed, ReservationStatus::Cancelled) => true,
        (ReservationStatus::Confirmed, ReservationStatus::Completed) => true,
        _ => false,
    }
}

/// An active reservation occupies its resource and interval; a terminal one
/// does not.
pub open spec fn spec_is_active(s: ReservationStatus) -> bool {
    s == ReservationStatus::Pending || s == ReservationStatus::Confirmed
}

/// Executable form of [`spec_is_active`].
pub fn is_active(s: ReservationStatus) -> (r: bool)
    ensures
        r == spec_is_active(s),
{
    match s {
        ReservationStatus::Pending => true,
        ReservationStatus::Confirmed => true,
        _ => false,
    }
}

/// The state machine itself: a pure function from the current and the
/// requested status to the next status. Succeeds on exactly the four legal
/// transitions of [`transition_allowed`]; every other pair fails with
/// `InvalidStatusTransition`.
pub fn next(current: ReservationStatus, requested: ReservationStatus) -> (r: Result<
    ReservationStatus,
    ReservationError,
>)
    ensures
        match r {
            Ok(s) => transition_allowed(current, requested) && s == requested,
            Err(e) => {
                &&& e == ReservationError::InvalidStatusTransition
                &&& !transition_allowed(current, requested)
            },
        },
{
    match (current, requested) {
        (ReservationStatus::Pending, ReservationStatus::Confirmed) => Ok(requested),
        (ReservationStatus::Pending, ReservationStatus::Cancelled) => Ok(requested),
        (ReservationStatus::Confirmed, ReservationStatus::Cancelled) => Ok(requested),
        (ReservationStatus::Confirmed, ReservationStatus::Completed) => Ok(requested),
        _ => Err(ReservationError::InvalidStatusTransition),
    }
}

/// A transition never resurrects a booking: if the state it reaches is
/// active, the state it left was active too, so the set of occupied
/// intervals only ever shrinks under status changes.
pub proof fn lemma_transitions_never_activate(
    current: ReservationStatus,
    requested: ReservationStatus,
)
    requires
        transition_allowed(current, requested),
    ensures
        spec_is_active(requested) ==> spec_is_active(current),
{
}

} // verus!
