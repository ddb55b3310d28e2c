use reservation::status::{is_active, next, ReservationStatus};
use reservation::ReservationError;

fn all_statuses() -> [ReservationStatus; 4] {
    [
        ReservationStatus::Pending,
        ReservationStatus::Confirmed,
        ReservationStatus::Cancelled,
        ReservationStatus::Completed,
    ]
}

fn legal(current: ReservationStatus, requested: ReservationStatus) -> bool {
    matches!(
        (current, requested),
        (ReservationStatus::Pending, ReservationStatus::Confirmed)
            | (ReservationStatus::Pending, ReservationStatus::Cancelled)
            | (ReservationStatus::Confirmed, ReservationStatus::Cancelled)
            | (ReservationStatus::Confirmed, ReservationStatus::Completed)
    )
}

#[test]
fn all_four_legal_transitions_succeed() {
    assert_eq!(
        next(ReservationStatus::Pending, ReservationStatus::Confirmed),
        Ok(ReservationStatus::Confirmed)
    );
    assert_eq!(
        next(ReservationStatus::Pending, ReservationStatus::Cancelled),
        Ok(ReservationStatus::Cancelled)
    );
    assert_eq!(
        next(ReservationStatus::Confirmed, ReservationStatus::Cancelled),
        Ok(ReservationStatus::Cancelled)
    );
    assert_eq!(
        next(ReservationStatus::Confirmed, ReservationStatus::Completed),
        Ok(ReservationStatus::Completed)
    );
}

#[test]
fn every_other_pair_fails() {
    for current in all_statuses() {
        for requested in all_statuses() {
            if !legal(current, requested) {
                assert_eq!(
                    next(current, requested),
                    Err(ReservationError::InvalidStatusTransition),
                    "expected ({:?}, {:?}) to be rejected",
                    current,
                    requested
                );
            }
        }
    }
}

#[test]
fn whole_table_is_exercised() {
    let mut legal_count: usize = 0;
    for current in all_statuses() {
        for requested in all_statuses() {
            match next(current, requested) {
                Ok(s) => {
                    assert!(legal(current, requested));
                    assert_eq!(s, requested);
                    legal_count += 1;
                }
                Err(e) => {
                    assert!(!legal(current, requested));
                    assert_eq!(e, ReservationError::InvalidStatusTransition);
                }
            }
        }
    }
    assert_eq!(legal_count, 4);
}

#[test]
fn terminal_states_admit_no_exit() {
    for requested in all_statuses() {
        assert!(next(ReservationStatus::Cancelled, requested).is_err());
        assert!(next(ReservationStatus::Completed, requested).is_err());
    }
}

#[test]
fn self_transitions_are_rejected() {
    for s in all_statuses() {
        assert_eq!(next(s, s), Err(ReservationError::InvalidStatusTransition));
    }
}

#[test]
fn activity_of_each_status() {
    assert!(is_active(ReservationStatus::Pending));
    assert!(is_active(ReservationStatus::Confirmed));
    assert!(!is_active(ReservationStatus::Cancelled));
    assert!(!is_active(ReservationStatus::Completed));
}
