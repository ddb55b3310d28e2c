use reservation::interval::{Interval, Timestamp};
use reservation::manager::ReservationManager;
use reservation::query::{PageCursor, QueryFilter};
use reservation::reservation::Candidate;
use reservation::status::ReservationStatus;

fn at(hours: i64, minutes: i64) -> Option<Timestamp> {
    Some(Timestamp { seconds: hours * 3600 + minutes * 60, nanos: 0 })
}

fn candidate(
    requester: &str,
    resource: &str,
    start: Option<Timestamp>,
    end: Option<Timestamp>,
) -> Candidate {
    Candidate {
        requester_id: requester.to_string(),
        resource_id: resource.to_string(),
        start,
        end,
        note: String::new(),
    }
}

fn window(start_h: i64, end_h: i64) -> Option<Interval> {
    Some(Interval::normalize(at(start_h, 0), at(end_h, 0)).unwrap())
}

/// Four reservations on two resources; the second one is then cancelled.
fn sample_store() -> (ReservationManager, [u64; 4]) {
    let mut m = ReservationManager::new();
    let a = m.reserve(candidate("U1", "R1", at(9, 0), at(10, 0))).unwrap();
    let b = m.reserve(candidate("U2", "R1", at(10, 0), at(11, 0))).unwrap();
    let c = m.reserve(candidate("U1", "R2", at(8, 0), at(12, 0))).unwrap();
    let d = m.reserve(candidate("U3", "R1", at(14, 0), at(15, 0))).unwrap();
    m.change_status(b.id, ReservationStatus::Cancelled).unwrap();
    (m, [a.id, b.id, c.id, d.id])
}

#[test]
fn unrestricted_query_returns_everything_in_order() {
    let (m, ids) = sample_store();
    let out = m.query(&QueryFilter::unrestricted());
    assert_eq!(out.len(), 4);
    // Ascending interval start, ties broken by id: 08:00, 09:00, 10:00, 14:00.
    assert_eq!(out[0].id, ids[2]);
    assert_eq!(out[1].id, ids[0]);
    assert_eq!(out[2].id, ids[1]);
    assert_eq!(out[3].id, ids[3]);
}

#[test]
fn time_window_returns_exactly_the_overlapping_records() {
    let (m, ids) = sample_store();
    let mut f = QueryFilter::unrestricted();
    f.time_window = window(9, 11);
    let out = m.query(&f);
    // [8,12) overlaps, [9,10) overlaps, [10,11) overlaps (status is
    // irrelevant to the window), [14,15) does not.
    assert_eq!(out.len(), 3);
    assert_eq!(out[0].id, ids[2]);
    assert_eq!(out[1].id, ids[0]);
    assert_eq!(out[2].id, ids[1]);
}

#[test]
fn time_window_is_half_open() {
    let (m, ids) = sample_store();
    let mut f = QueryFilter::unrestricted();
    // [10,14): touches [9,10) only at its boundary, so that record is out,
    // while [8,12) and [10,11) stay.
    f.time_window = window(10, 14);
    let out = m.query(&f);
    assert_eq!(out.len(), 2);
    assert_eq!(out[0].id, ids[2]);
    assert_eq!(out[1].id, ids[1]);
}

#[test]
fn time_window_combines_with_status_filter() {
    let (m, ids) = sample_store();
    let mut f = QueryFilter::unrestricted();
    f.time_window = window(9, 11);
    f.status = Some(ReservationStatus::Pending);
    let out = m.query(&f);
    // The cancelled [10,11) drops out; the window semantics stay the same.
    assert_eq!(out.len(), 2);
    assert_eq!(out[0].id, ids[2]);
    assert_eq!(out[1].id, ids[0]);
}

#[test]
fn resource_filter_is_exact() {
    let (m, ids) = sample_store();
    let mut f = QueryFilter::unrestricted();
    f.resource_id = Some("R2".to_string());
    let out = m.query(&f);
    assert_eq!(out.len(), 1);
    assert_eq!(out[0].id, ids[2]);
}

#[test]
fn requester_filter_is_exact() {
    let (m, ids) = sample_store();
    let mut f = QueryFilter::unrestricted();
    f.requester_id = Some("U1".to_string());
    let out = m.query(&f);
    assert_eq!(out.len(), 2);
    assert_eq!(out[0].id, ids[2]);
    assert_eq!(out[1].id, ids[0]);
}

#[test]
fn status_filter_is_exact() {
    let (m, ids) = sample_store();
    let mut f = QueryFilter::unrestricted();
    f.status = Some(ReservationStatus::Cancelled);
    let out = m.query(&f);
    assert_eq!(out.len(), 1);
    assert_eq!(out[0].id, ids[1]);
}

#[test]
fn conjunctive_filters() {
    let (m, ids) = sample_store();
    let mut f = QueryFilter::unrestricted();
    f.resource_id = Some("R1".to_string());
    f.requester_id = Some("U1".to_string());
    let out = m.query(&f);
    assert_eq!(out.len(), 1);
    assert_eq!(out[0].id, ids[0]);
}

#[test]
fn empty_result_is_not_a_failure() {
    let (m, _) = sample_store();
    let mut f = QueryFilter::unrestricted();
    f.resource_id = Some("R999".to_string());
    let out = m.query(&f);
    assert!(out.is_empty());
}

#[test]
fn query_on_empty_store_is_empty() {
    let m = ReservationManager::new();
    let out = m.query(&QueryFilter::unrestricted());
    assert!(out.is_empty());
}

#[test]
fn limit_caps_the_page() {
    let (m, ids) = sample_store();
    let mut f = QueryFilter::unrestricted();
    f.limit = Some(2);
    let out = m.query(&f);
    assert_eq!(out.len(), 2);
    assert_eq!(out[0].id, ids[2]);
    assert_eq!(out[1].id, ids[0]);
}

#[test]
fn cursor_resumes_after_the_last_seen_key() {
    let (m, ids) = sample_store();
    let mut f = QueryFilter::unrestricted();
    f.limit = Some(2);
    let first_page = m.query(&f);
    let last = &first_page[first_page.len() - 1];
    f.cursor = Some(PageCursor { start: last.interval.start, id: last.id });
    let second_page = m.query(&f);
    assert_eq!(second_page.len(), 2);
    assert_eq!(second_page[0].id, ids[1]);
    assert_eq!(second_page[1].id, ids[3]);
    // The page after the last record is empty.
    let last = &second_page[second_page.len() - 1];
    f.cursor = Some(PageCursor { start: last.interval.start, id: last.id });
    assert!(m.query(&f).is_empty());
}

#[test]
fn paging_is_idempotent_on_an_unchanged_store() {
    let (m, _) = sample_store();
    let mut f = QueryFilter::unrestricted();
    f.limit = Some(3);
    let once = m.query(&f);
    let twice = m.query(&f);
    assert_eq!(once.len(), twice.len());
    for (x, y) in once.iter().zip(twice.iter()) {
        assert_eq!(x.id, y.id);
    }
}

#[test]
fn zero_limit_returns_an_empty_page() {
    let (m, _) = sample_store();
    let mut f = QueryFilter::unrestricted();
    f.limit = Some(0);
    assert!(m.query(&f).is_empty());
}
