//! Filters for searching the reservation set.
//!
//! All present fields of a filter must hold at once (conjunctive semantics).
//! Pagination is by key: a cursor names the sort key of the last record of
//! the previous page, and a page holds at most `limit` records.

use crate::interval::{spec_overlaps, Interval, Timestamp};
use crate::reservation::Reservation;
use crate::status::ReservationStatus;
use vstd::prelude::*;

verus! {

/// The sort key of one query result: the interval start and the id, the
/// order in which results are returned. A caller passes the key of the last
/// record it saw to fetch the next page.
#[derive(Clone, Copy, PartialEq, Eq, Structural, Debug)]
pub struct PageCursor {
    pub start: Timestamp,
    pub id: u64,
}

/// A record lies strictly after the cursor in the result order.
pub open spec fn after_cursor(c: PageCursor, r: Reservation) -> bool {
    ||| c.start.value() < r.interval.start.value()
    ||| (c.start.value() == r.interval.start.value() && c.id < r.id)
}

/// A filter over the reservation set; every field is optional and all
/// present fields must match at once.
#[derive(Debug)]
pub struct QueryFilter {
    /// Exact match on the resource identifier.
    pub resource_id: Option<String>,
    /// Exact match on the requester identifier.
    pub requester_id: Option<String>,
    /// Exact match on the status.
    pub status: Option<ReservationStatus>,
    /// Keeps the reservations whose interval overlaps this window, under the
    /// same half-open overlap predicate that conflict decisions use.
    pub time_window: Option<Interval>,
    /// Keeps only records strictly after this sort key.
    pub cursor: Option<PageCursor>,
    /// Caps the number of returned records.
    pub limit: Option<usize>,
}

/// A reservation satisfies every present field of the filter.
pub open spec fn matches_filter(f: QueryFilter, r: Reservation) -> bool {
    &&& match f.resource_id {
        Some(x) => x@ == r.resource_id@,
        None => true,
    }
    &&& match f.requester_id {
        Some(x) => x@ == r.requester_id@,
        None => true,
    }
    &&& match f.status {
        Some(s) => s == r.status,
        None => true,
    }
    &&& match f.time_window {
        Some(w) => spec_overlaps(w, r.interval),
        None => true,
    }
    &&& match f.cursor {
        Some(c) => after_cursor(c, r),
        None => true,
    }
}

impl QueryFilter {
    /// A filter is well-formed when its window and cursor timestamps are:
    /// the only demand the query engine makes of a caller.
    pub open spec fn wf(self) -> bool {
        &&& match self.time_window {
            Some(w) => w.wf(),
            None => true,
        }
        &&& match self.cursor {
            Some(c) => c.start.wf(),
            None => true,
        }
    }

    /// Executable well-formedness test, for callers outside verified code.
    pub fn is_wf(&self) -> (r: bool)
        ensures
            r == self.wf(),
    {
        let window_ok = match &self.time_window {
            Some(w) => w.is_wf(),
            None => true,
        };
        let cursor_ok = match &self.cursor {
            Some(c) => c.start.is_wf(),
            None => true,
        };
        window_ok && cursor_ok
    }

    /// The filter that matches everything: a query with it returns the whole
    /// reservation set.
    pub fn unrestricted() -> (f: QueryFilter)
        ensures
            f == (QueryFilter {
                resource_id: None,
                requester_id: None,
                status: None,
                time_window: None,
                cursor: None,
                limit: None,
            }),
    {
        QueryFilter {
            resource_id: None,
            requester_id: None,
            status: None,
            time_window: None,
            cursor: None,
            limit: None,
        }
    }

    /// Executable form of [`matches_filter`].
    pub fn matches(&self, r: &Reservation) -> (b: bool)
        requires
            self.wf(),
            r.wf(),
        ensures
            b == matches_filter(*self, *r),
    {
        let resource_ok = match &self.resource_id {
            Some(x) => *x == r.resource_id,
            None => true,
        };
        let requester_ok = match &self.requester_id {
            Some(x) => *x == r.requester_id,
            None => true,
        };
        let status_ok = match self.status {
            Some(s) => s == r.status,
            None => true,
        };
        let window_ok = match &self.time_window {
            Some(w) => w.overlaps(&r.interval),
            None => true,
        };
        let cursor_ok = match &self.cursor {
            Some(c) => {
                if c.start.before(&r.interval.start) {
                    true
                } else if r.interval.start.before(&c.start) {
                    false
                } else {
                    c.id < r.id
                }
            },
            None => true,
        };
        resource_ok && requester_ok && status_ok && window_ok && cursor_ok
    }
}

} // verus!
