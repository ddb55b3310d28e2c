//! The reservation manager: sole owner of the authoritative reservation set.
//!
//! Every mutation goes through its operation surface, and each operation
//! holds exclusive access to the store for its whole check-then-act
//! sequence, so the conflict check and the insert of a new booking are one
//! atomic unit with respect to all other callers.

use crate::interval::{spec_overlaps, times_valid, Interval, Timestamp};
use crate::query::{matches_filter, QueryFilter};
use crate::reservation::{key_le, Candidate, Reservation};
use crate::status::{spec_is_active, ReservationStatus};
use crate::ReservationError;
use vstd::prelude::*;

verus! {

/// No two records carry the same id.
pub open spec fn unique_ids(s: Seq<Reservation>) -> bool {
    forall|i: int, j: int| 0 <= i < j < s.len() ==> s[i].id != s[j].id
}

/// The store is kept in result order: ascending interval start, ties broken
/// by ascending id.
pub open spec fn sorted_by_key(s: Seq<Reservation>) -> bool {
    forall|i: int, j: int| 0 <= i < j < s.len() ==> key_le(s[i], s[j])
}

/// Every record is well-formed.
pub open spec fn wf_all(s: Seq<Reservation>) -> bool {
    forall|i: int| 0 <= i < s.len() ==> (#[trigger] s[i]).wf()
}

/// The central guarantee of the engine: among the records of one resource,
/// no two active reservations overlap in time.
pub open spec fn no_double_booking(s: Seq<Reservation>) -> bool {
    forall|i: int, j: int|
        0 <= i < s.len() && 0 <= j < s.len() && i != j && s[i].resource_id@ == s[j].resource_id@
            && spec_is_active(s[i].status) && spec_is_active(s[j].status) ==> !spec_overlaps(
            s[i].interval,
            s[j].interval,
        )
}

/// Everything the store promises of itself between operations.
pub open spec fn store_inv(s: Seq<Reservation>) -> bool {
    wf_all(s) && unique_ids(s) && sorted_by_key(s) && no_double_booking(s)
}

/// Every stored id lies below the next id to be assigned.
pub open spec fn ids_below(s: Seq<Reservation>, bound: u64) -> bool {
    forall|i: int| 0 <= i < s.len() ==> (#[trigger] s[i]).id < bound
}

/// Some record carries this id.
pub open spec fn contains_id(s: Seq<Reservation>, id: u64) -> bool {
    exists|i: int| 0 <= i < s.len() && (#[trigger] s[i]).id == id
}

/// The index of the record carrying this id; determined whenever the ids
/// are unique and the id is present.
pub open spec fn id_index(s: Seq<Reservation>, id: u64) -> int {
    choose|i: int| 0 <= i < s.len() && (#[trigger] s[i]).id == id
}

/// With unique ids, any index that carries the id is the one `id_index`
/// names.
pub proof fn lemma_id_index(s: Seq<Reservation>, id: u64, i: int)
    requires
        unique_ids(s),
        0 <= i < s.len(),
        s[i].id == id,
    ensures
        contains_id(s, id),
        id_index(s, id) == i,
{
    assert(contains_id(s, id));
    let j = id_index(s, id);
    if i < j {
        assert(s[i].id != s[j].id);
    } else if j < i {
        assert(s[j].id != s[i].id);
    }
}

/// Some active record of this resource overlaps the interval: exactly when
/// a new booking of the interval must be refused.
pub open spec fn has_conflict(s: Seq<Reservation>, resource: Seq<char>, iv: Interval) -> bool {
    exists|i: int|
        0 <= i < s.len() && (#[trigger] s[i]).resource_id@ == resource && spec_is_active(
            s[i].status,
        ) && spec_overlaps(s[i].interval, iv)
}

/// The records a filter keeps, in store order.
pub open spec fn selected(s: Seq<Reservation>, f: QueryFilter) -> Seq<Reservation> {
    s.filter(|r: Reservation| matches_filter(f, r))
}

/// How many of `n` matching records one page holds: all of them, or the
/// filter's limit where that is smaller.
pub open spec fn page_len(f: QueryFilter, n: int) -> int {
    match f.limit {
        Some(l) => if l < n {
            l as int
        } else {
            n
        },
        None => n,
    }
}

/// The selection is exactly the matching records: everything it holds
/// satisfies the filter, and every stored record that satisfies the filter
/// stands in it.
pub proof fn lemma_selected_characterizes(s: Seq<Reservation>, f: QueryFilter)
    ensures
        forall|k: int|
            0 <= k < selected(s, f).len() ==> matches_filter(f, #[trigger] selected(s, f)[k]),
        forall|i: int|
            0 <= i < s.len() && matches_filter(f, #[trigger] s[i]) ==> selected(s, f).contains(
                s[i],
            ),
{
    let pred = |r: Reservation| matches_filter(f, r);
    assert forall|k: int| 0 <= k < selected(s, f).len() implies matches_filter(
        f,
        #[trigger] selected(s, f)[k],
    ) by {
        s.lemma_filter_pred(pred, k);
    }
    assert forall|i: int| 0 <= i < s.len() && matches_filter(f, #[trigger] s[i]) implies selected(
        s,
        f,
    ).contains(s[i]) by {
        s.lemma_filter_contains(pred, i);
    }
}

/// Extending the examined prefix by one record extends its selection by that
/// record exactly when the record matches.
proof fn lemma_selected_step(s: Seq<Reservation>, i: int, f: QueryFilter)
    requires
        0 <= i < s.len(),
    ensures
        selected(s.take(i + 1), f) == if matches_filter(f, s[i]) {
            selected(s.take(i), f).push(s[i])
        } else {
            selected(s.take(i), f)
        },
{
    reveal(Seq::filter);
    let t = s.take(i + 1);
    assert(t.drop_last() =~= s.take(i));
    assert(t.last() == s[i]);
}

/// A selection out of a store in result order is itself in result order:
/// filtering keeps the relative order of the records, and each kept record
/// still stands somewhere in the store.
proof fn lemma_selected_sorted(s: Seq<Reservation>, f: QueryFilter)
    requires
        sorted_by_key(s),
    ensures
        sorted_by_key(selected(s, f)),
        forall|k: int|
            0 <= k < selected(s, f).len() ==> s.contains(#[trigger] selected(s, f)[k]),
    decreases s.len(),
{
    reveal(Seq::filter);
    if s.len() == 0 {
    } else {
        let prefix = s.drop_last();
        assert(sorted_by_key(prefix)) by {
            assert forall|i: int, j: int| 0 <= i < j < prefix.len() implies key_le(
                prefix[i],
                prefix[j],
            ) by {
                assert(key_le(s[i], s[j]));
            }
        }
        lemma_selected_sorted(prefix, f);
        let sub = selected(prefix, f);
        assert forall|k: int| 0 <= k < sub.len() implies s.contains(sub[k]) by {
            assert(prefix.contains(sub[k]));
            let w = choose|w: int| 0 <= w < prefix.len() && prefix[w] == sub[k];
            assert(s[w] == sub[k]);
        }
        if matches_filter(f, s.last()) {
            let whole = selected(s, f);
            assert(whole == sub.push(s.last()));
            assert forall|i: int, j: int| 0 <= i < j < whole.len() implies key_le(
                whole[i],
                whole[j],
            ) by {
                if j == whole.len() - 1 {
                    assert(whole[j] == s.last());
                    assert(prefix.contains(sub[i]));
                    let w = choose|w: int| 0 <= w < prefix.len() && prefix[w] == sub[i];
                    if w < s.len() - 1 {
                        assert(key_le(s[w], s[s.len() - 1]));
                    }
                } else {
                    assert(key_le(sub[i], sub[j]));
                }
            }
            assert forall|k: int| 0 <= k < whole.len() implies s.contains(whole[k]) by {
                if k == whole.len() - 1 {
                    assert(whole[k] == s[s.len() - 1]);
                } else {
                    assert(whole[k] == sub[k]);
                }
            }
        } else {
            assert(selected(s, f) == sub);
        }
    }
}

/// Owner of the authoritative reservation set.
///
/// Its view is the sequence of stored records; [`ReservationManager::inv`]
/// is the invariant every operation preserves.
pub struct ReservationManager {
    reservations: Vec<Reservation>,
    next_id: u64,
}

impl View for ReservationManager {
    type V = Seq<Reservation>;

    closed spec fn view(&self) -> Seq<Reservation> {
        self.reservations@
    }
}

impl ReservationManager {
    /// The id the next successful booking will receive.
    pub closed spec fn fresh_id(&self) -> u64 {
        self.next_id
    }

    /// The manager's invariant: well-formed records with unique ids, kept in
    /// result order, never two overlapping active bookings of one resource,
    /// and every id already handed out lies below the next fresh one.
    pub open spec fn inv(&self) -> bool {
        store_inv(self@) && ids_below(self@, self.fresh_id())
    }

    /// An empty store.
    pub fn new() -> (m: ReservationManager)
        ensures
            m.inv(),
            m@ == Seq::<Reservation>::empty(),
            m.fresh_id() == 1u64,
    {
        ReservationManager { reservations: Vec::new(), next_id: 1 }
    }

    /// Whether another booking can still be assigned an id; exhaustion would
    /// take 2^64 successful bookings.
    pub fn ids_remaining(&self) -> (r: bool)
        ensures
            r == (self.fresh_id() < u64::MAX),
    {
        self.next_id < u64::MAX
    }

    /// The index of the record carrying the id, if any.
    fn find_index(&self, id: u64) -> (r: Option<usize>)
        ensures
            match r {
                Some(i) => i < self@.len() && self@[i as int].id == id,
                None => !contains_id(self@, id),
            },
    {
        let mut i: usize = 0;
        while i < self.reservations.len()
            invariant
                i <= self@.len(),
                forall|j: int| 0 <= j < i ==> (#[trigger] self@[j]).id != id,
            decreases self@.len() - i,
        {
            if self.reservations[i].id == id {
                return Some(i);
            }
            i += 1;
        }
        None
    }

    /// The existence check of the conflict guard: does any active record of
    /// the resource overlap the interval?
    fn conflict_exists(&self, resource: &String, iv: &Interval) -> (r: bool)
        requires
            self.inv(),
            iv.wf(),
        ensures
            r == has_conflict(self@, resource@, *iv),
    {
        let mut i: usize = 0;
        while i < self.reservations.len()
            invariant
                self.inv(),
                iv.wf(),
                i <= self@.len(),
                forall|j: int|
                    0 <= j < i ==> !((#[trigger] self@[j]).resource_id@ == resource@
                        && spec_is_active(self@[j].status) && spec_overlaps(self@[j].interval, *iv)),
            decreases self@.len() - i,
        {
            let r = &self.reservations[i];
            assert(self@[i as int].wf());
            if crate::status::is_active(r.status) && *resource == r.resource_id && r.interval
                .overlaps(iv) {
                return true;
            }
            i += 1;
        }
        false
    }

    /// Where a record whose interval starts at `t` belongs in the result
    /// order, given that its id will be larger than every stored one.
    fn insert_position(&self, t: &Timestamp) -> (idx: usize)
        requires
            self.inv(),
            t.wf(),
        ensures
            idx <= self@.len(),
            forall|j: int|
                0 <= j < idx ==> (#[trigger] self@[j]).interval.start.value() <= t.value(),
            idx < self@.len() ==> t.value() < self@[idx as int].interval.start.value(),
    {
        let mut i: usize = 0;
        while i < self.reservations.len()
            invariant
                self.inv(),
                t.wf(),
                i <= self@.len(),
                forall|j: int|
                    0 <= j < i ==> (#[trigger] self@[j]).interval.start.value() <= t.value(),
            decreases self@.len() - i,
        {
            assert(self@[i as int].wf());
            if t.before(&self.reservations[i].interval.start) {
                return i;
            }
            i += 1;
        }
        i
    }

    /// Books the resource named by the candidate for the candidate's time
    /// range, atomically with the conflict check.
    ///
    /// Succeeds exactly when the range is valid and no active reservation of
    /// the same resource overlaps it; the new record starts `Pending` under
    /// a fresh id and the rest of the store is untouched. An invalid range
    /// fails with `InvalidTime` before anything is examined; a valid one
    /// that collides fails with `Conflict`; either failure leaves the store
    /// unchanged.
    pub fn reserve(&mut self, candidate: Candidate) -> (r: Result<Reservation, ReservationError>)
        requires
            old(self).inv(),
            old(self).fresh_id() < u64::MAX,
        ensures
            final(self).inv(),
            match r {
                Ok(res) => {
                    &&& times_valid(candidate.start, candidate.end)
                    &&& res.interval == (Interval {
                        start: candidate.start.unwrap(),
                        end: candidate.end.unwrap(),
                    })
                    &&& !has_conflict(old(self)@, candidate.resource_id@, res.interval)
                    &&& res.id == old(self).fresh_id()
                    &&& res.status == ReservationStatus::Pending
                    &&& res.requester_id == candidate.requester_id
                    &&& res.resource_id == candidate.resource_id
                    &&& res.note == candidate.note
                    &&& res.wf()
                    &&& exists|k: int|
                        0 <= k <= old(self)@.len() && final(self)@ == old(self)@.insert(k, res)
                    &&& final(self).fresh_id() == old(self).fresh_id() + 1
                },
                Err(e) => {
                    &&& final(self)@ == old(self)@
                    &&& final(self).fresh_id() == old(self).fresh_id()
                    &&& (e == ReservationError::InvalidTime || e == ReservationError::Conflict)
                    &&& (e == ReservationError::InvalidTime <==> !times_valid(
                        candidate.start,
                        candidate.end,
                    ))
                    &&& (e == ReservationError::Conflict <==> times_valid(
                        candidate.start,
                        candidate.end,
                    ) && has_conflict(
                        old(self)@,
                        candidate.resource_id@,
                        (Interval { start: candidate.start.unwrap(), end: candidate.end.unwrap() }),
                    ))
                },
            },
    {
        let iv = match Interval::normalize(candidate.start, candidate.end) {
            Ok(iv) => iv,
            Err(e) => {
                return Err(e);
            },
        };
        if self.conflict_exists(&candidate.resource_id, &iv) {
            return Err(ReservationError::Conflict);
        }
        let res = Reservation {
            id: self.next_id,
            requester_id: candidate.requester_id,
            resource_id: candidate.resource_id,
            interval: iv,
            note: candidate.note,
            status: ReservationStatus::Pending,
        };
        let out = res.clone();
        let idx = self.insert_position(&iv.start);
        let ghost s = self@;
        let ghost t = s.insert(idx as int, res);
        self.reservations.insert(idx, res);
        self.next_id = self.next_id + 1;
        proof {
            s.insert_ensures(idx as int, out);
            assert(self@ == t);
            lemma_insert_keeps_inv(s, idx as int, out, old(self).fresh_id());
        }
        Ok(out)
    }

    /// Drives the reservation through the status state machine.
    ///
    /// Succeeds exactly when the id exists and the move from the current to
    /// the requested status is one of the four legal transitions; the record
    /// keeps everything but its status, and the rest of the store is
    /// untouched. A missing id fails with `NotFound`, an illegal move with
    /// `InvalidStatusTransition`; either failure leaves the store unchanged.
    /// Once the new status is terminal the record no longer occupies its
    /// interval.
    pub fn change_status(&mut self, id: u64, requested: ReservationStatus) -> (r: Result<
        Reservation,
        ReservationError,
    >)
        requires
            old(self).inv(),
        ensures
            final(self).inv(),
            final(self).fresh_id() == old(self).fresh_id(),
            match r {
                Ok(res) => {
                    &&& contains_id(old(self)@, id)
                    &&& crate::status::transition_allowed(
                        old(self)@[id_index(old(self)@, id)].status,
                        requested,
                    )
                    &&& res == (Reservation {
                        status: requested,
                        ..old(self)@[id_index(old(self)@, id)]
                    })
                    &&& final(self)@ == old(self)@.update(id_index(old(self)@, id), res)
                },
                Err(e) => {
                    &&& final(self)@ == old(self)@
                    &&& (e == ReservationError::NotFound || e
                        == ReservationError::InvalidStatusTransition)
                    &&& (e == ReservationError::NotFound <==> !contains_id(old(self)@, id))
                    &&& (e == ReservationError::InvalidStatusTransition <==> contains_id(
                        old(self)@,
                        id,
                    ) && !crate::status::transition_allowed(
                        old(self)@[id_index(old(self)@, id)].status,
                        requested,
                    ))
                },
            },
    {
        let idx = match self.find_index(id) {
            Some(i) => i,
            None => {
                return Err(ReservationError::NotFound);
            },
        };
        proof {
            lemma_id_index(self@, id, idx as int);
        }
        let new_status = match crate::status::next(self.reservations[idx].status, requested) {
            Ok(s) => s,
            Err(e) => {
                return Err(e);
            },
        };
        let ghost s = self@;
        let cur = self.reservations.remove(idx);
        let updated = Reservation {
            id: cur.id,
            requester_id: cur.requester_id,
            resource_id: cur.resource_id,
            interval: cur.interval,
            note: cur.note,
            status: new_status,
        };
        let out = updated.clone();
        self.reservations.insert(idx, updated);
        proof {
            assert(self@ =~= s.update(idx as int, out));
            lemma_update_keeps_inv(s, idx as int, out, old(self).fresh_id());
            crate::status::lemma_transitions_never_activate(s[idx as int].status, requested);
        }
        Ok(out)
    }

    /// Replaces the note of the reservation; the status, interval and
    /// identifiers stay as they were, so the change has no conflict
    /// implications. Fails with `NotFound`, leaving the store unchanged,
    /// exactly when the id does not exist.
    pub fn update_note(&mut self, id: u64, note: String) -> (r: Result<
        Reservation,
        ReservationError,
    >)
        requires
            old(self).inv(),
        ensures
            final(self).inv(),
            final(self).fresh_id() == old(self).fresh_id(),
            match r {
                Ok(res) => {
                    &&& contains_id(old(self)@, id)
                    &&& res == (Reservation { note, ..old(self)@[id_index(old(self)@, id)] })
                    &&& final(self)@ == old(self)@.update(id_index(old(self)@, id), res)
                },
                Err(e) => {
                    &&& final(self)@ == old(self)@
                    &&& e == ReservationError::NotFound
                    &&& !contains_id(old(self)@, id)
                },
            },
    {
        let idx = match self.find_index(id) {
            Some(i) => i,
            None => {
                return Err(ReservationError::NotFound);
            },
        };
        proof {
            lemma_id_index(self@, id, idx as int);
        }
        let ghost s = self@;
        let cur = self.reservations.remove(idx);
        let updated = Reservation {
            id: cur.id,
            requester_id: cur.requester_id,
            resource_id: cur.resource_id,
            interval: cur.interval,
            note,
            status: cur.status,
        };
        let out = updated.clone();
        self.reservations.insert(idx, updated);
        proof {
            assert(self@ =~= s.update(idx as int, out));
            lemma_update_keeps_inv(s, idx as int, out, old(self).fresh_id());
        }
        Ok(out)
    }

    /// Permanently removes the record, whatever its status, freeing its
    /// interval immediately. Fails with `NotFound`, leaving the store
    /// unchanged, exactly when the id does not exist.
    pub fn delete(&mut self, id: u64) -> (r: Result<(), ReservationError>)
        requires
            old(self).inv(),
        ensures
            final(self).inv(),
            final(self).fresh_id() == old(self).fresh_id(),
            match r {
                Ok(_) => {
                    &&& contains_id(old(self)@, id)
                    &&& final(self)@ == old(self)@.remove(id_index(old(self)@, id))
                },
                Err(e) => {
                    &&& final(self)@ == old(self)@
                    &&& e == ReservationError::NotFound
                    &&& !contains_id(old(self)@, id)
                },
            },
    {
        let idx = match self.find_index(id) {
            Some(i) => i,
            None => {
                return Err(ReservationError::NotFound);
            },
        };
        proof {
            lemma_id_index(self@, id, idx as int);
        }
        let ghost s = self@;
        let _ = self.reservations.remove(idx);
        proof {
            lemma_remove_keeps_inv(s, idx as int, old(self).fresh_id());
        }
        Ok(())
    }

    /// Answers a filtered search over the reservation set; an empty result
    /// is an answer, never a failure.
    ///
    /// The result holds exactly the stored records that satisfy every
    /// present field of the filter — in particular, a time window keeps
    /// precisely the records whose interval overlaps it — in ascending
    /// (interval start, id) order, truncated to the filter's limit. Each
    /// call is independent and reads the store as it stands, so a page
    /// request is idempotent while the data does not change.
    pub fn query(&self, filter: &QueryFilter) -> (out: Vec<Reservation>)
        requires
            self.inv(),
            filter.wf(),
        ensures
            out@ == selected(self@, *filter).take(
                page_len(*filter, selected(self@, *filter).len() as int),
            ),
            sorted_by_key(out@),
    {
        let mut out: Vec<Reservation> = Vec::new();
        let mut i: usize = 0;
        while i < self.reservations.len()
            invariant
                self.inv(),
                filter.wf(),
                i <= self@.len(),
                out@ == selected(self@.take(i as int), *filter).take(
                    page_len(*filter, selected(self@.take(i as int), *filter).len() as int),
                ),
            decreases self@.len() - i,
        {
            let ghost sel = selected(self@.take(i as int), *filter);
            let r = &self.reservations[i];
            assert(self@[i as int].wf());
            let matched = filter.matches(r);
            let wanted = match filter.limit {
                Some(l) => out.len() < l,
                None => true,
            };
            proof {
                lemma_selected_step(self@, i as int, *filter);
            }
            if matched && wanted {
                out.push(r.clone());
                proof {
                    assert(out@.drop_last() == sel.take(page_len(*filter, sel.len() as int)));
                    // Below the limit the page was the whole selection so
                    // far, and stays whole after one more record.
                    assert(page_len(*filter, sel.len() as int) == sel.len());
                    assert(out@.drop_last() =~= sel);
                    let sel2 = selected(self@.take(i as int + 1), *filter);
                    assert(sel2 == sel.push(self@[i as int]));
                    assert(out@ =~= sel2);
                    assert(page_len(*filter, sel2.len() as int) == sel2.len());
                    assert(out@ =~= sel2.take(page_len(*filter, sel2.len() as int)));
                }
            } else {
                proof {
                    let sel2 = selected(self@.take(i as int + 1), *filter);
                    if matched {
                        // The limit is reached: the page is a strict prefix
                        // of the selection and one more match cannot change
                        // it.
                        assert(sel2 == sel.push(self@[i as int]));
                        let pl = page_len(*filter, sel.len() as int);
                        assert(pl == page_len(*filter, sel2.len() as int));
                        assert(sel2.take(pl) =~= sel.take(pl));
                    } else {
                        assert(sel2 == sel);
                    }
                }
            }
            i += 1;
        }
        proof {
            assert(self@.take(self@.len() as int) =~= self@);
            lemma_selected_sorted(self@, *filter);
            let sel = selected(self@, *filter);
            let pl = page_len(*filter, sel.len() as int);
            assert forall|a: int, b: int| 0 <= a < b < out@.len() implies key_le(
                out@[a],
                out@[b],
            ) by {
                assert(out@[a] == sel.take(pl)[a]);
                assert(out@[b] == sel.take(pl)[b]);
            }
        }
        out
    }

    /// Returns a value copy of the reservation carrying the id, or
    /// `NotFound` exactly when no record does.
    pub fn get_reservations(&self, id: u64) -> (r: Result<Vec<Reservation>, ReservationError>)
        requires
            self.inv(),
        ensures
            match r {
                Ok(v) => {
                    &&& contains_id(self@, id)
                    &&& v@.len() == 1
                    &&& v@[0] == self@[id_index(self@, id)]
                },
                Err(e) => {
                    &&& e == ReservationError::NotFound
                    &&& !contains_id(self@, id)
                },
            },
    {
        match self.find_index(id) {
            Some(i) => {
                proof {
                    lemma_id_index(self@, id, i as int);
                }
                let mut v: Vec<Reservation> = Vec::new();
                v.push(self.reservations[i].clone());
                Ok(v)
            },
            None => Err(ReservationError::NotFound),
        }
    }
}

/// After any sequence of operations, the active reservations of each
/// resource are pairwise non-overlapping: the invariant every operation of
/// the manager requires and re-establishes contains the no-double-booking
/// guarantee.
pub proof fn lemma_inv_no_double_booking(m: &ReservationManager)
    requires
        m.inv(),
    ensures
        no_double_booking(m@),
{
}

/// Of two `reserve` calls for the same resource with overlapping intervals,
/// at most one can succeed: once the first call has inserted its new active
/// record, the store conflicts with the second call's interval, and
/// `reserve` then answers `Conflict`. The store's exclusive owner linearizes
/// the two calls, so this holds however they interleave.
pub proof fn lemma_overlapping_reserve_conflicts(
    s0: Seq<Reservation>,
    s1: Seq<Reservation>,
    r1: Reservation,
    k: int,
    iv: Interval,
)
    requires
        0 <= k <= s0.len(),
        s1 == s0.insert(k, r1),
        spec_is_active(r1.status),
        spec_overlaps(r1.interval, iv),
    ensures
        has_conflict(s1, r1.resource_id@, iv),
{
    s0.insert_ensures(k, r1);
    assert(s1[k] == r1);
}

/// Once the one blocking reservation is cancelled or completed, the interval
/// is free again: after the status of the record at `k` turns terminal, a
/// resource and interval that no other active record overlapped have no
/// conflict left, so a new `reserve` of them succeeds.
pub proof fn lemma_terminal_frees_interval(
    s0: Seq<Reservation>,
    s1: Seq<Reservation>,
    k: int,
    changed: Reservation,
    resource: Seq<char>,
    iv: Interval,
)
    requires
        0 <= k < s0.len(),
        s1 == s0.update(k, changed),
        !spec_is_active(changed.status),
        forall|j: int|
            0 <= j < s0.len() && j != k && (#[trigger] s0[j]).resource_id@ == resource
                && spec_is_active(s0[j].status) ==> !spec_overlaps(s0[j].interval, iv),
    ensures
        !has_conflict(s1, resource, iv),
{
    assert forall|i: int|
        0 <= i < s1.len() && (#[trigger] s1[i]).resource_id@ == resource && spec_is_active(
            s1[i].status,
        ) implies !spec_overlaps(s1[i].interval, iv) by {
        if i != k {
            assert(s1[i] == s0[i]);
        }
    }
}

/// Replacing a record by one with the same id, interval and resource, whose
/// status is active only if the old one's was, preserves the store
/// invariant.
proof fn lemma_update_keeps_inv(s: Seq<Reservation>, k: int, r: Reservation, id: u64)
    requires
        store_inv(s),
        ids_below(s, id),
        0 <= k < s.len(),
        r.id == s[k].id,
        r.interval == s[k].interval,
        r.resource_id@ == s[k].resource_id@,
        spec_is_active(r.status) ==> spec_is_active(s[k].status),
    ensures
        store_inv(s.update(k, r)),
        ids_below(s.update(k, r), id),
{
    let t = s.update(k, r);
    assert(s[k].wf());
    assert(wf_all(t));
    assert forall|i: int, j: int| 0 <= i < j < t.len() implies t[i].id != t[j].id by {
        assert(s[i].id != s[j].id);
    }
    assert forall|i: int, j: int| 0 <= i < j < t.len() implies key_le(t[i], t[j]) by {
        assert(key_le(s[i], s[j]));
    }
    assert forall|i: int, j: int|
        0 <= i < t.len() && 0 <= j < t.len() && i != j && t[i].resource_id@ == t[j].resource_id@
            && spec_is_active(t[i].status) && spec_is_active(t[j].status) implies !spec_overlaps(
        t[i].interval,
        t[j].interval,
    ) by {
        assert(t[i].interval == s[i].interval);
        assert(t[j].interval == s[j].interval);
        assert(spec_is_active(s[i].status));
        assert(spec_is_active(s[j].status));
    }
}

/// Removing any record preserves the store invariant: every clause of it
/// only ever speaks of pairs of records that are still there.
proof fn lemma_remove_keeps_inv(s: Seq<Reservation>, k: int, id: u64)
    requires
        store_inv(s),
        ids_below(s, id),
        0 <= k < s.len(),
    ensures
        store_inv(s.remove(k)),
        ids_below(s.remove(k), id),
{
    let t = s.remove(k);
    s.remove_ensures(k);
    assert forall|i: int| 0 <= i < t.len() implies (i < k && t[i] == s[i]) || (i >= k && t[i] == s[i
        + 1]) by {
        if i < k {
            assert(t[i] == s[i]);
        } else {
            assert(t[i] == s[i + 1]);
        }
    }
    assert(wf_all(t));
    assert(ids_below(t, id));
    assert(unique_ids(t));
    assert(sorted_by_key(t));
    assert forall|i: int, j: int|
        0 <= i < t.len() && 0 <= j < t.len() && i != j && t[i].resource_id@ == t[j].resource_id@
            && spec_is_active(t[i].status) && spec_is_active(t[j].status) implies !spec_overlaps(
        t[i].interval,
        t[j].interval,
    ) by {
        let ii = if i < k { i } else { i + 1 };
        let jj = if j < k { j } else { j + 1 };
        assert(t[i] == s[ii]);
        assert(t[j] == s[jj]);
    }
}

/// Inserting a fresh, well-formed, conflict-free `Pending` record at its
/// position in the result order preserves the store invariant.
proof fn lemma_insert_keeps_inv(s: Seq<Reservation>, k: int, r: Reservation, id: u64)
    requires
        store_inv(s),
        ids_below(s, id),
        id < u64::MAX,
        0 <= k <= s.len(),
        r.wf(),
        r.id == id,
        spec_is_active(r.status),
        !has_conflict(s, r.resource_id@, r.interval),
        forall|j: int| 0 <= j < k ==> (#[trigger] s[j]).interval.start.value() <= r.interval.start.value(),
        k < s.len() ==> r.interval.start.value() < s[k].interval.start.value(),
    ensures
        store_inv(s.insert(k, r)),
        ids_below(s.insert(k, r), (id + 1) as u64),
{
    let t = s.insert(k, r);
    s.insert_ensures(k, r);
    // Map every index of the new store back to the record it came from.
    assert forall|i: int| 0 <= i < t.len() implies (i == k && t[i] == r) || (i < k && t[i] == s[i])
        || (i > k && t[i] == s[i - 1]) by {
        if i < k {
            assert(t[i] == s[i]);
        } else if i > k {
            assert(t[i - 1 + 1] == s[i - 1]);
        }
    }
    assert(wf_all(t));
    assert(ids_below(t, (id + 1) as u64));
    assert forall|i: int, j: int| 0 <= i < j < t.len() implies t[i].id != t[j].id by {
        if i == k {
            assert(t[j].id < id);
        } else if j == k {
            assert(t[i].id < id);
        }
    }
    assert forall|i: int, j: int| 0 <= i < j < t.len() implies key_le(t[i], t[j]) by {
        if i == k {
            // t[j] comes after the insertion point, so its start is strictly
            // later; if starts tie, every stored id lies below the fresh one.
            assert(t[j] == s[j - 1]);
            if k < s.len() {
                assert(key_le(s[k], s[j - 1]) || k == j - 1);
            }
        } else if j == k {
            assert(t[i] == s[i]);
        }
    }
    assert forall|i: int, j: int|
        0 <= i < t.len() && 0 <= j < t.len() && i != j && t[i].resource_id@ == t[j].resource_id@
            && spec_is_active(t[i].status) && spec_is_active(t[j].status) implies !spec_overlaps(
        t[i].interval,
        t[j].interval,
    ) by {
        if i == k {
            let jj = if j < k { j } else { j - 1 };
            assert(t[j] == s[jj]);
            assert(!(s[jj].resource_id@ == r.resource_id@ && spec_is_active(s[jj].status)
                && spec_overlaps(s[jj].interval, r.interval)));
        } else if j == k {
            let ii = if i < k { i } else { i - 1 };
            assert(t[i] == s[ii]);
            assert(!(s[ii].resource_id@ == r.resource_id@ && spec_is_active(s[ii].status)
                && spec_overlaps(s[ii].interval, r.interval)));
        }
    }
}

} // verus!
