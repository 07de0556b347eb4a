//! The rental ledger: the ordered sequence of all live rental records.

use crate::clock::{now, Timestamp};
use crate::rental::{views, Rental, RentalView};
use vstd::prelude::*;

verus! {

/// The one failure of the ledger's operations: no record has the given id.
#[derive(Clone, Copy, Debug, PartialEq, Eq, Structural)]
pub enum LedgerError {
    NotFound,
}

/// Every record id in `s` is positive.
pub open spec fn ids_positive(s: Seq<RentalView>) -> bool {
    forall|i: int| 0 <= i < s.len() ==> #[trigger] s[i].id >= 1
}

/// Some record in `s` has the id `id`.
pub open spec fn has_id(s: Seq<RentalView>, id: usize) -> bool {
    exists|i: int| 0 <= i < s.len() && #[trigger] s[i].id == id
}

/// `i` is the position of the first record in `s` whose id is `id`.
pub open spec fn is_first_with_id(s: Seq<RentalView>, id: usize, i: int) -> bool {
    &&& 0 <= i < s.len()
    &&& s[i].id == id
    &&& forall|j: int| 0 <= j < i ==> #[trigger] s[j].id != id
}

/// The record that creation appends to `s`, built from the candidate `c`
/// at time `t`: its id is one more than the number of records, it is not
/// returned, and only the customer, title, staff id and cost come from `c`.
pub open spec fn created(s: Seq<RentalView>, c: RentalView, t: Timestamp) -> RentalView {
    RentalView {
        id: (s.len() + 1) as usize,
        customer: c.customer,
        title: c.title,
        staff_id: c.staff_id,
        cost_cents: c.cost_cents,
        rented_at: t,
        returned: false,
    }
}

/// `s` with the record at position `i` marked as returned.
pub open spec fn mark_returned(s: Seq<RentalView>, i: int) -> Seq<RentalView> {
    s.update(i, s[i].with_returned())
}

/// Whether a record does not carry the id `id`.
pub open spec fn id_differs(id: usize) -> spec_fn(RentalView) -> bool {
    |r: RentalView| r.id != id
}

/// Whether a record belongs to the customer `c`, compared exactly.
pub open spec fn of_customer(c: Seq<char>) -> spec_fn(RentalView) -> bool {
    |r: RentalView| r.customer == c
}

/// Whether a record has not been returned.
pub open spec fn pending() -> spec_fn(RentalView) -> bool {
    |r: RentalView| !r.returned
}

/// The ledger. Records are kept in the order they were created.
pub struct Ledger {
    rentals: Vec<Rental>,
}

impl View for Ledger {
    type V = Seq<RentalView>;

    closed spec fn view(&self) -> Seq<RentalView> {
        views(self.rentals@)
    }
}

impl Ledger {
    /// Every record held has a positive id.
    pub open spec fn wf(&self) -> bool {
        ids_positive(self@)
    }

    /// An empty ledger.
    pub fn new() -> (r: Ledger)
        ensures
            r.wf(),
            r@ == Seq::<RentalView>::empty(),
    {
        let r = Ledger { rentals: Vec::new() };
        assert(r@ =~= Seq::<RentalView>::empty());
        r
    }

    /// The number of records held.
    pub fn len(&self) -> (r: usize)
        ensures
            r == self@.len(),
    {
        self.rentals.len()
    }

    /// Appends the record built from `candidate` at time `at`, and returns a
    /// copy of it. The candidate's id, time and returned flag are ignored.
    pub fn create_at(&mut self, candidate: Rental, at: Timestamp) -> (r: Rental)
        requires
            old(self).wf(),
            old(self)@.len() < usize::MAX,
        ensures
            final(self).wf(),
            r@ == created(old(self)@, candidate@, at),
            final(self)@ == old(self)@.push(r@),
    {
        let ghost before = self@;
        let id: usize = self.rentals.len() + 1;
        let record = Rental {
            id,
            customer: candidate.customer,
            title: candidate.title,
            staff_id: candidate.staff_id,
            cost_cents: candidate.cost_cents,
            rented_at: at,
            returned: false,
        };
        let r = record.duplicate();
        self.rentals.push(record);
        assert(self@ =~= before.push(r@));
        r
    }

    /// Appends the record built from `candidate` at the current time, and
    /// returns a copy of it. The candidate's id, time and returned flag are
    /// ignored.
    pub fn create(&mut self, candidate: Rental) -> (r: Rental)
        requires
            old(self).wf(),
            old(self)@.len() < usize::MAX,
        ensures
            final(self).wf(),
            r@ == created(old(self)@, candidate@, r.rented_at),
            final(self)@ == old(self)@.push(r@),
            r.rented_at.seconds >= 0,
            r.rented_at.nanos < 1_000_000_000,
    {
        let at = now();
        self.create_at(candidate, at)
    }

    /// Marks the first record with id `id` as returned and returns a copy
    /// of it. Marking an already returned record again succeeds and changes
    /// nothing. Fails with `NotFound`, leaving the ledger as it was, when no
    /// record has that id.
    pub fn return_rental(&mut self, id: usize) -> (r: Result<Rental, LedgerError>)
        requires
            old(self).wf(),
        ensures
            final(self).wf(),
            r is Ok <==> has_id(old(self)@, id),
            match r {
                Ok(rec) => exists|i: int|
                    is_first_with_id(old(self)@, id, i)
                        && final(self)@ == mark_returned(old(self)@, i)
                        && rec@ == final(self)@[i],
                Err(e) => e == LedgerError::NotFound && final(self)@ == old(self)@,
            },
    {
        let ghost s = self@;
        let n = self.rentals.len();
        let mut i: usize = 0;
        while i < n
            invariant
                n == self.rentals.len(),
                self@ == s,
                s == old(self)@,
                ids_positive(s),
                i <= n,
                forall|j: int| 0 <= j < i ==> #[trigger] s[j].id != id,
            decreases n - i,
        {
            assert(s[i as int] == self.rentals@[i as int]@);
            if self.rentals[i].id == id {
                let mut rec = self.rentals[i].duplicate();
                rec.returned = true;
                let copy = rec.duplicate();
                self.rentals.set(i, rec);
                proof {
                    assert(is_first_with_id(s, id, i as int));
                    assert(self@ =~= mark_returned(s, i as int));
                    assert(ids_positive(self@)) by {
                        assert forall|j: int| 0 <= j < self@.len() implies #[trigger] self@[j].id >= 1 by {
                            assert(self@[j].id == s[j].id);
                        };
                    };
                }
                return Ok(copy);
            }
            i = i + 1;
        }
        Err(LedgerError::NotFound)
    }

    /// Removes every record with id `id`; more than one goes when ids
    /// collide. Fails with `NotFound`, leaving the ledger as it was, when no
    /// record has that id.
    pub fn cancel(&mut self, id: usize) -> (r: Result<(), LedgerError>)
        requires
            old(self).wf(),
        ensures
            final(self).wf(),
            r is Ok <==> has_id(old(self)@, id),
            r is Err ==> r == Err::<(), LedgerError>(LedgerError::NotFound),
            final(self)@ == old(self)@.filter(id_differs(id)),
    {
        broadcast use Seq::lemma_filter_push;

        let ghost s = self@;
        let mut kept: Vec<Rental> = Vec::new();
        let mut removed = false;
        let n = self.rentals.len();
        let mut i: usize = 0;
        while i < n
            invariant
                n == self.rentals.len(),
                self@ == s,
                i <= n,
                views(kept@) == s.take(i as int).filter(id_differs(id)),
                removed <==> exists|j: int| 0 <= j < i && #[trigger] s[j].id == id,
                !removed ==> s.take(i as int).filter(id_differs(id)) == s.take(i as int),
            decreases n - i,
        {
            assert(s[i as int] == self.rentals@[i as int]@);
            let ghost prefix = s.take(i as int);
            assert(s.take(i + 1) =~= prefix.push(s[i as int]));
            proof { prefix.lemma_filter_push(s[i as int], id_differs(id)); }
            assert(s.take(i + 1).filter(id_differs(id)) == if s[i as int].id != id {
                prefix.filter(id_differs(id)).push(s[i as int])
            } else {
                prefix.filter(id_differs(id))
            });
            if self.rentals[i].id == id {
                removed = true;
            } else {
                let ghost kept_before = kept@;
                kept.push(self.rentals[i].duplicate());
                assert(views(kept@) =~= views(kept_before).push(s[i as int]));
            }
            i = i + 1;
        }
        assert(s.take(n as int) =~= s);
        if removed {
            self.rentals = kept;
            proof {
                let t = s.filter(id_differs(id));
                assert forall|j: int| 0 <= j < t.len() implies #[trigger] t[j].id >= 1 by {
                    s.lemma_filter_contains_rev(id_differs(id), t[j]);
                    let k = choose|k: int| 0 <= k < s.len() && s[k] == t[j];
                    assert(s[k].id >= 1);
                };
            }
            Ok(())
        } else {
            Err(LedgerError::NotFound)
        }
    }

    /// Copies of the records whose customer equals `customer` exactly, in
    /// creation order.
    pub fn list_by_customer(&self, customer: &String) -> (r: Vec<Rental>)
        ensures
            views(r@) == self@.filter(of_customer(customer@)),
    {
        let ghost s = self@;
        let mut out: Vec<Rental> = Vec::new();
        let n = self.rentals.len();
        let mut i: usize = 0;
        while i < n
            invariant
                n == self.rentals.len(),
                s == self@,
                i <= n,
                views(out@) == s.take(i as int).filter(of_customer(customer@)),
            decreases n - i,
        {
            assert(s[i as int] == self.rentals@[i as int]@);
            let ghost prefix = s.take(i as int);
            assert(s.take(i + 1) =~= prefix.push(s[i as int]));
            proof { prefix.lemma_filter_push(s[i as int], of_customer(customer@)); }
            if self.rentals[i].customer == *customer {
                let ghost out_before = out@;
                out.push(self.rentals[i].duplicate());
                assert(views(out@) =~= views(out_before).push(s[i as int]));
            }
            i = i + 1;
        }
        assert(s.take(n as int) =~= s);
        out
    }

    /// Copies of the records not yet returned, in creation order.
    pub fn list_pending(&self) -> (r: Vec<Rental>)
        ensures
            views(r@) == self@.filter(pending()),
    {
        let ghost s = self@;
        let mut out: Vec<Rental> = Vec::new();
        let n = self.rentals.len();
        let mut i: usize = 0;
        while i < n
            invariant
                n == self.rentals.len(),
                s == self@,
                i <= n,
                views(out@) == s.take(i as int).filter(pending()),
            decreases n - i,
        {
            assert(s[i as int] == self.rentals@[i as int]@);
            let ghost prefix = s.take(i as int);
            assert(s.take(i + 1) =~= prefix.push(s[i as int]));
            proof { prefix.lemma_filter_push(s[i as int], pending()); }
            if !self.rentals[i].returned {
                let ghost out_before = out@;
                out.push(self.rentals[i].duplicate());
                assert(views(out@) =~= views(out_before).push(s[i as int]));
            }
            i = i + 1;
        }
        assert(s.take(n as int) =~= s);
        out
    }

    /// Copies of all records, in creation order.
    pub fn list_all(&self) -> (r: Vec<Rental>)
        ensures
            views(r@) == self@,
    {
        let ghost s = self@;
        let mut out: Vec<Rental> = Vec::new();
        let n = self.rentals.len();
        let mut i: usize = 0;
        while i < n
            invariant
                n == self.rentals.len(),
                s == self@,
                i <= n,
                views(out@) == s.take(i as int),
            decreases n - i,
        {
            assert(s[i as int] == self.rentals@[i as int]@);
            let ghost out_before = out@;
            out.push(self.rentals[i].duplicate());
            assert(views(out@) =~= views(out_before).push(s[i as int]));
            assert(s.take(i + 1) =~= s.take(i as int).push(s[i as int]));
            i = i + 1;
        }
        assert(s.take(n as int) =~= s);
        out
    }
}

} // verus!
