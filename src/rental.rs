//! The rental record and its mathematical view.

use crate::clock::Timestamp;
use vstd::prelude::*;

verus! {

/// One rental transaction. The cost is held in hundredths of the currency
/// unit; the ledger accepts any value, negative ones included.
#[derive(Debug)]
pub struct Rental {
    pub id: usize,
    pub customer: String,
    pub title: String,
    pub staff_id: String,
    pub cost_cents: i64,
    pub rented_at: Timestamp,
    pub returned: bool,
}

/// What a rental record holds, as mathematical values.
pub ghost struct RentalView {
    pub id: usize,
    pub customer: Seq<char>,
    pub title: Seq<char>,
    pub staff_id: Seq<char>,
    pub cost_cents: i64,
    pub rented_at: Timestamp,
    pub returned: bool,
}

impl View for Rental {
    type V = RentalView;

    open spec fn view(&self) -> RentalView {
        RentalView {
            id: self.id,
            customer: self.customer@,
            title: self.title@,
            staff_id: self.staff_id@,
            cost_cents: self.cost_cents,
            rented_at: self.rented_at,
            returned: self.returned,
        }
    }
}

impl RentalView {
    /// The same record, marked as returned.
    pub open spec fn with_returned(self) -> RentalView {
        RentalView { returned: true, ..self }
    }
}

/// The views of a sequence of records, element by element.
pub open spec fn views(v: Seq<Rental>) -> Seq<RentalView> {
    v.map_values(|r: Rental| r@)
}

impl Rental {
    /// A rental with the given caller-supplied fields. The id, the time and
    /// the returned flag are placeholders: the ledger sets them on creation.
    pub fn new(customer: String, title: String, staff_id: String, cost_cents: i64) -> (r: Rental)
        ensures
            r.customer@ == customer@,
            r.title@ == title@,
            r.staff_id@ == staff_id@,
            r.cost_cents == cost_cents,
            r.id == 0,
            r.rented_at == (Timestamp { seconds: 0, nanos: 0 }),
            !r.returned,
    {
        Rental {
            id: 0,
            customer,
            title,
            staff_id,
            cost_cents,
            rented_at: Timestamp { seconds: 0, nanos: 0 },
            returned: false,
        }
    }

    /// An independent copy of the record.
    pub fn duplicate(&self) -> (r: Rental)
        ensures
            r@ == self@,
    {
        Rental {
            id: self.id,
            customer: self.customer.clone(),
            title: self.title.clone(),
            staff_id: self.staff_id.clone(),
            cost_cents: self.cost_cents,
            rented_at: self.rented_at,
            returned: self.returned,
        }
    }
}

} // verus!
