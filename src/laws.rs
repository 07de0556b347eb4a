//! Properties of the ledger that relate several operations, stated over the
//! views that the operations' contracts use.

use crate::clock::Timestamp;
use crate::ledger::{
    created, has_id, id_differs, ids_positive, is_first_with_id, mark_returned, of_customer,
    pending,
};
use crate::rental::RentalView;
use vstd::prelude::*;

verus! {

/// The ids of `s` increase strictly along the sequence, and each lies
/// between one and the number of records.
pub open spec fn ids_in_creation_order(s: Seq<RentalView>) -> bool {
    &&& forall|i: int, j: int| 0 <= i < j < s.len() ==> #[trigger] s[i].id < #[trigger] s[j].id
    &&& forall|i: int| 0 <= i < s.len() ==> 1 <= #[trigger] s[i].id <= s.len()
}

/// The ledger after creating, in order, a record from each candidate of
/// `cs` at the matching time of `ts`.
pub open spec fn create_all(
    s: Seq<RentalView>,
    cs: Seq<RentalView>,
    ts: Seq<Timestamp>,
) -> Seq<RentalView>
    decreases cs.len(),
{
    if cs.len() == 0 || ts.len() == 0 {
        s
    } else {
        create_all(s.push(created(s, cs[0], ts[0])), cs.drop_first(), ts.drop_first())
    }
}

/// Creation keeps ids in creation order, and the new id exceeds every id
/// already held.
pub proof fn lemma_create_keeps_ids_ordered(s: Seq<RentalView>, c: RentalView, t: Timestamp)
    requires
        ids_in_creation_order(s),
        s.len() < usize::MAX,
    ensures
        ids_in_creation_order(s.push(created(s, c, t))),
        forall|i: int| 0 <= i < s.len() ==> #[trigger] s[i].id < created(s, c, t).id,
{
    let r = s.push(created(s, c, t));
    assert forall|i: int, j: int| 0 <= i < j < r.len() implies #[trigger] r[i].id
        < #[trigger] r[j].id by {
        if j == s.len() {
            assert(s[i].id <= s.len());
        } else {
            assert(s[i].id < s[j].id);
        }
    };
}

/// Marking a record as returned keeps ids in creation order.
pub proof fn lemma_return_keeps_ids_ordered(s: Seq<RentalView>, i: int)
    requires
        ids_in_creation_order(s),
        0 <= i < s.len(),
    ensures
        ids_in_creation_order(mark_returned(s, i)),
{
    let r = mark_returned(s, i);
    assert forall|a: int| 0 <= a < r.len() implies #[trigger] r[a].id == s[a].id by {};
}

/// Any run of creations from a ledger whose ids are in creation order (as
/// the empty ledger's are) assigns strictly increasing, hence distinct, ids.
pub proof fn lemma_create_all_keeps_ids_ordered(
    s: Seq<RentalView>,
    cs: Seq<RentalView>,
    ts: Seq<Timestamp>,
)
    requires
        ids_in_creation_order(s),
        cs.len() == ts.len(),
        s.len() + cs.len() < usize::MAX,
    ensures
        ids_in_creation_order(create_all(s, cs, ts)),
    decreases cs.len(),
{
    if cs.len() > 0 {
        lemma_create_keeps_ids_ordered(s, cs[0], ts[0]);
        lemma_create_all_keeps_ids_ordered(
            s.push(created(s, cs[0], ts[0])),
            cs.drop_first(),
            ts.drop_first(),
        );
    }
}

/// A run of creations, one after another as the ledger's lock orders them,
/// keeps every earlier record, and adds exactly one record per candidate,
/// at its own position, with its own distinct id.
pub proof fn lemma_create_all_appends_each_once(
    s: Seq<RentalView>,
    cs: Seq<RentalView>,
    ts: Seq<Timestamp>,
)
    requires
        cs.len() == ts.len(),
        s.len() + cs.len() < usize::MAX,
    ensures
        create_all(s, cs, ts).len() == s.len() + cs.len(),
        create_all(s, cs, ts).take(s.len() as int) == s,
        forall|k: int|
            0 <= k < cs.len() ==> #[trigger] create_all(s, cs, ts)[s.len() + k] == created(
                create_all(s, cs, ts).take(s.len() + k),
                cs[k],
                ts[k],
            ),
        forall|k: int| 0 <= k < cs.len() ==> #[trigger] create_all(s, cs, ts)[s.len() + k].id == s.len() + k + 1,
    decreases cs.len(),
{
    let r = create_all(s, cs, ts);
    if cs.len() > 0 {
        let s1 = s.push(created(s, cs[0], ts[0]));
        let cs1 = cs.drop_first();
        let ts1 = ts.drop_first();
        lemma_create_all_appends_each_once(s1, cs1, ts1);
        assert(r.take(s1.len() as int) == s1);
        assert(r.take(s.len() as int) =~= s1.take(s.len() as int));
        assert(s1.take(s.len() as int) =~= s);
        assert forall|k: int| 0 <= k < cs.len() implies #[trigger] r[s.len() + k] == created(
            r.take(s.len() + k),
            cs[k],
            ts[k],
        ) by {
            if k == 0 {
                assert(r[s.len() as int] == s1[s.len() as int]);
            } else {
                assert(r[s1.len() + (k - 1)] == created(r.take(s1.len() + (k - 1)), cs1[k - 1], ts1[k - 1]));
            }
        };
        assert forall|k: int| 0 <= k < cs.len() implies #[trigger] r[s.len() + k].id == s.len() + k + 1 by {
            assert(r[s.len() + k] == created(r.take(s.len() + k), cs[k], ts[k]));
        };
    } else {
        assert(s.take(s.len() as int) =~= s);
    }
}

/// Returning the same record twice: the first return marks it, a second
/// finds the same record, sees it marked, and changes nothing.
pub proof fn lemma_return_twice(s: Seq<RentalView>, id: usize, i: int)
    requires
        is_first_with_id(s, id, i),
    ensures
        has_id(mark_returned(s, i), id),
        is_first_with_id(mark_returned(s, i), id, i),
        forall|j: int| #[trigger] is_first_with_id(mark_returned(s, i), id, j) ==> j == i,
        mark_returned(s, i)[i].returned,
        mark_returned(mark_returned(s, i), i) == mark_returned(s, i),
{
    let s1 = mark_returned(s, i);
    assert(s1[i].id == id);
    assert forall|j: int| #[trigger] is_first_with_id(s1, id, j) implies j == i by {
        if j < i {
            assert(s1[j].id == s[j].id);
        } else if j > i {
            assert(s1[i].id == id);
        }
    };
    assert(mark_returned(s1, i) =~= s1);
}

/// No record of a well-formed ledger has id zero, and the empty ledger has
/// no record of any id: returning or cancelling those fails.
pub proof fn lemma_not_found(s: Seq<RentalView>, id: usize)
    requires
        ids_positive(s),
    ensures
        !has_id(s, 0),
        !has_id(Seq::<RentalView>::empty(), id),
{
}

/// After cancelling `id`, no record with that id is left, nor listed by
/// customer or as pending.
pub proof fn lemma_cancel_removes(s: Seq<RentalView>, id: usize, c: Seq<char>)
    ensures
        !has_id(s.filter(id_differs(id)), id),
        !has_id(s.filter(id_differs(id)).filter(of_customer(c)), id),
        !has_id(s.filter(id_differs(id)).filter(pending()), id),
{
    broadcast use vstd::seq_lib::group_filter_ensures;

    let t = s.filter(id_differs(id));
    assert forall|i: int| 0 <= i < t.len() implies #[trigger] t[i].id != id by {
        assert(id_differs(id)(t[i]));
    };
    let u = t.filter(of_customer(c));
    assert forall|i: int| 0 <= i < u.len() implies #[trigger] u[i].id != id by {
        assert(u.contains(u[i]));
        t.lemma_filter_contains_rev(of_customer(c), u[i]);
        let j = choose|j: int| 0 <= j < t.len() && t[j] == u[i];
        assert(t[j].id != id);
    };
    let v = t.filter(pending());
    assert forall|i: int| 0 <= i < v.len() implies #[trigger] v[i].id != id by {
        assert(v.contains(v[i]));
        t.lemma_filter_contains_rev(pending(), v[i]);
        let j = choose|j: int| 0 <= j < t.len() && t[j] == v[i];
        assert(t[j].id != id);
    };
}

} // verus!
