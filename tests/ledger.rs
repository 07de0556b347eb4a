use dvd_rentals::ledger::{Ledger, LedgerError};
use dvd_rentals::clock::Timestamp;
use dvd_rentals::rental::Rental;

fn candidate(customer: &str, title: &str, staff: &str, cost_cents: i64) -> Rental {
    Rental::new(customer.to_string(), title.to_string(), staff.to_string(), cost_cents)
}

fn ids(v: &[Rental]) -> Vec<usize> {
    v.iter().map(|r| r.id).collect()
}

#[test]
fn end_to_end_scenario() {
    let mut ledger = Ledger::new();
    let first = ledger.create(candidate("Bob", "Matrix", "S1", 500));
    assert_eq!(first.id, 1);
    assert!(!first.returned);
    assert_eq!(first.customer, "Bob");
    assert_eq!(first.title, "Matrix");
    assert_eq!(first.staff_id, "S1");
    assert_eq!(first.cost_cents, 500);
    let second = ledger.create(candidate("Ann", "Up", "S2", 400));
    assert_eq!(second.id, 2);
    assert_eq!(ids(&ledger.list_pending()), vec![1, 2]);
    let back = ledger.return_rental(1).unwrap();
    assert_eq!(back.title, "Matrix");
    assert!(back.returned);
    assert_eq!(ids(&ledger.list_pending()), vec![2]);
    assert_eq!(ledger.cancel(2), Ok(()));
    let all = ledger.list_all();
    assert_eq!(ids(&all), vec![1]);
    assert!(all[0].returned);
}

#[test]
fn pending_after_three_creates_and_one_return() {
    let mut ledger = Ledger::new();
    ledger.create(candidate("A", "T1", "S", 100));
    ledger.create(candidate("B", "T2", "S", 200));
    ledger.create(candidate("C", "T3", "S", 300));
    ledger.return_rental(2).unwrap();
    let pending = ledger.list_pending();
    assert_eq!(ids(&pending), vec![1, 3]);
    assert!(pending.iter().all(|r| !r.returned));
}

#[test]
fn create_ignores_caller_id_time_and_flag() {
    let mut ledger = Ledger::new();
    let mut c = candidate("Bob", "Matrix", "S1", 500);
    c.id = 99;
    c.returned = true;
    c.rented_at.seconds = 7;
    let r = ledger.create(c);
    assert_eq!(r.id, 1);
    assert!(!r.returned);
    assert!(r.rented_at.seconds > 7);
    assert!(r.rented_at.nanos < 1_000_000_000);
}

#[test]
fn create_accepts_empty_fields_and_negative_cost() {
    let mut ledger = Ledger::new();
    let r = ledger.create(candidate("", "", "", -250));
    assert_eq!(r.id, 1);
    assert_eq!(r.customer, "");
    assert_eq!(r.cost_cents, -250);
    assert_eq!(ledger.len(), 1);
}

#[test]
fn create_ids_strictly_increase_without_cancel() {
    let mut ledger = Ledger::new();
    let mut last = 0;
    for k in 0..10 {
        let r = ledger.create(candidate("X", "T", "S", k));
        assert!(r.id > last);
        last = r.id;
        if k % 3 == 0 {
            ledger.return_rental(r.id).unwrap();
        }
    }
    assert_eq!(ids(&ledger.list_all()), (1..=10).collect::<Vec<usize>>());
}

#[test]
fn creates_add_exactly_one_record_each() {
    let mut ledger = Ledger::new();
    ledger.create(candidate("P", "T", "S", 1));
    ledger.create(candidate("P", "T", "S", 1));
    let before = ledger.len();
    for k in 0..5 {
        ledger.create(candidate("N", "T", "S", k));
    }
    assert_eq!(ledger.len(), before + 5);
    let all = ledger.list_all();
    let fresh: Vec<i64> = all.iter().filter(|r| r.customer == "N").map(|r| r.cost_cents).collect();
    assert_eq!(fresh, vec![0, 1, 2, 3, 4]);
}

#[test]
fn return_twice_succeeds_both_times() {
    let mut ledger = Ledger::new();
    ledger.create(candidate("Bob", "Matrix", "S1", 500));
    let a = ledger.return_rental(1).unwrap();
    assert!(a.returned);
    let b = ledger.return_rental(1).unwrap();
    assert!(b.returned);
    assert_eq!(b.id, 1);
    assert!(ledger.list_all()[0].returned);
}

#[test]
fn return_marks_only_first_record_with_colliding_id() {
    let mut ledger = Ledger::new();
    ledger.create(candidate("A", "T1", "S", 1));
    ledger.create(candidate("B", "T2", "S", 2));
    ledger.cancel(1).unwrap();
    let dup = ledger.create(candidate("C", "T3", "S", 3));
    assert_eq!(dup.id, 2);
    let r = ledger.return_rental(2).unwrap();
    assert_eq!(r.title, "T2");
    let all = ledger.list_all();
    assert!(all[0].returned);
    assert!(!all[1].returned);
}

#[test]
fn not_found_for_unknown_ids() {
    let mut ledger = Ledger::new();
    assert_eq!(ledger.return_rental(1).unwrap_err(), LedgerError::NotFound);
    assert_eq!(ledger.cancel(1), Err(LedgerError::NotFound));
    ledger.create(candidate("Bob", "Matrix", "S1", 500));
    assert_eq!(ledger.return_rental(0).unwrap_err(), LedgerError::NotFound);
    assert_eq!(ledger.cancel(0), Err(LedgerError::NotFound));
    assert_eq!(ledger.return_rental(2).unwrap_err(), LedgerError::NotFound);
    assert_eq!(ledger.cancel(usize::MAX), Err(LedgerError::NotFound));
    assert_eq!(ledger.len(), 1);
    assert!(!ledger.list_all()[0].returned);
}

#[test]
fn list_by_customer_is_exact_and_ordered() {
    let mut ledger = Ledger::new();
    ledger.create(candidate("Alice", "T1", "S", 1));
    ledger.create(candidate("Bob", "T2", "S", 2));
    ledger.create(candidate("alice", "T3", "S", 3));
    ledger.create(candidate("Alice", "T4", "S", 4));
    ledger.create(candidate("Alice ", "T5", "S", 5));
    let alice = ledger.list_by_customer(&"Alice".to_string());
    assert_eq!(ids(&alice), vec![1, 4]);
    assert!(alice.iter().all(|r| r.customer == "Alice"));
    assert!(ledger.list_by_customer(&"Carol".to_string()).is_empty());
}

#[test]
fn cancel_removes_record_from_every_listing() {
    let mut ledger = Ledger::new();
    ledger.create(candidate("Alice", "T1", "S", 1));
    ledger.create(candidate("Alice", "T2", "S", 2));
    ledger.create(candidate("Bob", "T3", "S", 3));
    assert_eq!(ledger.cancel(2), Ok(()));
    assert_eq!(ids(&ledger.list_all()), vec![1, 3]);
    assert_eq!(ids(&ledger.list_by_customer(&"Alice".to_string())), vec![1]);
    assert_eq!(ids(&ledger.list_pending()), vec![1, 3]);
    assert_eq!(ledger.cancel(2), Err(LedgerError::NotFound));
}

#[test]
fn cancel_removes_every_record_with_colliding_id() {
    let mut ledger = Ledger::new();
    ledger.create(candidate("A", "T1", "S", 1));
    ledger.create(candidate("B", "T2", "S", 2));
    ledger.cancel(1).unwrap();
    ledger.create(candidate("C", "T3", "S", 3));
    assert_eq!(ids(&ledger.list_all()), vec![2, 2]);
    assert_eq!(ledger.cancel(2), Ok(()));
    assert!(ledger.list_all().is_empty());
}

#[test]
fn empty_ledger_lists_nothing() {
    let ledger = Ledger::new();
    assert_eq!(ledger.len(), 0);
    assert!(ledger.list_all().is_empty());
    assert!(ledger.list_pending().is_empty());
    assert!(ledger.list_by_customer(&String::new()).is_empty());
}

#[test]
fn duplicate_copies_every_field() {
    let mut r = candidate("Bob", "Matrix", "S1", 500);
    r.id = 4;
    r.returned = true;
    r.rented_at.seconds = 12;
    r.rented_at.nanos = 34;
    let d = r.duplicate();
    assert_eq!(d.id, 4);
    assert_eq!(d.customer, "Bob");
    assert_eq!(d.title, "Matrix");
    assert_eq!(d.staff_id, "S1");
    assert_eq!(d.cost_cents, 500);
    assert_eq!(d.rented_at, r.rented_at);
    assert!(d.returned);
}

#[test]
fn create_at_uses_given_time() {
    let mut ledger = Ledger::new();
    let at = Timestamp { seconds: 1_431_648_000, nanos: 5 };
    let r = ledger.create_at(candidate("Bob", "Matrix", "S1", 500), at);
    assert_eq!(r.id, 1);
    assert_eq!(r.rented_at, at);
    assert!(!r.returned);
    let r2 = ledger.create_at(candidate("Ann", "Up", "S2", 400), at);
    assert_eq!(r2.id, 2);
    assert_eq!(ledger.list_all()[1].rented_at, at);
}
