use pos_cart::model::CartError;
use pos_cart::model::PurchasingType;
use pos_cart::store::CartStore;
use pos_cart::timestamp::Timestamp;

fn at(year: u32, month: u32, day: u32, hour: u32, minute: u32, second: u32) -> Timestamp {
    Timestamp { year, month, day, hour, minute, second }
}

#[test]
fn first_checkout_of_the_day_is_sequence_001() {
    let mut store = CartStore::new();
    let now = at(2026, 3, 5, 10, 15, 0);
    store.create_cart(String::from("A"), now).unwrap();
    let invoice = store
        .checkout_cart(1, String::from("S1"), String::from("E7"), now)
        .unwrap();
    assert_eq!(invoice, "S1_E7_20260305_001");
}

#[test]
fn second_checkout_same_day_is_sequence_002() {
    // A single writer always sees the first checkout's status update, so the
    // sequence advances; only concurrent writers could both read a count of
    // zero, and this store admits no second writer.
    let mut store = CartStore::new();
    let now = at(2026, 3, 5, 10, 15, 0);
    store.create_cart(String::from("A"), now).unwrap();
    store.create_cart(String::from("B"), now).unwrap();
    let first = store
        .checkout_cart(1, String::from("S1"), String::from("E7"), now)
        .unwrap();
    let later = at(2026, 3, 5, 16, 40, 21);
    let second = store
        .checkout_cart(2, String::from("S1"), String::from("E7"), later)
        .unwrap();
    assert_eq!(first, "S1_E7_20260305_001");
    assert_eq!(second, "S1_E7_20260305_002");
}

#[test]
fn checkout_sequence_counts_only_carts_created_that_day() {
    let mut store = CartStore::new();
    let yesterday = at(2026, 3, 4, 23, 0, 0);
    let today = at(2026, 3, 5, 9, 0, 0);
    store.create_cart(String::from("A"), yesterday).unwrap();
    store
        .checkout_cart(1, String::from("S1"), String::from("E7"), yesterday)
        .unwrap();
    store.create_cart(String::from("B"), today).unwrap();
    let invoice = store
        .checkout_cart(2, String::from("S1"), String::from("E7"), today)
        .unwrap();
    assert_eq!(invoice, "S1_E7_20260305_001");
}

#[test]
fn checkout_has_no_status_or_existence_precondition() {
    let mut store = CartStore::new();
    let now = at(2026, 3, 5, 10, 15, 0);
    let invoice = store
        .checkout_cart(42, String::from("S1"), String::from("E7"), now)
        .unwrap();
    assert_eq!(invoice, "S1_E7_20260305_001");
    assert!(store.list_active_cart().is_none());
}

#[test]
fn cleanup_removes_only_expired_active_carts() {
    let mut store = CartStore::new();
    let now = at(2026, 1, 10, 12, 0, 0);
    // One minute past the 30-minute TTL: swept.
    store.create_cart(String::from("old"), at(2026, 1, 10, 11, 29, 0)).unwrap();
    // One minute inside the TTL: kept.
    store.create_cart(String::from("fresh"), at(2026, 1, 10, 11, 31, 0)).unwrap();
    // Newer than the cutoff but older than now: kept; this would be swept if
    // the cutoff were computed as `now` itself instead of `now - ttl`.
    store.create_cart(String::from("newest"), at(2026, 1, 10, 11, 45, 0)).unwrap();
    // A parked cart far older than the TTL: never swept.
    store.create_cart(String::from("kept"), at(2026, 1, 10, 8, 0, 0)).unwrap();
    store.park_cart(4, String::from("kept")).unwrap();
    store.cleanup_expired_carts(30, now).unwrap();
    assert_eq!(store.update_cart_name(1, String::from("x")), Err(CartError::NotFound));
    assert!(store.update_cart_name(2, String::from("fresh")).is_ok());
    assert!(store.update_cart_name(3, String::from("newest")).is_ok());
    let parked = store.list_parked_carts();
    assert_eq!(parked.len(), 1);
    assert_eq!(parked[0].cart_id, 4);
}

#[test]
fn cleanup_cutoff_crosses_a_month_boundary() {
    let mut store = CartStore::new();
    // 00:20 on March 1st with a 60-minute TTL: the cutoff is 23:20 on
    // February 28th (2026 is not a leap year).
    let now = at(2026, 3, 1, 0, 20, 0);
    store.create_cart(String::from("old"), at(2026, 2, 28, 23, 10, 0)).unwrap();
    store.create_cart(String::from("fresh"), at(2026, 2, 28, 23, 30, 0)).unwrap();
    store.cleanup_expired_carts(60, now).unwrap();
    assert_eq!(store.update_cart_name(1, String::from("x")), Err(CartError::NotFound));
    assert!(store.update_cart_name(2, String::from("fresh")).is_ok());
}

#[test]
fn cleanup_removes_the_lines_of_swept_carts() {
    let mut store = CartStore::new();
    let now = at(2026, 1, 10, 12, 0, 0);
    store.create_cart(String::from("old"), at(2026, 1, 10, 9, 0, 0)).unwrap();
    store.add_cart_item(1, 100, None, 2, 500, PurchasingType::Single, 0).unwrap();
    store.create_cart(String::from("fresh"), at(2026, 1, 10, 11, 55, 0)).unwrap();
    store.add_cart_item(2, 200, None, 1, 300, PurchasingType::Single, 0).unwrap();
    store.cleanup_expired_carts(30, now).unwrap();
    assert_eq!(store.list_cart_items(1).len(), 0);
    assert_eq!(store.list_cart_items(2).len(), 1);
}

#[test]
fn cleanup_rolls_back_when_the_transaction_fails() {
    let mut store = CartStore::new();
    let now = at(2026, 1, 10, 12, 0, 0);
    store.create_cart(String::from("old"), at(2026, 1, 10, 9, 0, 0)).unwrap();
    store.add_cart_item(1, 100, None, 2, 500, PurchasingType::Single, 0).unwrap();
    store.set_fail_after(1);
    assert_eq!(store.cleanup_expired_carts(30, now), Err(CartError::PersistenceError));
    assert!(store.update_cart_name(1, String::from("still here")).is_ok());
    assert_eq!(store.list_cart_items(1).len(), 1);
}

#[test]
fn cleanup_with_unrepresentable_cutoff_touches_nothing() {
    // A year beyond chrono's range cannot yield a cutoff; the sweep fails
    // and the store is untouched.
    let mut store = CartStore::new();
    let now = at(u32::MAX, 1, 1, 0, 0, 0);
    store.create_cart(String::from("A"), at(2026, 1, 1, 0, 0, 0)).unwrap();
    assert_eq!(store.cleanup_expired_carts(5, now), Err(CartError::PersistenceError));
    assert!(store.list_active_cart().is_some());
}

#[test]
fn timestamps_render_zero_padded() {
    let t = Timestamp::new(2026, 3, 5, 9, 7, 4).unwrap();
    assert_eq!(t.render(), "2026-03-05 09:07:04");
    let u = Timestamp::new(999, 12, 31, 23, 59, 59).unwrap();
    assert_eq!(u.render(), "0999-12-31 23:59:59");
}

#[test]
fn timestamp_validation_knows_month_lengths_and_leap_years() {
    assert!(Timestamp::new(2026, 2, 28, 0, 0, 0).is_some());
    assert!(Timestamp::new(2026, 2, 29, 0, 0, 0).is_none());
    assert!(Timestamp::new(2024, 2, 29, 0, 0, 0).is_some());
    assert!(Timestamp::new(2000, 2, 29, 0, 0, 0).is_some());
    assert!(Timestamp::new(1900, 2, 29, 0, 0, 0).is_none());
    assert!(Timestamp::new(2026, 4, 31, 0, 0, 0).is_none());
    assert!(Timestamp::new(2026, 13, 1, 0, 0, 0).is_none());
    assert!(Timestamp::new(2026, 1, 1, 24, 0, 0).is_none());
}

#[test]
fn timestamp_order_is_instant_order() {
    let a = at(2025, 12, 31, 23, 59, 59);
    let b = at(2026, 1, 1, 0, 0, 0);
    assert!(a.before(&b));
    assert!(!b.before(&a));
    assert!(!a.before(&a));
    let c = at(2026, 1, 1, 0, 0, 1);
    assert!(b.before(&c));
}

#[test]
fn cleanup_agrees_with_chrono_arithmetic() {
    // The cutoff that the store applies must match what chrono computes for
    // `now - ttl`, here across a year boundary.
    let now = at(2026, 1, 1, 0, 30, 0);
    let ttl: u32 = 45;
    let chrono_now = chrono::NaiveDate::from_ymd_opt(2026, 1, 1)
        .unwrap()
        .and_hms_opt(0, 30, 0)
        .unwrap();
    let cutoff = chrono_now - chrono::TimeDelta::try_minutes(ttl as i64).unwrap();
    let expect = format!("{}", cutoff.format("%Y-%m-%d %H:%M:%S"));
    assert_eq!(expect, "2025-12-31 23:45:00");

    let mut store = CartStore::new();
    store.create_cart(String::from("older"), at(2025, 12, 31, 23, 44, 0)).unwrap();
    store.create_cart(String::from("newer"), at(2025, 12, 31, 23, 46, 0)).unwrap();
    store.cleanup_expired_carts(ttl, now).unwrap();
    assert_eq!(store.update_cart_name(1, String::from("x")), Err(CartError::NotFound));
    assert!(store.update_cart_name(2, String::from("newer")).is_ok());
}
