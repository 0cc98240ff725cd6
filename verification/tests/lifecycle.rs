use pos_cart::model::CartError;
use pos_cart::model::CartStatus;
use pos_cart::model::PurchasingType;
use pos_cart::store::CartStore;
use pos_cart::timestamp::Timestamp;

fn at(year: u32, month: u32, day: u32, hour: u32, minute: u32, second: u32) -> Timestamp {
    Timestamp { year, month, day, hour, minute, second }
}

#[test]
fn create_cart_starts_active() {
    let mut store = CartStore::new();
    let now = at(2026, 3, 5, 10, 0, 0);
    let cart = store.create_cart(String::from("A"), now).unwrap();
    assert_eq!(cart.cart_id, 1);
    assert_eq!(cart.cart_name, "A");
    assert_eq!(cart.added_at, now);
    let active = store.list_active_cart().unwrap();
    assert_eq!(active.cart_id, 1);
    assert_eq!(active.cart_name, "A");
}

#[test]
fn second_create_leaves_two_active_carts() {
    // The single-active rule is enforced only at activation: after two
    // creations both rows report active, until an activation restores the
    // rule.
    let mut store = CartStore::new();
    let now = at(2026, 3, 5, 10, 0, 0);
    store.create_cart(String::from("A"), now).unwrap();
    store.create_cart(String::from("B"), now).unwrap();
    let rows = store.carts_snapshot();
    assert_eq!(rows.len(), 2);
    assert_eq!(rows[0].status, CartStatus::Active);
    assert_eq!(rows[1].status, CartStatus::Active);
    store.activate_cart(2).unwrap();
    let rows = store.carts_snapshot();
    let active: Vec<i64> = rows
        .iter()
        .filter(|c| c.status == CartStatus::Active)
        .map(|c| c.cart_id)
        .collect();
    assert_eq!(active, vec![2]);
}

#[test]
fn snapshots_restore_to_the_same_store() {
    let mut store = CartStore::new();
    let now = at(2026, 3, 5, 10, 0, 0);
    store.create_cart(String::from("A"), now).unwrap();
    store.create_cart(String::from("B"), now).unwrap();
    store.add_cart_item(1, 100, Some(String::from("4006381333931")), 2, 500, PurchasingType::Single, 25).unwrap();
    store.park_cart(1, String::from("A")).unwrap();
    let restored = CartStore::restore(store.carts_snapshot(), store.items_snapshot(), 3).unwrap();
    let parked = restored.list_parked_carts();
    assert_eq!(parked.len(), 1);
    assert_eq!(parked[0].cart_name, "A");
    let items = restored.list_cart_items(1);
    assert_eq!(items.len(), 1);
    assert_eq!(items[0].scanned_barcode.as_deref(), Some("4006381333931"));
    assert_eq!(items[0].discount, 25);
    // Rows that break identity uniqueness are refused.
    let mut dup = store.carts_snapshot();
    dup.push(pos_cart::model::Cart {
        cart_id: 1,
        cart_name: String::from("twin"),
        status: CartStatus::Parked,
        added_at: now,
    });
    assert!(CartStore::restore(dup, Vec::new(), 3).is_none());
}

#[test]
fn activate_restores_single_active() {
    let mut store = CartStore::new();
    let now = at(2026, 3, 5, 10, 0, 0);
    store.create_cart(String::from("A"), now).unwrap();
    store.create_cart(String::from("B"), now).unwrap();
    store.activate_cart(1).unwrap();
    let active = store.list_active_cart().unwrap();
    assert_eq!(active.cart_id, 1);
    // Cart 2 was demoted to parked, so parking it again is refused.
    assert_eq!(store.park_cart(2, String::from("B")), Err(CartError::NotActive));
    let parked = store.list_parked_carts();
    assert_eq!(parked.len(), 1);
    assert_eq!(parked[0].cart_id, 2);
}

#[test]
fn activate_switches_the_active_cart() {
    let mut store = CartStore::new();
    let now = at(2026, 3, 5, 10, 0, 0);
    store.create_cart(String::from("A"), now).unwrap();
    store.create_cart(String::from("B"), now).unwrap();
    store.activate_cart(1).unwrap();
    store.activate_cart(2).unwrap();
    let active = store.list_active_cart().unwrap();
    assert_eq!(active.cart_id, 2);
    let parked = store.list_parked_carts();
    assert_eq!(parked.len(), 1);
    assert_eq!(parked[0].cart_id, 1);
}

#[test]
fn activate_missing_cart_is_not_parked() {
    let mut store = CartStore::new();
    let now = at(2026, 3, 5, 10, 0, 0);
    store.create_cart(String::from("A"), now).unwrap();
    assert_eq!(store.activate_cart(99), Err(CartError::NotParked));
    // The demotion step already ran: the cart is parked now.
    assert!(store.list_active_cart().is_none());
}

#[test]
fn add_item_then_list_then_zero_quantity() {
    let mut store = CartStore::new();
    let now = at(2026, 3, 5, 10, 0, 0);
    store.create_cart(String::from("A"), now).unwrap();
    let line = store
        .add_cart_item(1, 100, None, 2, (5.0f64 * 100.0) as u64, PurchasingType::Single, 0)
        .unwrap();
    assert_eq!(line.quantity, 2);
    let items = store.list_cart_items(1);
    assert_eq!(items.len(), 1);
    assert_eq!(items[0].product_id, 100);
    assert_eq!(items[0].quantity, 2);
    assert_eq!(items[0].price, 500);
    store.update_cart_item_quantity(1, 100, PurchasingType::Single, 0).unwrap();
    assert_eq!(store.list_cart_items(1).len(), 0);
}

#[test]
fn add_item_requires_active_cart() {
    let mut store = CartStore::new();
    let now = at(2026, 3, 5, 10, 0, 0);
    store.create_cart(String::from("A"), now).unwrap();
    store.park_cart(1, String::from("A")).unwrap();
    let r = store.add_cart_item(1, 100, None, 1, 500, PurchasingType::Single, 0);
    assert_eq!(r.unwrap_err(), CartError::CartNotActive);
    assert_eq!(store.list_cart_items(1).len(), 0);
}

#[test]
fn add_item_to_missing_cart_is_not_found() {
    let mut store = CartStore::new();
    let r = store.add_cart_item(7, 100, None, 1, 500, PurchasingType::Single, 0);
    assert_eq!(r.unwrap_err(), CartError::NotFound);
}

#[test]
fn duplicate_keys_accumulate_and_zero_clears_them_all() {
    let mut store = CartStore::new();
    let now = at(2026, 3, 5, 10, 0, 0);
    store.create_cart(String::from("A"), now).unwrap();
    store.add_cart_item(1, 100, None, 1, 500, PurchasingType::Single, 0).unwrap();
    store.add_cart_item(1, 100, None, 3, 500, PurchasingType::Single, 0).unwrap();
    store.add_cart_item(1, 100, None, 4, 900, PurchasingType::Bulk, 0).unwrap();
    assert_eq!(store.list_cart_items(1).len(), 3);
    store.update_cart_item_quantity(1, 100, PurchasingType::Single, 0).unwrap();
    let items = store.list_cart_items(1);
    assert_eq!(items.len(), 1);
    assert!(matches!(items[0].purchasing_type, PurchasingType::Bulk));
}

#[test]
fn set_quantity_updates_every_matching_line() {
    let mut store = CartStore::new();
    let now = at(2026, 3, 5, 10, 0, 0);
    store.create_cart(String::from("A"), now).unwrap();
    store.add_cart_item(1, 100, None, 1, 500, PurchasingType::Single, 0).unwrap();
    store.add_cart_item(1, 200, None, 2, 300, PurchasingType::Single, 0).unwrap();
    store.update_cart_item_quantity(1, 100, PurchasingType::Single, 9).unwrap();
    let items = store.list_cart_items(1);
    assert_eq!(items[0].quantity, 9);
    assert_eq!(items[1].quantity, 2);
}

#[test]
fn remove_item_is_idempotent() {
    let mut store = CartStore::new();
    let now = at(2026, 3, 5, 10, 0, 0);
    store.create_cart(String::from("A"), now).unwrap();
    assert!(store.remove_cart_item(1, 100, PurchasingType::Single).is_ok());
    store.add_cart_item(1, 100, None, 1, 500, PurchasingType::Single, 0).unwrap();
    assert!(store.remove_cart_item(1, 100, PurchasingType::Single).is_ok());
    assert_eq!(store.list_cart_items(1).len(), 0);
    assert!(store.remove_cart_item(1, 100, PurchasingType::Single).is_ok());
}

#[test]
fn rename_any_status_but_missing_is_not_found() {
    let mut store = CartStore::new();
    let now = at(2026, 3, 5, 10, 0, 0);
    store.create_cart(String::from("A"), now).unwrap();
    store.park_cart(1, String::from("A")).unwrap();
    store.update_cart_name(1, String::from("lunch order")).unwrap();
    let parked = store.list_parked_carts();
    assert_eq!(parked[0].cart_name, "lunch order");
    assert_eq!(store.update_cart_name(9, String::from("x")), Err(CartError::NotFound));
}

#[test]
fn confirm_payment_removes_cart_and_items() {
    let mut store = CartStore::new();
    let now = at(2026, 3, 5, 10, 0, 0);
    store.create_cart(String::from("A"), now).unwrap();
    store.add_cart_item(1, 100, None, 2, 500, PurchasingType::Single, 0).unwrap();
    store.confirm_payment(1).unwrap();
    assert!(store.list_active_cart().is_none());
    assert_eq!(store.list_cart_items(1).len(), 0);
    assert_eq!(store.update_cart_name(1, String::from("x")), Err(CartError::NotFound));
}

#[test]
fn confirm_payment_rolls_back_when_second_delete_fails() {
    let mut store = CartStore::new();
    let now = at(2026, 3, 5, 10, 0, 0);
    store.create_cart(String::from("A"), now).unwrap();
    store.add_cart_item(1, 100, None, 2, 500, PurchasingType::Single, 0).unwrap();
    // Statement 1 marks the cart processed; statement 2 deletes the lines;
    // statement 3 deletes the cart row.  Failing statement 3 must leave both
    // the lines and the cart row in place.
    store.set_fail_after(2);
    assert_eq!(store.confirm_payment(1), Err(CartError::PersistenceError));
    assert_eq!(store.list_cart_items(1).len(), 1);
    assert!(store.update_cart_name(1, String::from("still here")).is_ok());
}

#[test]
fn confirm_payment_rolls_back_when_first_delete_fails() {
    let mut store = CartStore::new();
    let now = at(2026, 3, 5, 10, 0, 0);
    store.create_cart(String::from("A"), now).unwrap();
    store.add_cart_item(1, 100, None, 2, 500, PurchasingType::Single, 0).unwrap();
    store.set_fail_after(1);
    assert_eq!(store.confirm_payment(1), Err(CartError::PersistenceError));
    assert_eq!(store.list_cart_items(1).len(), 1);
    assert!(store.update_cart_name(1, String::from("still here")).is_ok());
}

#[test]
fn cancel_removes_cart_and_items_from_any_status() {
    let mut store = CartStore::new();
    let now = at(2026, 3, 5, 10, 0, 0);
    store.create_cart(String::from("A"), now).unwrap();
    store.add_cart_item(1, 100, None, 2, 500, PurchasingType::Single, 0).unwrap();
    store.park_cart(1, String::from("A")).unwrap();
    store.cancel_cart(1).unwrap();
    assert_eq!(store.list_parked_carts().len(), 0);
    assert_eq!(store.list_cart_items(1).len(), 0);
    assert_eq!(store.update_cart_name(1, String::from("x")), Err(CartError::NotFound));
}

#[test]
fn cancel_rolls_back_when_cart_delete_fails() {
    let mut store = CartStore::new();
    let now = at(2026, 3, 5, 10, 0, 0);
    store.create_cart(String::from("A"), now).unwrap();
    store.add_cart_item(1, 100, None, 2, 500, PurchasingType::Single, 0).unwrap();
    store.set_fail_after(1);
    assert_eq!(store.cancel_cart(1), Err(CartError::PersistenceError));
    // Neither deletion is observable: line and cart both survive, the cart
    // even with its status untouched.
    assert_eq!(store.list_cart_items(1).len(), 1);
    let active = store.list_active_cart().unwrap();
    assert_eq!(active.cart_id, 1);
}

#[test]
fn activate_refuses_a_pending_checkout_cart() {
    let mut store = CartStore::new();
    let now = at(2026, 3, 5, 10, 0, 0);
    store.create_cart(String::from("A"), now).unwrap();
    store.checkout_cart(1, String::from("S1"), String::from("E7"), now).unwrap();
    assert_eq!(store.activate_cart(1), Err(CartError::NotParked));
}

#[test]
fn injected_fault_fails_one_operation_then_clears() {
    let mut store = CartStore::new();
    let now = at(2026, 3, 5, 10, 0, 0);
    store.set_fail_after(0);
    assert_eq!(
        store.create_cart(String::from("A"), now).unwrap_err(),
        CartError::PersistenceError
    );
    assert!(store.list_active_cart().is_none());
    assert!(store.create_cart(String::from("A"), now).is_ok());
}
