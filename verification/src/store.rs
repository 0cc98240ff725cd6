//! The cart store: every lifecycle transition, the single-active-cart rule,
//! the atomic multi-row deletions, invoice numbering and the expiry sweep.
//!
//! The store executes its mutations as a sequence of statements against its
//! rows, exactly as the persisted schema does.  A statement can be made to
//! fail through [`CartStore::set_fail_after`]; operations that the design
//! declares atomic (`confirm_payment`, `cancel_cart`, `cleanup_expired_*`)
//! then roll back to the state their transaction started from, while the
//! deliberately non-transactional pairs (`checkout_cart`'s status update and
//! count, `activate_cart`'s demote and promote) leave their documented
//! intermediate state behind.

use crate::clock::minutes_before;
use crate::clock::minutes_before_spec;
use crate::digits::append_padded;
use crate::model::Cart;
use crate::model::CartError;
use crate::model::CartItem;
use crate::model::CartStatus;
use crate::model::PurchasingType;
use crate::timestamp::Timestamp;
use vstd::prelude::*;
use vstd::string::StringExecFns;

verus! {

/// Ghost image of the store: the cart rows, the item rows, the next identity
/// to assign, and the pending injected fault.
#[verifier::ext_equal]
pub ghost struct StoreModel {
    pub carts: Seq<Cart>,
    pub items: Seq<CartItem>,
    pub next_cart_id: int,
    pub fail_in: Option<u32>,
}

/// The in-memory cart store.
pub struct CartStore {
    carts: Vec<Cart>,
    items: Vec<CartItem>,
    next_cart_id: i64,
    fail_in: Option<u32>,
}

impl View for CartStore {
    type V = StoreModel;

    closed spec fn view(&self) -> StoreModel {
        StoreModel {
            carts: self.carts@,
            items: self.items@,
            next_cart_id: self.next_cart_id as int,
            fail_in: self.fail_in,
        }
    }
}

/// No two cart rows share an identity.
pub open spec fn ids_unique(carts: Seq<Cart>) -> bool {
    forall|i: int, j: int|
        0 <= i < j < carts.len() ==> (#[trigger] carts[i]).cart_id != (#[trigger] carts[j]).cart_id
}

/// Identities are unique and below the next identity to assign.
pub open spec fn carts_ok(carts: Seq<Cart>, next: int) -> bool {
    ids_unique(carts) && forall|i: int|
        0 <= i < carts.len() ==> (#[trigger] carts[i]).cart_id < next
}

/// Some cart row carries this identity.
pub open spec fn has_cart(carts: Seq<Cart>, id: i64) -> bool {
    exists|i: int| 0 <= i < carts.len() && (#[trigger] carts[i]).cart_id == id
}

/// The position of the cart row with this identity.
pub open spec fn cart_index(carts: Seq<Cart>, id: i64) -> int {
    choose|i: int| 0 <= i < carts.len() && (#[trigger] carts[i]).cart_id == id
}

/// The status of the cart row with this identity.
pub open spec fn status_of(carts: Seq<Cart>, id: i64) -> CartStatus {
    carts[cart_index(carts, id)].status
}

/// At most one cart row is `active`.
pub open spec fn at_most_one_active(carts: Seq<Cart>) -> bool {
    forall|i: int, j: int|
        0 <= i < carts.len() && 0 <= j < carts.len() && (#[trigger] carts[i]).status
            == CartStatus::Active && (#[trigger] carts[j]).status == CartStatus::Active ==> i == j
}

/// Whether an injected fault hits one of the next `within` statements.
pub open spec fn fires(f: Option<u32>, within: int) -> bool {
    match f {
        Some(k) => k < within,
        None => false,
    }
}

/// The fault counter after one successful statement.
pub open spec fn tick(f: Option<u32>) -> Option<u32> {
    match f {
        Some(k) => if k > 0 {
            Some((k - 1) as u32)
        } else {
            None
        },
        None => None,
    }
}

impl CartStore {
    /// Identities are unique and the next identity is usable.
    pub open spec fn wf(&self) -> bool {
        carts_ok(self@.carts, self@.next_cart_id) && 1 <= self@.next_cart_id <= i64::MAX
    }

    /// An empty store, as freshly initialized tables present it.
    pub fn new() -> (s: CartStore)
        ensures
            s.wf(),
            s@.carts == Seq::<Cart>::empty(),
            s@.items == Seq::<CartItem>::empty(),
            s@.next_cart_id == 1,
            s@.fail_in == None::<u32>,
    {
        CartStore { carts: Vec::new(), items: Vec::new(), next_cart_id: 1, fail_in: None }
    }

    /// Arms fault injection: the next `n` statements succeed and the one
    /// after them fails with [`CartError::PersistenceError`].
    pub fn set_fail_after(&mut self, n: u32)
        ensures
            final(self)@ == (StoreModel { fail_in: Some(n), ..old(self)@ }),
    {
        self.fail_in = Some(n);
    }

    /// Runs one statement against the fault plan: reports whether it
    /// succeeded and advances the plan.
    fn stmt_gate(&mut self) -> (ok: bool)
        ensures
            ok == !fires(old(self)@.fail_in, 1),
            final(self)@.carts == old(self)@.carts,
            final(self)@.items == old(self)@.items,
            final(self)@.next_cart_id == old(self)@.next_cart_id,
            final(self)@.fail_in == if ok {
                tick(old(self)@.fail_in)
            } else {
                None::<u32>
            },
    {
        match self.fail_in {
            None => true,
            Some(k) => {
                if k == 0 {
                    self.fail_in = None;
                    false
                } else {
                    self.fail_in = Some(k - 1);
                    true
                }
            },
        }
    }

    /// Creates a cart with status `active` and `added_at = now`.  No
    /// single-active check happens here: a second `create_cart` leaves two
    /// active carts until the next `activate_cart` restores the rule.
    pub fn create_cart(&mut self, cart_name: String, now: Timestamp) -> (r: Result<
        Cart,
        CartError,
    >)
        requires
            old(self).wf(),
        ensures
            final(self).wf(),
            r is Ok <==> (!fires(old(self)@.fail_in, 1) && old(self)@.next_cart_id < i64::MAX),
            r matches Ok(c) ==> {
                &&& c.cart_id == old(self)@.next_cart_id
                &&& c.cart_name == cart_name
                &&& c.status == CartStatus::Active
                &&& c.added_at == now
                &&& final(self)@.carts == old(self)@.carts.push(c)
                &&& final(self)@.items == old(self)@.items
                &&& final(self)@.next_cart_id == old(self)@.next_cart_id + 1
                &&& final(self)@.fail_in == tick(old(self)@.fail_in)
            },
            r matches Err(e) ==> {
                &&& e == CartError::PersistenceError
                &&& final(self)@.carts == old(self)@.carts
                &&& final(self)@.items == old(self)@.items
                &&& final(self)@.next_cart_id == old(self)@.next_cart_id
                &&& final(self)@.fail_in == if fires(old(self)@.fail_in, 1) {
                    None::<u32>
                } else {
                    tick(old(self)@.fail_in)
                }
            },
    {
        if !self.stmt_gate() {
            return Err(CartError::PersistenceError);
        }
        if self.next_cart_id == i64::MAX {
            return Err(CartError::PersistenceError);
        }
        let cart = Cart {
            cart_id: self.next_cart_id,
            cart_name,
            status: CartStatus::Active,
            added_at: now,
        };
        let handed_back = cart.duplicate();
        self.carts.push(cart);
        self.next_cart_id = self.next_cart_id + 1;
        Ok(handed_back)
    }

    /// Updates the label of the cart with this identity, whatever its status;
    /// `NotFound` if no row matches.
    pub fn update_cart_name(&mut self, cart_id: i64, cart_name: String) -> (r: Result<
        (),
        CartError,
    >)
        requires
            old(self).wf(),
        ensures
            final(self).wf(),
            r is Ok <==> (!fires(old(self)@.fail_in, 1) && has_cart(old(self)@.carts, cart_id)),
            r is Ok ==> {
                &&& final(self)@.carts == with_renamed(old(self)@.carts, cart_id, cart_name)
                &&& final(self)@.items == old(self)@.items
                &&& final(self)@.next_cart_id == old(self)@.next_cart_id
                &&& final(self)@.fail_in == tick(old(self)@.fail_in)
            },
            r matches Err(e) ==> {
                &&& final(self)@.carts == old(self)@.carts
                &&& final(self)@.items == old(self)@.items
                &&& final(self)@.next_cart_id == old(self)@.next_cart_id
                &&& (e == CartError::PersistenceError <==> fires(old(self)@.fail_in, 1))
                &&& (e == CartError::NotFound <==> !fires(old(self)@.fail_in, 1) && !has_cart(
                    old(self)@.carts,
                    cart_id,
                ))
                &&& final(self)@.fail_in == if fires(old(self)@.fail_in, 1) {
                    None::<u32>
                } else {
                    tick(old(self)@.fail_in)
                }
            },
    {
        if !self.stmt_gate() {
            return Err(CartError::PersistenceError);
        }
        match cart_position(&self.carts, cart_id) {
            None => Err(CartError::NotFound),
            Some(i) => {
                proof {
                    lemma_cart_index_agrees(self@.carts, cart_id, i as int);
                    lemma_updated_rows_ok(
                        self@.carts,
                        Some(cart_id),
                        None,
                        None,
                        Some(cart_name),
                        self@.next_cart_id,
                    );
                }
                let mut rows: Vec<Cart> = Vec::new();
                core::mem::swap(&mut rows, &mut self.carts);
                let sel_name = Some(cart_name);
                self.carts = update_rows(rows, Some(cart_id), None, None, &sel_name);
                Ok(())
            },
        }
    }

    /// Parks the cart with this identity under the given label; refused with
    /// `NotActive` unless its current status is exactly `active`.
    pub fn park_cart(&mut self, cart_id: i64, cart_name: String) -> (r: Result<(), CartError>)
        requires
            old(self).wf(),
        ensures
            final(self).wf(),
            r is Ok <==> (!fires(old(self)@.fail_in, 1) && has_cart(old(self)@.carts, cart_id)
                && status_of(old(self)@.carts, cart_id) == CartStatus::Active),
            r is Ok ==> {
                &&& final(self)@.carts == with_parked(old(self)@.carts, cart_id, cart_name)
                &&& final(self)@.items == old(self)@.items
                &&& final(self)@.next_cart_id == old(self)@.next_cart_id
                &&& final(self)@.fail_in == tick(old(self)@.fail_in)
            },
            r matches Err(e) ==> {
                &&& final(self)@.carts == old(self)@.carts
                &&& final(self)@.items == old(self)@.items
                &&& final(self)@.next_cart_id == old(self)@.next_cart_id
                &&& (e == CartError::PersistenceError <==> fires(old(self)@.fail_in, 1))
                &&& (e == CartError::NotActive <==> !fires(old(self)@.fail_in, 1))
                &&& final(self)@.fail_in == if fires(old(self)@.fail_in, 1) {
                    None::<u32>
                } else {
                    tick(old(self)@.fail_in)
                }
            },
    {
        if !self.stmt_gate() {
            return Err(CartError::PersistenceError);
        }
        match cart_position(&self.carts, cart_id) {
            None => Err(CartError::NotActive),
            Some(i) => {
                proof {
                    lemma_cart_index_agrees(self@.carts, cart_id, i as int);
                }
                if !matches!(self.carts[i].status, CartStatus::Active) {
                    return Err(CartError::NotActive);
                }
                proof {
                    lemma_updated_rows_ok(
                        self@.carts,
                        Some(cart_id),
                        Some(CartStatus::Active),
                        Some(CartStatus::Parked),
                        Some(cart_name),
                        self@.next_cart_id,
                    );
                }
                let mut rows: Vec<Cart> = Vec::new();
                core::mem::swap(&mut rows, &mut self.carts);
                let sel_name = Some(cart_name);
                self.carts = update_rows(
                    rows,
                    Some(cart_id),
                    Some(CartStatus::Active),
                    Some(CartStatus::Parked),
                    &sel_name,
                );
                Ok(())
            },
        }
    }

    /// Two statements, not one transaction: first every `active` cart is
    /// demoted to `parked`, then the target is promoted from `parked` to
    /// `active`.  The unconditional demotion restores the single-active rule
    /// even when earlier creations had left several active carts behind.
    pub fn activate_cart(&mut self, cart_id: i64) -> (r: Result<(), CartError>)
        requires
            old(self).wf(),
        ensures
            final(self).wf(),
            // Once the demotion statement has gone through, at most one cart
            // is active, whatever happens afterwards.
            !fires(old(self)@.fail_in, 1) ==> at_most_one_active(final(self)@.carts),
            r is Ok <==> (!fires(old(self)@.fail_in, 2) && has_cart(old(self)@.carts, cart_id) && (
            status_of(old(self)@.carts, cart_id) == CartStatus::Active || status_of(
                old(self)@.carts,
                cart_id,
            ) == CartStatus::Parked)),
            r is Ok ==> {
                &&& final(self)@.carts == with_promoted(all_demoted(old(self)@.carts), cart_id)
                &&& final(self)@.fail_in == tick(tick(old(self)@.fail_in))
                // The target itself is the one active cart.
                &&& has_cart(final(self)@.carts, cart_id)
                &&& status_of(final(self)@.carts, cart_id) == CartStatus::Active
            },
            // On a failed activation whose demotion statement went through,
            // the demotion persists: no cart is active at all.
            r is Err && !fires(old(self)@.fail_in, 1) ==> forall|i: int|
                0 <= i < final(self)@.carts.len() ==> (#[trigger] final(self)@.carts[i]).status
                    != CartStatus::Active,
            r matches Err(e) ==> {
                &&& (e == CartError::PersistenceError <==> fires(old(self)@.fail_in, 2))
                &&& (e == CartError::NotParked <==> !fires(old(self)@.fail_in, 2) && !(has_cart(
                    old(self)@.carts,
                    cart_id,
                ) && (status_of(old(self)@.carts, cart_id) == CartStatus::Active || status_of(
                    old(self)@.carts,
                    cart_id,
                ) == CartStatus::Parked)))
                &&& fires(old(self)@.fail_in, 1) ==> final(self)@.carts == old(self)@.carts
                &&& !fires(old(self)@.fail_in, 1) ==> final(self)@.carts == all_demoted(
                    old(self)@.carts,
                )
                &&& e == CartError::NotParked ==> final(self)@.fail_in == tick(
                    tick(old(self)@.fail_in),
                )
                &&& e == CartError::PersistenceError ==> final(self)@.fail_in is None
            },
            final(self)@.items == old(self)@.items,
            final(self)@.next_cart_id == old(self)@.next_cart_id,
    {
        let ghost orig: Seq<Cart> = self@.carts;
        if !self.stmt_gate() {
            return Err(CartError::PersistenceError);
        }
        proof {
            lemma_updated_rows_ok(
                orig,
                None,
                Some(CartStatus::Active),
                Some(CartStatus::Parked),
                None,
                self@.next_cart_id,
            );
        }
        let mut rows: Vec<Cart> = Vec::new();
        core::mem::swap(&mut rows, &mut self.carts);
        self.carts = update_rows(
            rows,
            None,
            Some(CartStatus::Active),
            Some(CartStatus::Parked),
            &None,
        );
        let ghost demoted: Seq<Cart> = self@.carts;
        proof {
            assert(forall|i: int|
                0 <= i < demoted.len() ==> (#[trigger] demoted[i]).status != CartStatus::Active);
        }
        if !self.stmt_gate() {
            return Err(CartError::PersistenceError);
        }
        let pos = cart_position(&self.carts, cart_id);
        let promotable: bool = match pos {
            None => false,
            Some(i) => {
                proof {
                    lemma_cart_index_agrees(demoted, cart_id, i as int);
                    lemma_cart_index_agrees(orig, cart_id, i as int);
                }
                matches!(self.carts[i].status, CartStatus::Parked)
            },
        };
        proof {
            if has_cart(orig, cart_id) {
                let w = cart_index(orig, cart_id);
                assert(demoted[w].cart_id == cart_id);
                assert(has_cart(demoted, cart_id));
            }
        }
        if !promotable {
            return Err(CartError::NotParked);
        }
        proof {
            lemma_updated_rows_ok(
                demoted,
                Some(cart_id),
                Some(CartStatus::Parked),
                Some(CartStatus::Active),
                None,
                self@.next_cart_id,
            );
        }
        let mut rows2: Vec<Cart> = Vec::new();
        core::mem::swap(&mut rows2, &mut self.carts);
        self.carts = update_rows(
            rows2,
            Some(cart_id),
            Some(CartStatus::Parked),
            Some(CartStatus::Active),
            &None,
        );
        proof {
            let fin = self@.carts;
            assert forall|i: int, j: int|
                0 <= i < fin.len() && 0 <= j < fin.len() && (#[trigger] fin[i]).status
                    == CartStatus::Active && (#[trigger] fin[j]).status
                    == CartStatus::Active implies i == j by {
                assert(demoted[i].cart_id == fin[i].cart_id);
                assert(demoted[j].cart_id == fin[j].cart_id);
                assert(fin[i].cart_id == cart_id);
                assert(fin[j].cart_id == cart_id);
            }
            match pos {
                Some(i) => {
                    assert(fin[i as int].cart_id == cart_id);
                    assert(fin[i as int].status == CartStatus::Active);
                    lemma_cart_index_agrees(fin, cart_id, i as int);
                },
                None => {
                    assert(false);
                },
            }
        }
        Ok(())
    }

    /// Inserts a new line into the cart with this identity; refused with
    /// `CartNotActive` unless the cart's status is exactly `active`.  Lines
    /// sharing the `(cart_id, product_id, purchasing_type)` key accumulate as
    /// separate rows; the store does not deduplicate.
    pub fn add_cart_item(
        &mut self,
        cart_id: i64,
        product_id: i64,
        scanned_barcode: Option<String>,
        quantity: u32,
        price: u64,
        purchasing_type: PurchasingType,
        discount: u64,
    ) -> (r: Result<CartItem, CartError>)
        requires
            old(self).wf(),
        ensures
            final(self).wf(),
            r is Ok <==> (has_cart(old(self)@.carts, cart_id) && status_of(
                old(self)@.carts,
                cart_id,
            ) == CartStatus::Active && !fires(old(self)@.fail_in, 1)),
            r matches Ok(it) ==> {
                &&& it.cart_id == cart_id
                &&& it.product_id == product_id
                &&& it.scanned_barcode == scanned_barcode
                &&& it.quantity == quantity
                &&& it.price == price
                &&& it.purchasing_type == purchasing_type
                &&& it.discount == discount
                &&& final(self)@.items == old(self)@.items.push(it)
                &&& final(self)@.carts == old(self)@.carts
                &&& final(self)@.next_cart_id == old(self)@.next_cart_id
                &&& final(self)@.fail_in == tick(old(self)@.fail_in)
            },
            r matches Err(e) ==> {
                &&& final(self)@.carts == old(self)@.carts
                &&& final(self)@.items == old(self)@.items
                &&& final(self)@.next_cart_id == old(self)@.next_cart_id
                &&& (e == CartError::NotFound <==> !has_cart(old(self)@.carts, cart_id))
                &&& (e == CartError::CartNotActive <==> has_cart(old(self)@.carts, cart_id)
                    && status_of(old(self)@.carts, cart_id) != CartStatus::Active)
                &&& (e == CartError::PersistenceError <==> has_cart(old(self)@.carts, cart_id)
                    && status_of(old(self)@.carts, cart_id) == CartStatus::Active && fires(
                    old(self)@.fail_in,
                    1,
                ))
                &&& final(self)@.fail_in == if e == CartError::PersistenceError {
                    None::<u32>
                } else {
                    old(self)@.fail_in
                }
            },
    {
        match cart_position(&self.carts, cart_id) {
            None => Err(CartError::NotFound),
            Some(i) => {
                proof {
                    lemma_cart_index_agrees(self@.carts, cart_id, i as int);
                }
                if !matches!(self.carts[i].status, CartStatus::Active) {
                    return Err(CartError::CartNotActive);
                }
                if !self.stmt_gate() {
                    return Err(CartError::PersistenceError);
                }
                let item = CartItem {
                    cart_id,
                    product_id,
                    scanned_barcode,
                    quantity,
                    price,
                    purchasing_type,
                    discount,
                };
                let handed_back = item.duplicate();
                self.items.push(item);
                Ok(handed_back)
            },
        }
    }

    /// Deletes every line with this `(cart_id, product_id, purchasing_type)`
    /// key; deleting nothing is not an error.
    pub fn remove_cart_item(
        &mut self,
        cart_id: i64,
        product_id: i64,
        purchasing_type: PurchasingType,
    ) -> (r: Result<(), CartError>)
        requires
            old(self).wf(),
        ensures
            final(self).wf(),
            r is Ok <==> !fires(old(self)@.fail_in, 1),
            r is Ok ==> {
                &&& final(self)@.items == items_deleted(
                    old(self)@.items,
                    ItemSel::ByKey(cart_id, product_id, purchasing_type),
                )
                &&& final(self)@.carts == old(self)@.carts
                &&& final(self)@.next_cart_id == old(self)@.next_cart_id
                &&& final(self)@.fail_in == tick(old(self)@.fail_in)
            },
            r matches Err(e) ==> {
                &&& e == CartError::PersistenceError
                &&& final(self)@.carts == old(self)@.carts
                &&& final(self)@.items == old(self)@.items
                &&& final(self)@.next_cart_id == old(self)@.next_cart_id
                &&& final(self)@.fail_in is None
            },
    {
        if !self.stmt_gate() {
            return Err(CartError::PersistenceError);
        }
        let mut rows: Vec<CartItem> = Vec::new();
        core::mem::swap(&mut rows, &mut self.items);
        self.items = delete_items_by_key(rows, cart_id, product_id, purchasing_type);
        Ok(())
    }

    /// Sets the quantity of every line with this key; quantity `0` deletes
    /// the lines instead, in the same statement.
    pub fn update_cart_item_quantity(
        &mut self,
        cart_id: i64,
        product_id: i64,
        purchasing_type: PurchasingType,
        quantity: u32,
    ) -> (r: Result<(), CartError>)
        requires
            old(self).wf(),
        ensures
            final(self).wf(),
            r is Ok <==> !fires(old(self)@.fail_in, 1),
            r is Ok && quantity == 0 ==> final(self)@.items == items_deleted(
                old(self)@.items,
                ItemSel::ByKey(cart_id, product_id, purchasing_type),
            ),
            r is Ok && quantity > 0 ==> final(self)@.items == items_requantified(
                old(self)@.items,
                cart_id,
                product_id,
                purchasing_type,
                quantity,
            ),
            // Quantity zero leaves no line with the key behind.
            r is Ok && quantity == 0 ==> forall|j: int|
                0 <= j < final(self)@.items.len() ==> !item_selected(
                    #[trigger] final(self)@.items[j],
                    ItemSel::ByKey(cart_id, product_id, purchasing_type),
                ),
            r is Ok ==> {
                &&& final(self)@.carts == old(self)@.carts
                &&& final(self)@.next_cart_id == old(self)@.next_cart_id
                &&& final(self)@.fail_in == tick(old(self)@.fail_in)
            },
            r matches Err(e) ==> {
                &&& e == CartError::PersistenceError
                &&& final(self)@.carts == old(self)@.carts
                &&& final(self)@.items == old(self)@.items
                &&& final(self)@.next_cart_id == old(self)@.next_cart_id
                &&& final(self)@.fail_in is None
            },
    {
        if !self.stmt_gate() {
            return Err(CartError::PersistenceError);
        }
        let mut rows: Vec<CartItem> = Vec::new();
        core::mem::swap(&mut rows, &mut self.items);
        if quantity == 0 {
            self.items = delete_items_by_key(rows, cart_id, product_id, purchasing_type);
            proof {
                lemma_items_deleted_pred(
                    old(self)@.items,
                    ItemSel::ByKey(cart_id, product_id, purchasing_type),
                );
            }
        } else {
            self.items = requantify_items(rows, cart_id, product_id, purchasing_type, quantity);
        }
        Ok(())
    }

    /// Marks the cart `processed`, then — in one transaction — deletes its
    /// lines and the cart row itself.  The two deletions are atomic: if the
    /// transaction fails, both the lines and the (now `processed`) cart row
    /// remain; on success neither does.
    pub fn confirm_payment(&mut self, cart_id: i64) -> (r: Result<(), CartError>)
        requires
            old(self).wf(),
        ensures
            final(self).wf(),
            r is Ok <==> !fires(old(self)@.fail_in, 3),
            r is Ok ==> {
                &&& final(self)@.carts == carts_deleted(
                    updated_rows(
                        old(self)@.carts,
                        Some(cart_id),
                        None,
                        Some(CartStatus::Processed),
                        None,
                    ),
                    CartSel::ById(cart_id),
                )
                &&& final(self)@.items == items_deleted(old(self)@.items, ItemSel::ByCart(cart_id))
                &&& final(self)@.next_cart_id == old(self)@.next_cart_id
                &&& final(self)@.fail_in == tick(tick(tick(old(self)@.fail_in)))
            },
            r matches Err(e) ==> {
                &&& e == CartError::PersistenceError
                &&& final(self)@.items == old(self)@.items
                &&& fires(old(self)@.fail_in, 1) ==> final(self)@.carts == old(self)@.carts
                &&& !fires(old(self)@.fail_in, 1) ==> final(self)@.carts == updated_rows(
                    old(self)@.carts,
                    Some(cart_id),
                    None,
                    Some(CartStatus::Processed),
                    None,
                )
                &&& final(self)@.next_cart_id == old(self)@.next_cart_id
                &&& final(self)@.fail_in is None
            },
    {
        let ghost orig: Seq<Cart> = self@.carts;
        if !self.stmt_gate() {
            return Err(CartError::PersistenceError);
        }
        proof {
            lemma_updated_rows_ok(
                orig,
                Some(cart_id),
                None,
                Some(CartStatus::Processed),
                None,
                self@.next_cart_id,
            );
        }
        let mut rows: Vec<Cart> = Vec::new();
        core::mem::swap(&mut rows, &mut self.carts);
        self.carts = update_rows(rows, Some(cart_id), None, Some(CartStatus::Processed), &None);
        // Transaction: delete the lines, then the cart row; commit only if
        // both statements went through.
        let ok_items = self.stmt_gate();
        let ok_cart = if ok_items {
            self.stmt_gate()
        } else {
            false
        };
        if !ok_cart {
            return Err(CartError::PersistenceError);
        }
        let mut irows: Vec<CartItem> = Vec::new();
        core::mem::swap(&mut irows, &mut self.items);
        self.items = delete_items_by_cart(irows, cart_id);
        let mut crows: Vec<Cart> = Vec::new();
        core::mem::swap(&mut crows, &mut self.carts);
        let ghost next: int = self@.next_cart_id;
        self.carts = delete_cart_rows(crows, CartSel::ById(cart_id), Ghost(next));
        Ok(())
    }

    /// Deletes the cart's lines and the cart row itself in one transaction,
    /// from any status.  Atomic: on failure neither deletion is observable.
    pub fn cancel_cart(&mut self, cart_id: i64) -> (r: Result<(), CartError>)
        requires
            old(self).wf(),
        ensures
            final(self).wf(),
            r is Ok <==> !fires(old(self)@.fail_in, 2),
            r is Ok ==> {
                &&& final(self)@.carts == carts_deleted(old(self)@.carts, CartSel::ById(cart_id))
                &&& final(self)@.items == items_deleted(old(self)@.items, ItemSel::ByCart(cart_id))
                &&& final(self)@.next_cart_id == old(self)@.next_cart_id
                &&& final(self)@.fail_in == tick(tick(old(self)@.fail_in))
            },
            r matches Err(e) ==> {
                &&& e == CartError::PersistenceError
                &&& final(self)@.carts == old(self)@.carts
                &&& final(self)@.items == old(self)@.items
                &&& final(self)@.next_cart_id == old(self)@.next_cart_id
                &&& final(self)@.fail_in is None
            },
    {
        let ok_items = self.stmt_gate();
        let ok_cart = if ok_items {
            self.stmt_gate()
        } else {
            false
        };
        if !ok_cart {
            return Err(CartError::PersistenceError);
        }
        let mut irows: Vec<CartItem> = Vec::new();
        core::mem::swap(&mut irows, &mut self.items);
        self.items = delete_items_by_cart(irows, cart_id);
        let mut crows: Vec<Cart> = Vec::new();
        core::mem::swap(&mut crows, &mut self.carts);
        let ghost next: int = self@.next_cart_id;
        self.carts = delete_cart_rows(crows, CartSel::ById(cart_id), Ghost(next));
        Ok(())
    }

    /// One transaction that deletes every `active` cart created strictly
    /// before `cutoff`, together with its lines.  Only active carts expire:
    /// a parked or pending cart survives whatever its age.
    pub fn cleanup_expired_before(&mut self, cutoff: &Timestamp) -> (r: Result<(), CartError>)
        requires
            old(self).wf(),
        ensures
            final(self).wf(),
            r is Ok <==> !fires(old(self)@.fail_in, 2),
            r is Ok ==> {
                &&& final(self)@.carts == carts_deleted(old(self)@.carts, CartSel::Expired(*cutoff))
                &&& final(self)@.items == items_deleted(
                    old(self)@.items,
                    ItemSel::OfExpired(old(self)@.carts, *cutoff),
                )
                &&& final(self)@.next_cart_id == old(self)@.next_cart_id
                &&& final(self)@.fail_in == tick(tick(old(self)@.fail_in))
            },
            // A cart that is not active — parked, pending, whatever its age —
            // is never swept.
            r is Ok ==> forall|p: int|
                0 <= p < old(self)@.carts.len() && (#[trigger] old(self)@.carts[p]).status
                    != CartStatus::Active ==> final(self)@.carts.contains(old(self)@.carts[p]),
            r matches Err(e) ==> {
                &&& e == CartError::PersistenceError
                &&& final(self)@.carts == old(self)@.carts
                &&& final(self)@.items == old(self)@.items
                &&& final(self)@.next_cart_id == old(self)@.next_cart_id
                &&& final(self)@.fail_in is None
            },
    {
        let ok_items = self.stmt_gate();
        let ok_carts = if ok_items {
            self.stmt_gate()
        } else {
            false
        };
        if !ok_carts {
            return Err(CartError::PersistenceError);
        }
        proof {
            lemma_carts_deleted_keeps(self@.carts, CartSel::Expired(*cutoff));
        }
        let mut irows: Vec<CartItem> = Vec::new();
        core::mem::swap(&mut irows, &mut self.items);
        self.items = delete_items_of_expired(irows, &self.carts, cutoff);
        let mut crows: Vec<Cart> = Vec::new();
        core::mem::swap(&mut crows, &mut self.carts);
        let ghost next: int = self@.next_cart_id;
        self.carts = delete_cart_rows(crows, CartSel::Expired(*cutoff), Ghost(next));
        Ok(())
    }

    /// Sweeps the `active` carts older than `ttl_minutes` before `now`,
    /// lines included, in one transaction.  The cutoff instant itself comes
    /// from calendar arithmetic; when that cannot represent the cutoff the
    /// sweep fails without touching anything.
    pub fn cleanup_expired_carts(&mut self, ttl_minutes: u32, now: Timestamp) -> (r: Result<
        (),
        CartError,
    >)
        requires
            old(self).wf(),
        ensures
            final(self).wf(),
            r is Ok <==> (minutes_before_spec(now, ttl_minutes as int) is Some && !fires(
                old(self)@.fail_in,
                2,
            )),
            minutes_before_spec(now, ttl_minutes as int) matches Some(cutoff) ==> {
                &&& r is Ok ==> {
                    &&& final(self)@.carts == carts_deleted(
                        old(self)@.carts,
                        CartSel::Expired(cutoff),
                    )
                    &&& final(self)@.items == items_deleted(
                        old(self)@.items,
                        ItemSel::OfExpired(old(self)@.carts, cutoff),
                    )
                    &&& final(self)@.next_cart_id == old(self)@.next_cart_id
                    &&& final(self)@.fail_in == tick(tick(old(self)@.fail_in))
                }
                &&& r is Ok ==> forall|p: int|
                    0 <= p < old(self)@.carts.len() && (#[trigger] old(self)@.carts[p]).status
                        != CartStatus::Active ==> final(self)@.carts.contains(old(self)@.carts[p])
                &&& r is Err ==> {
                    &&& final(self)@.carts == old(self)@.carts
                    &&& final(self)@.items == old(self)@.items
                    &&& final(self)@.next_cart_id == old(self)@.next_cart_id
                    &&& final(self)@.fail_in is None
                }
            },
            minutes_before_spec(now, ttl_minutes as int) is None ==> final(self)@ == old(self)@,
            r matches Err(e) ==> e == CartError::PersistenceError,
    {
        match minutes_before(&now, ttl_minutes) {
            None => Err(CartError::PersistenceError),
            Some(cutoff) => self.cleanup_expired_before(&cutoff),
        }
    }

    /// Sets the cart's status to `pending checkout` (no status precondition,
    /// and a missing cart is not an error), then forms the invoice identifier
    /// `{store_id}_{storeman_id}_{YYYYMMDD}_{seq:03}` where `seq` is one more
    /// than the number of carts already pending checkout among those created
    /// the same day.  The count reads the rows as they were before this
    /// status update; update and count are two separate steps, not one
    /// transaction.
    pub fn checkout_cart(
        &mut self,
        cart_id: i64,
        store_id: String,
        storeman_id: String,
        now: Timestamp,
    ) -> (r: Result<String, CartError>)
        requires
            old(self).wf(),
        ensures
            final(self).wf(),
            r is Ok <==> (!fires(old(self)@.fail_in, 1) && pending_today(old(self)@.carts, now).len()
                < u64::MAX),
            r matches Ok(inv) ==> {
                &&& final(self)@.carts == updated_rows(
                    old(self)@.carts,
                    Some(cart_id),
                    None,
                    Some(CartStatus::PendingCheckout),
                    None,
                )
                &&& final(self)@.items == old(self)@.items
                &&& final(self)@.next_cart_id == old(self)@.next_cart_id
                &&& final(self)@.fail_in == tick(old(self)@.fail_in)
                &&& inv@ == invoice_seq(
                    store_id@,
                    storeman_id@,
                    now,
                    (pending_today(old(self)@.carts, now).len() + 1) as nat,
                )
            },
            r matches Err(e) ==> {
                &&& e == CartError::PersistenceError
                &&& final(self)@.carts == old(self)@.carts
                &&& final(self)@.items == old(self)@.items
                &&& final(self)@.next_cart_id == old(self)@.next_cart_id
                &&& final(self)@.fail_in == if pending_today(old(self)@.carts, now).len()
                    < u64::MAX {
                    None::<u32>
                } else {
                    old(self)@.fail_in
                }
            },
    {
        let n = count_pending_today(&self.carts, &now);
        if n == u64::MAX {
            return Err(CartError::PersistenceError);
        }
        if !self.stmt_gate() {
            return Err(CartError::PersistenceError);
        }
        proof {
            lemma_updated_rows_ok(
                old(self)@.carts,
                Some(cart_id),
                None,
                Some(CartStatus::PendingCheckout),
                None,
                self@.next_cart_id,
            );
        }
        let mut rows: Vec<Cart> = Vec::new();
        core::mem::swap(&mut rows, &mut self.carts);
        self.carts = update_rows(rows, Some(cart_id), None, Some(CartStatus::PendingCheckout), &None);
        let mut inv = String::new();
        proof {
            reveal_strlit("_");
        }
        inv.append(store_id.as_str());
        inv.append("_");
        inv.append(storeman_id.as_str());
        inv.append("_");
        now.append_date_code(&mut inv);
        inv.append("_");
        append_padded(&mut inv, n + 1, 3);
        proof {
            assert(inv@ =~= invoice_seq(
                store_id@,
                storeman_id@,
                now,
                (pending_today(old(self)@.carts, now).len() + 1) as nat,
            ));
        }
        Ok(inv)
    }

    /// Every cart row, in row order: the store as a persistence layer would
    /// dump it.
    pub fn carts_snapshot(&self) -> (r: Vec<Cart>)
        ensures
            r@ == self@.carts,
    {
        let ghost all: Seq<Cart> = self@.carts;
        let mut out: Vec<Cart> = Vec::new();
        let mut i: usize = 0;
        while i < self.carts.len()
            invariant
                i <= all.len(),
                all == self@.carts,
                out@ == all.take(i as int),
            decreases all.len() - i,
        {
            out.push(self.carts[i].duplicate());
            proof {
                assert(out@ =~= all.take(i as int + 1));
            }
            i = i + 1;
        }
        proof {
            assert(all.take(all.len() as int) =~= all);
        }
        out
    }

    /// Every item row, in row order.
    pub fn items_snapshot(&self) -> (r: Vec<CartItem>)
        ensures
            r@ == self@.items,
    {
        let ghost all: Seq<CartItem> = self@.items;
        let mut out: Vec<CartItem> = Vec::new();
        let mut i: usize = 0;
        while i < self.items.len()
            invariant
                i <= all.len(),
                all == self@.items,
                out@ == all.take(i as int),
            decreases all.len() - i,
        {
            out.push(self.items[i].duplicate());
            proof {
                assert(out@ =~= all.take(i as int + 1));
            }
            i = i + 1;
        }
        proof {
            assert(all.take(all.len() as int) =~= all);
        }
        out
    }

    /// Rebuilds a store from persisted rows, checking what well-formedness
    /// demands: cart identities unique, every identity below `next_cart_id`,
    /// and `next_cart_id` itself usable.  `None` if the rows are unusable.
    pub fn restore(carts: Vec<Cart>, items: Vec<CartItem>, next_cart_id: i64) -> (r: Option<
        CartStore,
    >)
        ensures
            r matches Some(s) ==> {
                &&& s.wf()
                &&& s@.carts == carts@
                &&& s@.items == items@
                &&& s@.next_cart_id == next_cart_id as int
                &&& s@.fail_in is None
            },
            r is None <==> !(carts_ok(carts@, next_cart_id as int) && 1 <= next_cart_id),
    {
        if next_cart_id < 1 {
            return None;
        }
        let mut i: usize = 0;
        while i < carts.len()
            invariant
                i <= carts@.len(),
                forall|a: int, b: int|
                    0 <= a < b < i ==> (#[trigger] carts@[a]).cart_id != (
                    #[trigger] carts@[b]).cart_id,
                forall|a: int| 0 <= a < i ==> (#[trigger] carts@[a]).cart_id < next_cart_id,
            decreases carts@.len() - i,
        {
            if carts[i].cart_id >= next_cart_id {
                return None;
            }
            let mut j: usize = 0;
            while j < i
                invariant
                    j <= i < carts@.len(),
                    forall|a: int| 0 <= a < j ==> (#[trigger] carts@[a]).cart_id != carts@[
                        i as int].cart_id,
                decreases i - j,
            {
                if carts[j].cart_id == carts[i].cart_id {
                    return None;
                }
                j = j + 1;
            }
            i = i + 1;
        }
        Some(CartStore { carts, items, next_cart_id, fail_in: None })
    }

    /// The first cart with status `active`, if any.
    pub fn list_active_cart(&self) -> (r: Option<Cart>)
        ensures
            r == first_active(self@.carts),
    {
        let ghost all: Seq<Cart> = self@.carts;
        let mut i: usize = 0;
        proof {
            assert(all.skip(0) =~= all);
        }
        while i < self.carts.len()
            invariant
                i <= all.len(),
                all == self@.carts,
                first_active(all) == first_active(all.skip(i as int)),
            decreases all.len() - i,
        {
            if matches!(self.carts[i].status, CartStatus::Active) {
                return Some(self.carts[i].duplicate());
            }
            proof {
                assert(all.skip(i as int).skip(1) =~= all.skip(i as int + 1));
            }
            i = i + 1;
        }
        None
    }

    /// Every parked cart, in row order.
    pub fn list_parked_carts(&self) -> (r: Vec<Cart>)
        ensures
            r@ == parked_carts(self@.carts),
    {
        let ghost all: Seq<Cart> = self@.carts;
        let mut out: Vec<Cart> = Vec::new();
        let mut i: usize = 0;
        proof {
            assert(all.take(0) =~= Seq::<Cart>::empty());
            reveal(Seq::filter);
        }
        while i < self.carts.len()
            invariant
                i <= all.len(),
                all == self@.carts,
                out@ == parked_carts(all.take(i as int)),
            decreases all.len() - i,
        {
            proof {
                lemma_parked_carts_step(all, i as int);
            }
            if matches!(self.carts[i].status, CartStatus::Parked) {
                out.push(self.carts[i].duplicate());
            }
            i = i + 1;
        }
        proof {
            assert(all.take(all.len() as int) =~= all);
        }
        out
    }

    /// Every line of the cart with this identity, in row order.
    pub fn list_cart_items(&self, cart_id: i64) -> (r: Vec<CartItem>)
        ensures
            r@ == items_matching(self@.items, ItemSel::ByCart(cart_id)),
    {
        let ghost all: Seq<CartItem> = self@.items;
        let ghost sel = ItemSel::ByCart(cart_id);
        let mut out: Vec<CartItem> = Vec::new();
        let mut i: usize = 0;
        proof {
            assert(all.take(0) =~= Seq::<CartItem>::empty());
            reveal(Seq::filter);
        }
        while i < self.items.len()
            invariant
                i <= all.len(),
                all == self@.items,
                sel == ItemSel::ByCart(cart_id),
                out@ == items_matching(all.take(i as int), sel),
            decreases all.len() - i,
        {
            proof {
                lemma_items_matching_step(all, sel, i as int);
            }
            if self.items[i].cart_id == cart_id {
                out.push(self.items[i].duplicate());
            }
            i = i + 1;
        }
        proof {
            assert(all.take(all.len() as int) =~= all);
        }
        out
    }
}

/// Whether a row matches the selection: by identity, by status, or both.
pub open spec fn row_selected(c: Cart, sel_id: Option<i64>, sel_status: Option<CartStatus>) -> bool {
    &&& match sel_id {
        Some(id) => c.cart_id == id,
        None => true,
    }
    &&& match sel_status {
        Some(s) => c.status == s,
        None => true,
    }
}

/// A selected row with the requested fields overwritten; identity and
/// creation time are never touched.
pub open spec fn row_updated(c: Cart, set_status: Option<CartStatus>, set_name: Option<String>) -> Cart {
    Cart {
        cart_id: c.cart_id,
        cart_name: match set_name {
            Some(n) => n,
            None => c.cart_name,
        },
        status: match set_status {
            Some(s) => s,
            None => c.status,
        },
        added_at: c.added_at,
    }
}

/// One row after an update statement: overwritten if selected, untouched
/// otherwise.
pub open spec fn row_mapped(
    c: Cart,
    sel_id: Option<i64>,
    sel_status: Option<CartStatus>,
    set_status: Option<CartStatus>,
    set_name: Option<String>,
) -> Cart {
    if row_selected(c, sel_id, sel_status) {
        row_updated(c, set_status, set_name)
    } else {
        c
    }
}

/// The cart rows after `UPDATE carts SET <set...> WHERE <sel...>`.
pub open spec fn updated_rows(
    carts: Seq<Cart>,
    sel_id: Option<i64>,
    sel_status: Option<CartStatus>,
    set_status: Option<CartStatus>,
    set_name: Option<String>,
) -> Seq<Cart> {
    carts.map_values(|c: Cart| row_mapped(c, sel_id, sel_status, set_status, set_name))
}

/// `rename`: the one row with this identity gets the new label.
pub open spec fn with_renamed(carts: Seq<Cart>, id: i64, name: String) -> Seq<Cart> {
    updated_rows(carts, Some(id), None, None, Some(name))
}

/// `park`: the row with this identity, if `active`, becomes `parked` under
/// the new label.
pub open spec fn with_parked(carts: Seq<Cart>, id: i64, name: String) -> Seq<Cart> {
    updated_rows(carts, Some(id), Some(CartStatus::Active), Some(CartStatus::Parked), Some(name))
}

/// The demotion step of `activate`: every `active` row becomes `parked`.
pub open spec fn all_demoted(carts: Seq<Cart>) -> Seq<Cart> {
    updated_rows(carts, None, Some(CartStatus::Active), Some(CartStatus::Parked), None)
}

/// The promotion step of `activate`: the row with this identity, if
/// `parked`, becomes `active`.
pub open spec fn with_promoted(carts: Seq<Cart>, id: i64) -> Seq<Cart> {
    updated_rows(carts, Some(id), Some(CartStatus::Parked), Some(CartStatus::Active), None)
}

/// An update statement changes no identity, so uniqueness and the identity
/// bound survive it.
proof fn lemma_updated_rows_ok(
    carts: Seq<Cart>,
    sel_id: Option<i64>,
    sel_status: Option<CartStatus>,
    set_status: Option<CartStatus>,
    set_name: Option<String>,
    next: int,
)
    requires
        carts_ok(carts, next),
    ensures
        carts_ok(updated_rows(carts, sel_id, sel_status, set_status, set_name), next),
        updated_rows(carts, sel_id, sel_status, set_status, set_name).len() == carts.len(),
        forall|i: int|
            0 <= i < carts.len() ==> (#[trigger] updated_rows(
                carts,
                sel_id,
                sel_status,
                set_status,
                set_name,
            )[i]).cart_id == carts[i].cart_id,
{
    let out = updated_rows(carts, sel_id, sel_status, set_status, set_name);
    assert(forall|i: int| 0 <= i < carts.len() ==> (#[trigger] out[i]).cart_id == carts[i].cart_id);
}

/// With unique identities, any position holding `id` is the chosen one:
/// pins down `cart_index` and `status_of` for callers that know where a cart
/// sits.
pub proof fn lemma_cart_index_agrees(carts: Seq<Cart>, id: i64, i: int)
    requires
        ids_unique(carts),
        0 <= i < carts.len(),
        carts[i].cart_id == id,
    ensures
        has_cart(carts, id),
        cart_index(carts, id) == i,
{
    assert(has_cart(carts, id));
    let ci = cart_index(carts, id);
    if ci < i {
        assert(carts[ci].cart_id != carts[i].cart_id);
    } else if ci > i {
        assert(carts[i].cart_id != carts[ci].cart_id);
    }
}

/// Executes `UPDATE carts SET <set...> WHERE <sel...>` on owned rows.
fn update_rows(
    v: Vec<Cart>,
    sel_id: Option<i64>,
    sel_status: Option<CartStatus>,
    set_status: Option<CartStatus>,
    set_name: &Option<String>,
) -> (r: Vec<Cart>)
    ensures
        r@ == updated_rows(v@, sel_id, sel_status, set_status, *set_name),
{
    let ghost all: Seq<Cart> = v@;
    let mut rest: Vec<Cart> = v;
    let mut done: Vec<Cart> = Vec::new();
    proof {
        assert(rest@ =~= all.skip(0));
        assert(done@ =~= updated_rows(all.take(0), sel_id, sel_status, set_status, *set_name));
    }
    while rest.len() > 0
        invariant
            done@.len() + rest@.len() == all.len(),
            rest@ == all.skip(done@.len() as int),
            done@ == updated_rows(
                all.take(done@.len() as int),
                sel_id,
                sel_status,
                set_status,
                *set_name,
            ),
        decreases rest@.len(),
    {
        let ghost k = done@.len() as int;
        let c = rest.remove(0);
        proof {
            assert(c == all[k]);
            assert(rest@ =~= all.skip(k + 1));
        }
        let selected = (match sel_id {
            Some(id) => c.cart_id == id,
            None => true,
        }) && (match sel_status {
            Some(s) => c.status == s,
            None => true,
        });
        let d = if selected {
            Cart {
                cart_id: c.cart_id,
                cart_name: match set_name {
                    Some(n) => n.clone(),
                    None => c.cart_name,
                },
                status: match set_status {
                    Some(s) => s,
                    None => c.status,
                },
                added_at: c.added_at,
            }
        } else {
            c
        };
        proof {
            assert(d == row_mapped(all[k], sel_id, sel_status, set_status, *set_name));
        }
        done.push(d);
        proof {
            assert(done@ =~= updated_rows(
                all.take(k + 1),
                sel_id,
                sel_status,
                set_status,
                *set_name,
            ));
        }
    }
    proof {
        assert(all.take(all.len() as int) =~= all);
    }
    done
}

/// Selection of item rows, as a DELETE or SELECT statement would phrase it.
pub ghost enum ItemSel {
    /// `WHERE cart_id = .. AND product_id = .. AND purchasing_type = ..`
    ByKey(i64, i64, PurchasingType),
    /// `WHERE cart_id = ..`
    ByCart(i64),
    /// `WHERE cart_id IN (SELECT cart_id FROM carts WHERE expired)`, against
    /// the given cart rows and cutoff.
    OfExpired(Seq<Cart>, Timestamp),
}

/// Whether an item row matches the selection.
pub open spec fn item_selected(it: CartItem, sel: ItemSel) -> bool {
    match sel {
        ItemSel::ByKey(cid, pid, pt) => it.cart_id == cid && it.product_id == pid
            && it.purchasing_type == pt,
        ItemSel::ByCart(cid) => it.cart_id == cid,
        ItemSel::OfExpired(carts, cutoff) => has_expired_cart(carts, it.cart_id, cutoff),
    }
}

/// A cart row that the expiry sweep removes: `active` and created strictly
/// before the cutoff.
pub open spec fn is_expired(c: Cart, cutoff: Timestamp) -> bool {
    c.status == CartStatus::Active && c.added_at.is_before(cutoff)
}

/// Some cart row with this identity is expired.
pub open spec fn has_expired_cart(carts: Seq<Cart>, id: i64, cutoff: Timestamp) -> bool {
    exists|i: int|
        0 <= i < carts.len() && (#[trigger] carts[i]).cart_id == id && is_expired(carts[i], cutoff)
}

/// The item rows after `DELETE FROM cart_items WHERE <sel>`.
pub open spec fn items_deleted(items: Seq<CartItem>, sel: ItemSel) -> Seq<CartItem> {
    items.filter(|it: CartItem| !item_selected(it, sel))
}

/// The item rows matching `SELECT * FROM cart_items WHERE <sel>`.
pub open spec fn items_matching(items: Seq<CartItem>, sel: ItemSel) -> Seq<CartItem> {
    items.filter(|it: CartItem| item_selected(it, sel))
}

/// The item rows after `UPDATE cart_items SET quantity = q WHERE <key>`.
pub open spec fn items_requantified(
    items: Seq<CartItem>,
    cid: i64,
    pid: i64,
    pt: PurchasingType,
    q: u32,
) -> Seq<CartItem> {
    items.map_values(
        |it: CartItem|
            if item_selected(it, ItemSel::ByKey(cid, pid, pt)) {
                CartItem { quantity: q, ..it }
            } else {
                it
            },
    )
}

proof fn lemma_items_deleted_step(items: Seq<CartItem>, sel: ItemSel, k: int)
    requires
        0 <= k < items.len(),
    ensures
        items_deleted(items.take(k + 1), sel) == if !item_selected(items[k], sel) {
            items_deleted(items.take(k), sel).push(items[k])
        } else {
            items_deleted(items.take(k), sel)
        },
{
    reveal(Seq::filter);
    assert(items.take(k + 1).drop_last() =~= items.take(k));
    assert(items.take(k + 1).last() == items[k]);
}

proof fn lemma_items_matching_step(items: Seq<CartItem>, sel: ItemSel, k: int)
    requires
        0 <= k < items.len(),
    ensures
        items_matching(items.take(k + 1), sel) == if item_selected(items[k], sel) {
            items_matching(items.take(k), sel).push(items[k])
        } else {
            items_matching(items.take(k), sel)
        },
{
    reveal(Seq::filter);
    assert(items.take(k + 1).drop_last() =~= items.take(k));
    assert(items.take(k + 1).last() == items[k]);
}

/// Every row that survives a DELETE fails its selection.
proof fn lemma_items_deleted_pred(items: Seq<CartItem>, sel: ItemSel)
    ensures
        forall|j: int|
            0 <= j < items_deleted(items, sel).len() ==> !item_selected(
                #[trigger] items_deleted(items, sel)[j],
                sel,
            ),
    decreases items.len(),
{
    reveal(Seq::filter);
    if items.len() > 0 {
        lemma_items_deleted_pred(items.drop_last(), sel);
    }
}

/// Executes `DELETE FROM cart_items WHERE cart_id = .. AND product_id = ..
/// AND purchasing_type = ..` on owned rows.
fn delete_items_by_key(v: Vec<CartItem>, cid: i64, pid: i64, pt: PurchasingType) -> (r: Vec<
    CartItem,
>)
    ensures
        r@ == items_deleted(v@, ItemSel::ByKey(cid, pid, pt)),
{
    let ghost all: Seq<CartItem> = v@;
    let ghost sel = ItemSel::ByKey(cid, pid, pt);
    let mut rest: Vec<CartItem> = v;
    let mut done: Vec<CartItem> = Vec::new();
    let ghost mut k: int = 0;
    proof {
        assert(rest@ =~= all.skip(0));
        assert(all.take(0) =~= Seq::<CartItem>::empty());
        reveal(Seq::filter);
    }
    while rest.len() > 0
        invariant
            0 <= k <= all.len(),
            rest@.len() == all.len() - k,
            rest@ == all.skip(k),
            done@ == items_deleted(all.take(k), sel),
            sel == ItemSel::ByKey(cid, pid, pt),
        decreases rest@.len(),
    {
        let c = rest.remove(0);
        proof {
            assert(c == all[k]);
            assert(rest@ =~= all.skip(k + 1));
            lemma_items_deleted_step(all, sel, k);
        }
        let keep = !(c.cart_id == cid && c.product_id == pid && c.purchasing_type == pt);
        if keep {
            done.push(c);
        }
        proof {
            k = k + 1;
        }
    }
    proof {
        assert(all.take(all.len() as int) =~= all);
    }
    done
}

/// Executes `UPDATE cart_items SET quantity = .. WHERE <key>` on owned rows.
fn requantify_items(v: Vec<CartItem>, cid: i64, pid: i64, pt: PurchasingType, q: u32) -> (r: Vec<
    CartItem,
>)
    ensures
        r@ == items_requantified(v@, cid, pid, pt, q),
{
    let ghost all: Seq<CartItem> = v@;
    let mut rest: Vec<CartItem> = v;
    let mut done: Vec<CartItem> = Vec::new();
    proof {
        assert(rest@ =~= all.skip(0));
        assert(done@ =~= items_requantified(all.take(0), cid, pid, pt, q));
    }
    while rest.len() > 0
        invariant
            done@.len() + rest@.len() == all.len(),
            rest@ == all.skip(done@.len() as int),
            done@ == items_requantified(all.take(done@.len() as int), cid, pid, pt, q),
        decreases rest@.len(),
    {
        let ghost k = done@.len() as int;
        let c = rest.remove(0);
        proof {
            assert(c == all[k]);
            assert(rest@ =~= all.skip(k + 1));
        }
        let d = if c.cart_id == cid && c.product_id == pid && c.purchasing_type == pt {
            CartItem { quantity: q, ..c }
        } else {
            c
        };
        done.push(d);
        proof {
            assert(done@ =~= items_requantified(all.take(k + 1), cid, pid, pt, q));
        }
    }
    proof {
        assert(all.take(all.len() as int) =~= all);
    }
    done
}

/// Selection of cart rows for deletion, as the DELETE statements phrase it.
#[derive(Clone, Copy, PartialEq, Eq, Structural, Debug)]
pub enum CartSel {
    /// `WHERE cart_id = ..`
    ById(i64),
    /// `WHERE status = 'active' AND added_at < cutoff`
    Expired(Timestamp),
}

/// Whether a cart row matches the selection.
pub open spec fn cart_selected(c: Cart, sel: CartSel) -> bool {
    match sel {
        CartSel::ById(id) => c.cart_id == id,
        CartSel::Expired(cutoff) => is_expired(c, cutoff),
    }
}

/// The cart rows after `DELETE FROM carts WHERE <sel>`.
pub open spec fn carts_deleted(carts: Seq<Cart>, sel: CartSel) -> Seq<Cart> {
    carts.filter(|c: Cart| !cart_selected(c, sel))
}

proof fn lemma_carts_deleted_step(carts: Seq<Cart>, sel: CartSel, k: int)
    requires
        0 <= k < carts.len(),
    ensures
        carts_deleted(carts.take(k + 1), sel) == if !cart_selected(carts[k], sel) {
            carts_deleted(carts.take(k), sel).push(carts[k])
        } else {
            carts_deleted(carts.take(k), sel)
        },
{
    reveal(Seq::filter);
    assert(carts.take(k + 1).drop_last() =~= carts.take(k));
    assert(carts.take(k + 1).last() == carts[k]);
}

/// A row that the DELETE does not select survives it.
proof fn lemma_carts_deleted_keeps(carts: Seq<Cart>, sel: CartSel)
    ensures
        forall|p: int|
            0 <= p < carts.len() && !cart_selected(#[trigger] carts[p], sel) ==> carts_deleted(
                carts,
                sel,
            ).contains(carts[p]),
    decreases carts.len(),
{
    reveal(Seq::filter);
    if carts.len() > 0 {
        lemma_carts_deleted_keeps(carts.drop_last(), sel);
        assert forall|p: int|
            0 <= p < carts.len() && !cart_selected(#[trigger] carts[p], sel) implies carts_deleted(
            carts,
            sel,
        ).contains(carts[p]) by {
            if p < carts.len() - 1 {
                assert(carts.drop_last()[p] == carts[p]);
                let q = choose|q: int|
                    0 <= q < carts_deleted(carts.drop_last(), sel).len() && carts_deleted(
                        carts.drop_last(),
                        sel,
                    )[q] == carts[p];
                if !cart_selected(carts.last(), sel) {
                    assert(carts_deleted(carts, sel)[q] == carts[p]);
                } else {
                    assert(carts_deleted(carts, sel)[q] == carts[p]);
                }
            } else {
                assert(carts_deleted(carts, sel).last() == carts[p]);
            }
        }
    }
}

/// Dropping one row from the middle of a sequence keeps identities unique
/// and bounded.
proof fn lemma_carts_ok_drop_mid(a: Seq<Cart>, c: Cart, b: Seq<Cart>, next: int)
    requires
        carts_ok(a + seq![c] + b, next),
    ensures
        carts_ok(a + b, next),
{
    let big = a + seq![c] + b;
    let small = a + b;
    assert forall|i: int| 0 <= i < small.len() implies (#[trigger] small[i]).cart_id < next by {
        if i < a.len() {
            assert(small[i] == big[i]);
        } else {
            assert(small[i] == big[i + 1]);
        }
    }
    assert forall|i: int, j: int| 0 <= i < j < small.len() implies (#[trigger] small[i]).cart_id
        != (#[trigger] small[j]).cart_id by {
        let bi: int = if i < a.len() {
            i
        } else {
            i + 1
        };
        let bj: int = if j < a.len() {
            j
        } else {
            j + 1
        };
        assert(small[i] == big[bi]);
        assert(small[j] == big[bj]);
        assert(big[bi].cart_id != big[bj].cart_id);
    }
}

/// Executes `DELETE FROM carts WHERE <sel>` on owned rows.
fn delete_cart_rows(v: Vec<Cart>, sel: CartSel, Ghost(next): Ghost<int>) -> (r: Vec<Cart>)
    requires
        carts_ok(v@, next),
    ensures
        r@ == carts_deleted(v@, sel),
        carts_ok(r@, next),
{
    let ghost all: Seq<Cart> = v@;
    let mut rest: Vec<Cart> = v;
    let mut done: Vec<Cart> = Vec::new();
    let ghost mut k: int = 0;
    proof {
        assert(rest@ =~= all.skip(0));
        assert(all.take(0) =~= Seq::<Cart>::empty());
        assert(done@ + rest@ =~= all);
        reveal(Seq::filter);
    }
    while rest.len() > 0
        invariant
            0 <= k <= all.len(),
            rest@.len() == all.len() - k,
            rest@ == all.skip(k),
            done@ == carts_deleted(all.take(k), sel),
            carts_ok(done@ + rest@, next),
        decreases rest@.len(),
    {
        let ghost pre_done: Seq<Cart> = done@;
        let ghost pre_rest: Seq<Cart> = rest@;
        let c = rest.remove(0);
        proof {
            assert(c == all[k]);
            assert(rest@ =~= all.skip(k + 1));
            assert(pre_rest =~= seq![c] + rest@);
            lemma_carts_deleted_step(all, sel, k);
        }
        let keep = match sel {
            CartSel::ById(id) => !(c.cart_id == id),
            CartSel::Expired(cutoff) => !(matches!(c.status, CartStatus::Active) && c.added_at.before(
                &cutoff,
            )),
        };
        proof {
            assert(keep == !cart_selected(c, sel));
        }
        if keep {
            done.push(c);
            proof {
                assert(done@ + rest@ =~= pre_done + pre_rest);
            }
        } else {
            proof {
                assert(pre_done + pre_rest =~= pre_done + seq![c] + rest@);
                lemma_carts_ok_drop_mid(pre_done, c, rest@, next);
            }
        }
        proof {
            k = k + 1;
        }
    }
    proof {
        assert(all.take(all.len() as int) =~= all);
        assert(done@ + rest@ =~= done@);
    }
    done
}

/// Executes `DELETE FROM cart_items WHERE cart_id = ..` on owned rows.
fn delete_items_by_cart(v: Vec<CartItem>, cid: i64) -> (r: Vec<CartItem>)
    ensures
        r@ == items_deleted(v@, ItemSel::ByCart(cid)),
{
    let ghost all: Seq<CartItem> = v@;
    let ghost sel = ItemSel::ByCart(cid);
    let mut rest: Vec<CartItem> = v;
    let mut done: Vec<CartItem> = Vec::new();
    let ghost mut k: int = 0;
    proof {
        assert(rest@ =~= all.skip(0));
        assert(all.take(0) =~= Seq::<CartItem>::empty());
        reveal(Seq::filter);
    }
    while rest.len() > 0
        invariant
            0 <= k <= all.len(),
            rest@.len() == all.len() - k,
            rest@ == all.skip(k),
            done@ == items_deleted(all.take(k), sel),
            sel == ItemSel::ByCart(cid),
        decreases rest@.len(),
    {
        let c = rest.remove(0);
        proof {
            assert(c == all[k]);
            assert(rest@ =~= all.skip(k + 1));
            lemma_items_deleted_step(all, sel, k);
        }
        if !(c.cart_id == cid) {
            done.push(c);
        }
        proof {
            k = k + 1;
        }
    }
    proof {
        assert(all.take(all.len() as int) =~= all);
    }
    done
}

/// The pending-checkout carts created on the same day as `now`: the rows the
/// invoice sequence number counts.
pub open spec fn pending_today(carts: Seq<Cart>, now: Timestamp) -> Seq<Cart> {
    carts.filter(
        |c: Cart| c.status == CartStatus::PendingCheckout && c.added_at.same_day(now),
    )
}

proof fn lemma_pending_today_step(carts: Seq<Cart>, now: Timestamp, k: int)
    requires
        0 <= k < carts.len(),
    ensures
        pending_today(carts.take(k + 1), now) == if carts[k].status == CartStatus::PendingCheckout
            && carts[k].added_at.same_day(now) {
            pending_today(carts.take(k), now).push(carts[k])
        } else {
            pending_today(carts.take(k), now)
        },
{
    reveal(Seq::filter);
    assert(carts.take(k + 1).drop_last() =~= carts.take(k));
    assert(carts.take(k + 1).last() == carts[k]);
}

/// The parked carts, in row order.
pub open spec fn parked_carts(carts: Seq<Cart>) -> Seq<Cart> {
    carts.filter(|c: Cart| c.status == CartStatus::Parked)
}

proof fn lemma_parked_carts_step(carts: Seq<Cart>, k: int)
    requires
        0 <= k < carts.len(),
    ensures
        parked_carts(carts.take(k + 1)) == if carts[k].status == CartStatus::Parked {
            parked_carts(carts.take(k)).push(carts[k])
        } else {
            parked_carts(carts.take(k))
        },
{
    reveal(Seq::filter);
    assert(carts.take(k + 1).drop_last() =~= carts.take(k));
    assert(carts.take(k + 1).last() == carts[k]);
}

/// The first `active` cart in row order, if any.
pub open spec fn first_active(carts: Seq<Cart>) -> Option<Cart>
    decreases carts.len(),
{
    if carts.len() == 0 {
        None
    } else if carts[0].status == CartStatus::Active {
        Some(carts[0])
    } else {
        first_active(carts.skip(1))
    }
}

/// The invoice identifier `{store}_{storeman}_{YYYYMMDD}_{seq:03}`.
pub open spec fn invoice_seq(store: Seq<char>, man: Seq<char>, now: Timestamp, n: nat) -> Seq<
    char,
> {
    store + seq!['_'] + man + seq!['_'] + now.date_code() + seq!['_'] + crate::digits::padded_dec(
        n,
        3,
    )
}

/// `SELECT COUNT(*) FROM carts WHERE status = 'pending checkout' AND
/// added_at on the same day as now`.
fn count_pending_today(carts: &Vec<Cart>, now: &Timestamp) -> (n: u64)
    ensures
        n == pending_today(carts@, *now).len(),
{
    let ghost all: Seq<Cart> = carts@;
    let mut n: u64 = 0;
    let mut i: usize = 0;
    proof {
        assert(all.take(0) =~= Seq::<Cart>::empty());
        reveal(Seq::filter);
    }
    while i < carts.len()
        invariant
            i <= all.len(),
            all == carts@,
            n == pending_today(all.take(i as int), *now).len(),
            n <= i,
        decreases all.len() - i,
    {
        proof {
            lemma_pending_today_step(all, *now, i as int);
        }
        if matches!(carts[i].status, CartStatus::PendingCheckout) && carts[i].added_at.on_same_day(
            now,
        ) {
            n = n + 1;
        }
        i = i + 1;
    }
    proof {
        assert(all.take(all.len() as int) =~= all);
    }
    n
}

/// Whether some cart row with this identity is expired: the scan behind the
/// item sweep of `cleanup`.
fn some_expired_with_id(carts: &Vec<Cart>, id: i64, cutoff: &Timestamp) -> (r: bool)
    ensures
        r == has_expired_cart(carts@, id, *cutoff),
{
    let mut i: usize = 0;
    while i < carts.len()
        invariant
            i <= carts@.len(),
            forall|j: int|
                0 <= j < i ==> !((#[trigger] carts@[j]).cart_id == id && is_expired(
                    carts@[j],
                    *cutoff,
                )),
        decreases carts@.len() - i,
    {
        if carts[i].cart_id == id && matches!(carts[i].status, CartStatus::Active)
            && carts[i].added_at.before(cutoff) {
            return true;
        }
        i = i + 1;
    }
    false
}

/// Executes `DELETE FROM cart_items WHERE cart_id IN (expired carts)` on
/// owned rows, against the given cart table.
fn delete_items_of_expired(v: Vec<CartItem>, carts: &Vec<Cart>, cutoff: &Timestamp) -> (r: Vec<
    CartItem,
>)
    ensures
        r@ == items_deleted(v@, ItemSel::OfExpired(carts@, *cutoff)),
{
    let ghost all: Seq<CartItem> = v@;
    let ghost sel = ItemSel::OfExpired(carts@, *cutoff);
    let mut rest: Vec<CartItem> = v;
    let mut done: Vec<CartItem> = Vec::new();
    let ghost mut k: int = 0;
    proof {
        assert(rest@ =~= all.skip(0));
        assert(all.take(0) =~= Seq::<CartItem>::empty());
        reveal(Seq::filter);
    }
    while rest.len() > 0
        invariant
            0 <= k <= all.len(),
            rest@.len() == all.len() - k,
            rest@ == all.skip(k),
            done@ == items_deleted(all.take(k), sel),
            sel == ItemSel::OfExpired(carts@, *cutoff),
        decreases rest@.len(),
    {
        let c = rest.remove(0);
        proof {
            assert(c == all[k]);
            assert(rest@ =~= all.skip(k + 1));
            lemma_items_deleted_step(all, sel, k);
        }
        if !some_expired_with_id(carts, c.cart_id, cutoff) {
            done.push(c);
        }
        proof {
            k = k + 1;
        }
    }
    proof {
        assert(all.take(all.len() as int) =~= all);
    }
    done
}

/// The position of the cart row carrying `cart_id`, `None` if there is none.
fn cart_position(carts: &Vec<Cart>, cart_id: i64) -> (r: Option<usize>)
    ensures
        match r {
            Some(i) => i < carts@.len() && carts@[i as int].cart_id == cart_id,
            None => !has_cart(carts@, cart_id),
        },
{
    let mut i: usize = 0;
    while i < carts.len()
        invariant
            i <= carts@.len(),
            forall|j: int| 0 <= j < i ==> (#[trigger] carts@[j]).cart_id != cart_id,
        decreases carts@.len() - i,
    {
        if carts[i].cart_id == cart_id {
            return Some(i);
        }
        i = i + 1;
    }
    None
}

} // verus!
