//! Carts, cart lines and the error taxonomy of the store.
//!
//! Monetary amounts (`price`, `discount`) are carried in minor currency units
//! (cents), frozen at the moment a line is added.

use crate::timestamp::Timestamp;
use vstd::prelude::*;

verus! {

/// Lifecycle status of a cart.  The terminal statuses imply deletion of the
/// row: a cancelled cart is simply deleted, and a processed cart is deleted by
/// the same operation that marks it, so `Processed` is observable only when
/// the deleting transaction fails and rolls back.
#[derive(Clone, Copy, PartialEq, Eq, Structural, Debug)]
pub enum CartStatus {
    Active,
    Parked,
    PendingCheckout,
    Processed,
}

/// Pricing mode of a cart line: retail unit or bulk unit.
#[derive(Clone, Copy, PartialEq, Eq, Structural, Debug)]
pub enum PurchasingType {
    Single,
    Bulk,
}

/// Why a store operation was refused.  Wrong-status refusals keep distinct
/// kinds so the caller can show a specific message; `PersistenceError` stands
/// for a fault of the underlying store, after which the failed operation has
/// rolled back whatever a single statement or transaction must roll back.
#[derive(Clone, Copy, PartialEq, Eq, Structural, Debug)]
pub enum CartError {
    /// The target cart does not exist.
    NotFound,
    /// `add_cart_item` requires the cart to be `active`.
    CartNotActive,
    /// `activate_cart` requires the cart to be `parked` after the demotion
    /// step.
    NotParked,
    /// `park_cart` requires the cart to be `active`.
    NotActive,
    /// A statement of the persistence layer failed.
    PersistenceError,
}

/// A cart row.
#[derive(Debug)]
pub struct Cart {
    /// Stable identity, assigned on creation, never reused.
    pub cart_id: i64,
    /// Mutable display label.
    pub cart_name: String,
    pub status: CartStatus,
    /// Set once at creation, immutable afterwards.
    pub added_at: Timestamp,
}

/// A cart line.  The triple `(cart_id, product_id, purchasing_type)` is the
/// logical key; the store does not deduplicate lines that share it.
#[derive(Debug)]
pub struct CartItem {
    pub cart_id: i64,
    pub product_id: i64,
    /// The literal barcode scanned, which may differ from the catalog's
    /// canonical barcode.
    pub scanned_barcode: Option<String>,
    pub quantity: u32,
    /// Per-unit price in minor currency units, frozen at insertion.
    pub price: u64,
    pub purchasing_type: PurchasingType,
    /// Per-unit discount in minor currency units.
    pub discount: u64,
}

impl Cart {
    /// A copy that is equal, field by field, to the original.
    pub fn duplicate(&self) -> (c: Cart)
        ensures
            c == *self,
    {
        Cart {
            cart_id: self.cart_id,
            cart_name: self.cart_name.clone(),
            status: self.status,
            added_at: self.added_at,
        }
    }
}

impl CartItem {
    /// A copy that is equal, field by field, to the original.
    pub fn duplicate(&self) -> (c: CartItem)
        ensures
            c == *self,
    {
        CartItem {
            cart_id: self.cart_id,
            product_id: self.product_id,
            scanned_barcode: match &self.scanned_barcode {
                Some(b) => Some(b.clone()),
                None => None,
            },
            quantity: self.quantity,
            price: self.price,
            purchasing_type: self.purchasing_type,
            discount: self.discount,
        }
    }
}

} // verus!
