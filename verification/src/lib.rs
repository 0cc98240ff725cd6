//! Cart lifecycle and transactional consistency engine for a single-terminal
//! point of sale.
//!
//! The store owns every cart status transition, enforces the single-active-cart
//! rule on activation, performs the multi-row deletions of payment confirmation
//! and cancellation atomically (commit-or-rollback), computes invoice
//! identifiers, and sweeps expired active carts.  Persistence faults can be
//! injected through [`store::CartStore::set_fail_after`], so the rollback
//! behaviour of every operation is both specified and exercised.

pub mod clock;
pub mod digits;
pub mod model;
pub mod store;
pub mod timestamp;
