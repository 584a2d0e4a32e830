//! A loyalty discount engine for swap fees.
//!
//! The engine tracks per-account activity points earned from trading volume,
//! decays those points after a period of inactivity, and maps accumulated
//! points to a discounted trading fee through a tiered discount table.
//!
//! The host (the contract runtime) supplies the block clock and durable
//! storage; this crate holds the accounting and discount logic itself, stated
//! and proved over plain integer values.

use vstd::prelude::*;

pub mod accrual;
pub mod engine;
pub mod expiration;
pub mod ledger;
pub mod tier;

verus! {

/// Failures the engine can report to its caller.
///
/// All other paths are infallible by construction: lookups default to zero and
/// the fee arithmetic is bounded.
#[derive(Clone, Copy, Debug, PartialEq, Eq, Structural)]
pub enum Error {
    /// A points accrual would carry the account's balance past the
    /// representable range; the whole call is aborted and no state changes.
    Overflow,
    /// A points accrual fits the account's balance but would carry the
    /// process-wide running total past the representable range. Only a ledger
    /// that keeps the running total can report this: the total is as wide as
    /// one balance, so the sum of all balances can fill it first. The whole
    /// call is aborted and no state changes.
    TotalOverflow,
    /// Expired points exceed the running total they are subtracted from; this
    /// would indicate a bookkeeping defect and is reported, never discarded.
    Inconsistency,
}

} // verus!
