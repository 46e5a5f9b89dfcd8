//! Verified core of a stablecoin exchange-rate tracker.
//!
//! Each ledger close is scanned for trades that exchange the reference
//! stablecoin against another asset. Qualifying trades are distilled, once
//! per aggregation window, into a volume-weighted exchange rate per asset.
//! The persisted rate series can be queried at a point in time or matched
//! against a caller's transaction timeline.

use vstd::prelude::*;

pub mod api;
pub mod asset;
pub mod filter;
pub mod model;
pub mod rates;
pub mod rates_history;
pub mod shared;
pub mod store;
pub mod swap;
pub mod text;

verus! {

/// Fixed-point scale for exchange rates: a stored rate `r` denotes the
/// rational number `r / RATE_SCALE`. It matches the chain's convention of
/// ten million base units ("stroops") per asset unit.
pub const RATE_SCALE: u64 = 10_000_000;

} // verus!
