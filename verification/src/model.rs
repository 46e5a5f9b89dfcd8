//! The library's model of one ledger close: per-transaction operation
//! outcomes already shaped as elementary claims, plus the contract events
//! the block emitted. Decoding the chain's wire format into these plain
//! values is the host's job; everything after that point is verified.

use vstd::prelude::*;

verus! {

/// One side of an elementary claim, as the chain reported it.
pub enum ClaimAsset {
    /// The chain's native asset.
    Native,
    /// A classic issued asset: raw code bytes and the issuer account text.
    Issued { code: Vec<u8>, issuer: String },
    /// An asset named by its contract hash, as AMM events carry them.
    Pool { contract: Vec<u8> },
}

/// One atomic exchange inside a trade or AMM route: what was sold for
/// what, and how much of each. Ephemeral; never persisted.
pub struct ElementaryClaim {
    pub asset_sold: ClaimAsset,
    pub amount_sold: i64,
    pub asset_bought: ClaimAsset,
    pub amount_bought: i64,
}

/// The outcome of one operation of a successful transaction.
pub enum OperationOutcome {
    /// An offer fill: at most one claim.
    Offer { fill: Option<ElementaryClaim> },
    /// A path payment: one claim per fill along the path, possibly none.
    PathPayment { fills: Vec<ElementaryClaim> },
    /// Anything else; contributes no claims.
    Other,
}

/// The outcome of one transaction of the block.
pub struct TransactionOutcome {
    /// Whether the transaction succeeded; failed ones contribute nothing.
    pub successful: bool,
    pub operations: Vec<OperationOutcome>,
}

/// A structured event value, mirroring the contract platform's value
/// union as far as the AMM payload needs it.
pub enum EventValue {
    /// A symbol.
    Symbol(String),
    /// A contract address, by its 32-byte hash.
    Address(Vec<u8>),
    /// A 128-bit integer split into its high and low halves.
    I128 { hi: i64, lo: u64 },
    /// An ordered list of values.
    List(Vec<EventValue>),
    /// A key-to-value map.
    MapEntries(Vec<EventMapEntry>),
    /// Any value shape the decoder does not care about.
    Other,
}

/// One entry of an event-value map: a symbol key and its value.
pub struct EventMapEntry {
    pub key: String,
    pub val: EventValue,
}

/// One contract event of the block.
pub struct ContractEventIn {
    /// Hash of the contract that emitted the event.
    pub contract_id: Vec<u8>,
    /// The event's topic values.
    pub topics: Vec<EventValue>,
    /// The event's payload.
    pub data: EventValue,
}

/// Everything the pipeline consumes from one ledger close.
pub struct LedgerClose {
    /// The block's close time, seconds since the Unix epoch.
    pub timestamp: u64,
    pub transactions: Vec<TransactionOutcome>,
    pub events: Vec<ContractEventIn>,
}

} // verus!
