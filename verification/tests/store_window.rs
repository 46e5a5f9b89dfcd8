use stellar_rates::asset::{Registry, SwapAsset};
use stellar_rates::model::{
    ClaimAsset, ElementaryClaim, LedgerClose, OperationOutcome, TransactionOutcome,
};
use stellar_rates::store::{on_close, save_rates, CloseOutcome, RateStore, Savepoint, SwapDbRow};
use stellar_rates::swap::Swap;
use stellar_rates::RATE_SCALE;

const USDC_ISSUER: &str = "GA5ZSEJYB37JRC5AVCIA5MOP4RHTM335X2KGX3IHOJAPP5RE34K4KZVN";
const USDC_CONTRACT: &str = "CCW67TSZV3SSS2HXMBQ5JFGCKJNXKZM7UQUWUZPUTHXSTZLEO7SJMI75";
const TEST_ISSUER: &str = "GTESTISSUERAAAAAAAAAAAAAAAAAAAAAAAAAAAAAAAAAAAAAAAAAAAA";
const TEST_CONTRACT: &str = "CTESTCONTRACTAAAAAAAAAAAAAAAAAAAAAAAAAAAAAAAAAAAAAAAAAA";

const INTERVAL: u64 = 3600;

fn usdc() -> SwapAsset {
    SwapAsset {
        code: "USDC".to_string(),
        issuer: USDC_ISSUER.to_string(),
        contract: USDC_CONTRACT.to_string(),
    }
}

fn test_token() -> SwapAsset {
    SwapAsset {
        code: "TEST".to_string(),
        issuer: TEST_ISSUER.to_string(),
        contract: TEST_CONTRACT.to_string(),
    }
}

fn registry() -> Registry {
    Registry::new(usdc(), vec![usdc(), test_token()], Vec::new())
}

fn block_with_swap(timestamp: u64, usdc_amount: i64, counter_amount: i64) -> LedgerClose {
    let claim = ElementaryClaim {
        asset_sold: ClaimAsset::Issued { code: b"USDC".to_vec(), issuer: USDC_ISSUER.to_string() },
        amount_sold: usdc_amount,
        asset_bought: ClaimAsset::Issued {
            code: b"TEST".to_vec(),
            issuer: TEST_ISSUER.to_string(),
        },
        amount_bought: counter_amount,
    };
    LedgerClose {
        timestamp,
        transactions: vec![TransactionOutcome {
            successful: true,
            operations: vec![OperationOutcome::Offer { fill: Some(claim) }],
        }],
        events: Vec::new(),
    }
}

fn empty_block(timestamp: u64) -> LedgerClose {
    LedgerClose { timestamp, transactions: Vec::new(), events: Vec::new() }
}

#[test]
fn first_close_seeds_without_aggregating() {
    let reg = registry();
    let mut store = RateStore::new();
    let outcome = on_close(&mut store, &block_with_swap(1000, 50, 100), &reg, INTERVAL);
    assert_eq!(outcome, CloseOutcome::Seeded);
    assert_eq!(store.savepoints.len(), 1);
    assert_eq!(store.savepoints[0].savepoint, 1000);
    assert_eq!(store.swaps.len(), 1);
    assert_eq!(store.rates.len(), 0);
}

#[test]
fn close_inside_window_waits() {
    let reg = registry();
    let mut store = RateStore::new();
    on_close(&mut store, &empty_block(1000), &reg, INTERVAL);
    let outcome = on_close(&mut store, &block_with_swap(2000, 50, 100), &reg, INTERVAL);
    assert_eq!(outcome, CloseOutcome::Waited);
    assert_eq!(store.savepoints[0].savepoint, 1000);
    assert_eq!(store.rates.len(), 0);
    assert_eq!(store.swaps.len(), 1);
}

#[test]
fn elapsed_window_advances_and_emits() {
    let reg = registry();
    let mut store = RateStore::new();
    on_close(&mut store, &empty_block(1000), &reg, INTERVAL);
    on_close(&mut store, &block_with_swap(2000, 50, 100), &reg, INTERVAL);
    let outcome = on_close(&mut store, &block_with_swap(5000, 30, 30), &reg, INTERVAL);
    assert_eq!(outcome, CloseOutcome::Advanced);
    assert_eq!(store.savepoints.len(), 1);
    assert_eq!(store.savepoints[0].savepoint, 5000);
    assert_eq!(store.rates.len(), 1);
    let row = &store.rates[0];
    assert_eq!(row.timestamp, 5000);
    assert_eq!(row.floatcode, "TEST");
    assert_eq!(row.fltissuer, TEST_ISSUER);
    // Rates 2.0 (volume 50) and 1.0 (volume 30): (50*2 + 30*1) / 80.
    assert_eq!(row.rate, 130 * (RATE_SCALE as u128) / 80);
    assert_eq!(row.volume, 80);
}

#[test]
fn per_asset_timestamps_strictly_increase() {
    let reg = registry();
    let mut store = RateStore::new();
    on_close(&mut store, &empty_block(1000), &reg, INTERVAL);
    on_close(&mut store, &block_with_swap(2000, 10, 20), &reg, INTERVAL);
    on_close(&mut store, &block_with_swap(5000, 10, 20), &reg, INTERVAL);
    on_close(&mut store, &block_with_swap(9000, 10, 20), &reg, INTERVAL);
    on_close(&mut store, &block_with_swap(13000, 10, 20), &reg, INTERVAL);
    let mut per_asset: Vec<u64> = store
        .rates
        .iter()
        .filter(|r| r.floatcode == "TEST")
        .map(|r| r.timestamp)
        .collect();
    assert!(per_asset.len() >= 2);
    let sorted = per_asset.clone();
    per_asset.dedup();
    assert_eq!(per_asset, sorted);
    for pair in sorted.windows(2) {
        assert!(pair[0] < pair[1]);
    }
}

#[test]
fn two_savepoints_abort_with_zero_writes() {
    let reg = registry();
    let mut store = RateStore::new();
    store.savepoints.push(Savepoint { savepoint: 1000 });
    store.savepoints.push(Savepoint { savepoint: 2000 });
    let outcome = on_close(&mut store, &block_with_swap(9000, 10, 20), &reg, INTERVAL);
    assert_eq!(outcome, CloseOutcome::ConsistencyFault);
    assert_eq!(store.swaps.len(), 0);
    assert_eq!(store.rates.len(), 0);
    assert_eq!(store.savepoints.len(), 2);
}

#[test]
fn save_rates_reports_fault_directly() {
    let mut store = RateStore::new();
    store.savepoints.push(Savepoint { savepoint: 1000 });
    store.savepoints.push(Savepoint { savepoint: 2000 });
    let outcome = save_rates(&mut store, 9000, INTERVAL);
    assert_eq!(outcome, CloseOutcome::ConsistencyFault);
    assert_eq!(store.rates.len(), 0);
}

#[test]
fn aggregation_covers_only_swaps_after_watermark() {
    let reg = registry();
    let mut store = RateStore::new();
    // A stale swap from before the watermark must not be folded in.
    store.swaps.push(SwapDbRow::new(
        &Swap {
            created_at: None,
            usdc_amount: 1000,
            floating_asset_code: "TEST".to_string(),
            floating_asset_issuer: TEST_ISSUER.to_string(),
            price_numerator: 9000,
            price_denominator: 1000,
        },
        500,
    ));
    store.savepoints.push(Savepoint { savepoint: 1000 });
    let outcome = on_close(&mut store, &block_with_swap(5000, 10, 20), &reg, INTERVAL);
    assert_eq!(outcome, CloseOutcome::Advanced);
    assert_eq!(store.rates.len(), 1);
    // Only the fresh swap's rate of 2.0 is reflected.
    assert_eq!(store.rates[0].rate, 2 * RATE_SCALE as u128);
    assert_eq!(store.rates[0].volume, 10);
}

#[test]
fn failed_transactions_contribute_nothing() {
    let reg = registry();
    let mut store = RateStore::new();
    let mut block = block_with_swap(1000, 50, 100);
    block.transactions[0].successful = false;
    on_close(&mut store, &block, &reg, INTERVAL);
    assert_eq!(store.swaps.len(), 0);
}

#[test]
fn window_boundary_is_strict() {
    let reg = registry();
    let mut store = RateStore::new();
    on_close(&mut store, &empty_block(1000), &reg, INTERVAL);
    // Exactly one interval past the watermark: not yet elapsed.
    let at_boundary = on_close(&mut store, &block_with_swap(1000 + INTERVAL, 10, 20), &reg, INTERVAL);
    assert_eq!(at_boundary, CloseOutcome::Waited);
    // One second more and the window advances.
    let past = on_close(&mut store, &block_with_swap(1000 + INTERVAL + 1, 10, 20), &reg, INTERVAL);
    assert_eq!(past, CloseOutcome::Advanced);
}
