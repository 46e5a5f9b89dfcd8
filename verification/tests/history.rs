use stellar_rates::rates_history::{
    handle_request, validate_asset, HistoryAsset, HistoryRequest, HistoryRequestTransactions,
};
use stellar_rates::shared::ExchangeRateError;
use stellar_rates::store::RatesDbRow;
use stellar_rates::RATE_SCALE;

fn row(timestamp: u64, rate_units: u128) -> RatesDbRow {
    RatesDbRow {
        timestamp,
        floatcode: "TEST".to_string(),
        fltissuer: "G1".to_string(),
        rate: rate_units * RATE_SCALE as u128,
        volume: 1,
    }
}

fn series() -> Vec<RatesDbRow> {
    vec![row(100, 1), row(200, 2), row(300, 3)]
}

fn timeline(dates: &[&str], unrealized: &str) -> HistoryRequestTransactions {
    HistoryRequestTransactions {
        asset: HistoryAsset {
            asset_code: "TEST".to_string(),
            asset_issuer: Some("G1".to_string()),
        },
        transaction_dates: dates.iter().map(|d| d.to_string()).collect(),
        unrealized_date: unrealized.to_string(),
    }
}

#[test]
fn ascending_sweep_prices_each_transaction() {
    // Transactions at 150 and 250, unrealized at 400, against records at
    // 100, 200 and 300.
    let request = HistoryRequest {
        assets: vec![timeline(
            &["1970-01-01T00:02:30", "1970-01-01T00:04:10"],
            "1970-01-01T00:06:40",
        )],
    };
    let outcomes = handle_request(&request, &series()).unwrap();
    assert_eq!(outcomes.len(), 1);
    let ok = outcomes[0].as_ref().expect("priced asset");
    assert_eq!(ok.asset.asset_code, "TEST");
    assert_eq!(ok.asset.asset_issuer, "G1");
    assert_eq!(ok.transaction_rates.len(), 2);
    assert_eq!(ok.transaction_rates[0].transaction_timestamp, 150);
    assert_eq!(ok.transaction_rates[0].rate_timestamp, 100);
    assert_eq!(ok.transaction_rates[0].rate, RATE_SCALE as u128);
    assert_eq!(ok.transaction_rates[1].transaction_timestamp, 250);
    assert_eq!(ok.transaction_rates[1].rate_timestamp, 200);
    assert_eq!(ok.transaction_rates[1].rate, 2 * RATE_SCALE as u128);
    assert_eq!(ok.unrealized_rate.transaction_timestamp, 400);
    assert_eq!(ok.unrealized_rate.rate_timestamp, 300);
    assert_eq!(ok.unrealized_rate.rate, 3 * RATE_SCALE as u128);
}

#[test]
fn transaction_at_record_time_takes_that_record() {
    let request = HistoryRequest {
        assets: vec![timeline(&["1970-01-01T00:03:20"], "1970-01-01T00:06:40")],
    };
    // 200 seconds exactly: the record at 200 itself prices it.
    let outcomes = handle_request(&request, &series()).unwrap();
    let ok = outcomes[0].as_ref().unwrap();
    assert_eq!(ok.transaction_rates[0].rate_timestamp, 200);
}

#[test]
fn series_starting_after_first_transaction_fails_the_asset() {
    // First transaction at 50, earliest record at 100.
    let request = HistoryRequest {
        assets: vec![timeline(&["1970-01-01T00:00:50"], "1970-01-01T00:06:40")],
    };
    let outcomes = handle_request(&request, &series()).unwrap();
    assert_eq!(outcomes.len(), 1);
    let failed = outcomes[0].as_ref().expect_err("failed asset");
    assert_eq!(failed.asset.asset_code, "TEST");
}

#[test]
fn one_failed_asset_does_not_abort_the_batch() {
    let request = HistoryRequest {
        assets: vec![
            timeline(&["1970-01-01T00:00:50"], "1970-01-01T00:06:40"),
            timeline(&["1970-01-01T00:02:30"], "1970-01-01T00:06:40"),
        ],
    };
    let outcomes = handle_request(&request, &series()).unwrap();
    assert_eq!(outcomes.len(), 2);
    assert!(outcomes[0].is_err());
    assert!(outcomes[1].is_ok());
}

#[test]
fn unrealized_before_last_transaction_is_rejected_before_lookup() {
    // Transaction at 500, unrealized at 400.
    let request = HistoryRequest {
        assets: vec![timeline(&["1970-01-01T00:08:20"], "1970-01-01T00:06:40")],
    };
    let r = handle_request(&request, &series());
    assert_eq!(r, Err(ExchangeRateError::InvalidDateOrder));
    // The same rejection comes without any series at all.
    let r2 = handle_request(&request, &Vec::new());
    assert_eq!(r2, Err(ExchangeRateError::InvalidDateOrder));
}

#[test]
fn unsorted_transaction_dates_are_rejected() {
    let request = HistoryRequest {
        assets: vec![timeline(
            &["1970-01-01T00:04:10", "1970-01-01T00:02:30"],
            "1970-01-01T00:06:40",
        )],
    };
    assert_eq!(handle_request(&request, &series()), Err(ExchangeRateError::InvalidDateOrder));
}

#[test]
fn empty_request_is_rejected() {
    let request = HistoryRequest { assets: Vec::new() };
    assert_eq!(handle_request(&request, &series()), Err(ExchangeRateError::EmptyRequest));
}

#[test]
fn empty_transaction_dates_are_rejected() {
    let request = HistoryRequest { assets: vec![timeline(&[], "1970-01-01T00:06:40")] };
    match handle_request(&request, &series()) {
        Err(ExchangeRateError::EmptyTransactions(code)) => assert_eq!(code, "TEST"),
        other => panic!("expected an empty-dates rejection, got {:?}", other.is_ok()),
    }
}

#[test]
fn missing_issuer_is_rejected() {
    let mut entry = timeline(&["1970-01-01T00:02:30"], "1970-01-01T00:06:40");
    entry.asset.asset_issuer = None;
    let request = HistoryRequest { assets: vec![entry] };
    match handle_request(&request, &series()) {
        Err(ExchangeRateError::MissingIssuer(code)) => assert_eq!(code, "TEST"),
        other => panic!("expected a missing-issuer rejection, got {:?}", other.is_ok()),
    }
}

#[test]
fn unparsable_dates_are_invalid_date() {
    let request = HistoryRequest { assets: vec![timeline(&["nonsense"], "1970-01-01T00:06:40")] };
    assert_eq!(handle_request(&request, &series()), Err(ExchangeRateError::InvalidDate));
    let bad_unrealized = HistoryRequest {
        assets: vec![timeline(&["1970-01-01T00:02:30"], "nonsense")],
    };
    assert_eq!(handle_request(&bad_unrealized, &series()), Err(ExchangeRateError::InvalidDate));
}

#[test]
fn native_asset_validates_without_issuer() {
    let asset = HistoryAsset { asset_code: "XLM".to_string(), asset_issuer: None };
    let validated = asset.validate().unwrap();
    assert_eq!(validated.asset_issuer, "Native");
}

#[test]
fn empty_series_fails_the_asset() {
    let entry = timeline(&["1970-01-01T00:02:30"], "1970-01-01T00:06:40");
    let request = HistoryRequest { assets: vec![entry] };
    let outcomes = handle_request(&request, &Vec::new()).unwrap();
    assert!(outcomes[0].is_err());
    let v = validate_asset(&timeline(&["1970-01-01T00:02:30"], "1970-01-01T00:06:40")).unwrap();
    assert_eq!(v.transaction_timestamps, vec![150]);
    assert_eq!(v.unrealized_timestamp, 400);
}
