use stellar_rates::api::{
    get_all_exchange_rates, handle_request, process_results, validate_request, ExchangeRateRequest,
};
use stellar_rates::shared::{parse_timestamp, ExchangeRateError};
use stellar_rates::store::{RatesDbRow, Savepoint};

fn row(timestamp: u64, code: &str, issuer: &str, rate: u128) -> RatesDbRow {
    RatesDbRow {
        timestamp,
        floatcode: code.to_string(),
        fltissuer: issuer.to_string(),
        rate,
        volume: 1,
    }
}

fn request(code: &str, issuer: Option<&str>, date: Option<&str>) -> ExchangeRateRequest {
    ExchangeRateRequest {
        asset_code: code.to_string(),
        asset_issuer: issuer.map(|s| s.to_string()),
        date: date.map(|s| s.to_string()),
    }
}

#[test]
fn parse_timestamp_exact_values() {
    assert_eq!(parse_timestamp(&"1970-01-01T00:02:30".to_string()), Ok(150));
    assert_eq!(parse_timestamp(&"1970-01-01T01:00:00".to_string()), Ok(3600));
    assert_eq!(
        parse_timestamp(&"not-a-date".to_string()),
        Err(ExchangeRateError::InvalidDate)
    );
}

#[test]
fn unparsable_date_is_invalid_date() {
    let rates = vec![row(100, "TEST", "G1", 5)];
    let savepoints = vec![Savepoint { savepoint: 100 }];
    let r = handle_request(&request("TEST", None, Some("not-a-date")), &rates, &savepoints);
    assert_eq!(r, Err(ExchangeRateError::InvalidDate));
    let v = validate_request(&request("TEST", None, Some("not-a-date")));
    assert!(matches!(v, Err(ExchangeRateError::InvalidDate)));
}

#[test]
fn no_date_answers_at_watermark() {
    let rates = vec![row(100, "TEST", "G1", 5), row(200, "TEST", "G1", 7)];
    let savepoints = vec![Savepoint { savepoint: 200 }];
    let r = handle_request(&request("TEST", None, None), &rates, &savepoints).unwrap();
    assert_eq!(r.len(), 1);
    assert_eq!(r[0].timestamp, 200);
    assert_eq!(r[0].rate, 7);
}

#[test]
fn no_date_without_record_at_watermark_is_not_found() {
    let rates = vec![row(100, "TEST", "G1", 5)];
    let savepoints = vec![Savepoint { savepoint: 200 }];
    let r = handle_request(&request("TEST", None, None), &rates, &savepoints);
    match r {
        Err(ExchangeRateError::NotFound(what)) => assert_eq!(what, "exchange rate"),
        other => panic!("expected a lookup failure, got {:?}", other.map(|v| v.len())),
    }
}

#[test]
fn no_date_without_watermark_is_not_found() {
    let rates = vec![row(100, "TEST", "G1", 5)];
    let r = handle_request(&request("TEST", None, None), &rates, &Vec::new());
    match r {
        Err(ExchangeRateError::NotFound(what)) => assert_eq!(what, "timestamp"),
        other => panic!("expected a missing watermark, got {:?}", other.map(|v| v.len())),
    }
}

#[test]
fn dated_lookup_takes_greatest_strictly_before() {
    let rates = vec![
        row(100, "TEST", "G1", 1),
        row(200, "TEST", "G1", 2),
        row(300, "TEST", "G1", 3),
    ];
    let savepoints = vec![Savepoint { savepoint: 300 }];
    // 1970-01-01T00:05:00 is 300 seconds: the record at 300 is excluded.
    let r = handle_request(
        &request("TEST", Some("G1"), Some("1970-01-01T00:05:00")),
        &rates,
        &savepoints,
    )
    .unwrap();
    assert_eq!(r.len(), 1);
    assert_eq!(r[0].timestamp, 200);
    assert_eq!(r[0].rate, 2);
}

#[test]
fn dated_lookup_before_series_is_not_found() {
    let rates = vec![row(300, "TEST", "G1", 3)];
    let savepoints = vec![Savepoint { savepoint: 300 }];
    let r = handle_request(
        &request("TEST", Some("G1"), Some("1970-01-01T00:02:30")),
        &rates,
        &savepoints,
    );
    assert!(matches!(r, Err(ExchangeRateError::NotFound(_))));
}

#[test]
fn lookup_without_issuer_answers_each_issuer() {
    let rates = vec![
        row(100, "TEST", "G1", 1),
        row(100, "TEST", "G2", 4),
        row(200, "TEST", "G1", 2),
    ];
    let savepoints = vec![Savepoint { savepoint: 200 }];
    let r = handle_request(
        &request("TEST", None, Some("1970-01-01T00:05:00")),
        &rates,
        &savepoints,
    )
    .unwrap();
    assert_eq!(r.len(), 2);
    // First-occurrence order of the issuers, most recent row per issuer.
    assert_eq!(r[0].fltissuer, "G1");
    assert_eq!(r[0].timestamp, 200);
    assert_eq!(r[1].fltissuer, "G2");
    assert_eq!(r[1].timestamp, 100);
}

#[test]
fn native_lookup_normalizes_issuer() {
    let rates = vec![row(100, "XLM", "Native", 9)];
    let savepoints = vec![Savepoint { savepoint: 100 }];
    // A caller-supplied issuer on the native code is overridden.
    let r = handle_request(
        &request("XLM", Some("GWHOEVER"), None),
        &rates,
        &savepoints,
    )
    .unwrap();
    assert_eq!(r.len(), 1);
    assert_eq!(r[0].fltissuer, "Native");
}

#[test]
fn empty_results_are_a_failure_not_an_empty_success() {
    let r = process_results(Vec::new());
    assert!(matches!(r, Err(ExchangeRateError::NotFound(_))));
}

#[test]
fn all_rates_group_by_asset_without_blending() {
    let rates = vec![
        row(100, "TEST", "G1", 1),
        row(100, "TEST", "G2", 4),
        row(200, "TEST", "G1", 2),
        row(200, "OTHER", "G1", 8),
    ];
    let groups = get_all_exchange_rates(&rates);
    assert_eq!(groups.len(), 3);
    assert_eq!(groups[0].floatcode, "TEST");
    assert_eq!(groups[0].fltissuer, "G1");
    assert_eq!(groups[0].rows.len(), 2);
    assert_eq!(groups[0].rows[0].timestamp, 100);
    assert_eq!(groups[0].rows[1].timestamp, 200);
    assert_eq!(groups[1].fltissuer, "G2");
    assert_eq!(groups[1].rows.len(), 1);
    assert_eq!(groups[2].floatcode, "OTHER");
    assert_eq!(groups[2].rows.len(), 1);
}
