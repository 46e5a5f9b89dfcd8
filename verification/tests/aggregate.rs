use stellar_rates::rates::calculate_rates;
use stellar_rates::swap::Swap;
use stellar_rates::RATE_SCALE;

fn swap(code: &str, issuer: &str, usdc_amount: i64, numerator: i64, denominator: i64) -> Swap {
    Swap {
        created_at: None,
        usdc_amount,
        floating_asset_code: code.to_string(),
        floating_asset_issuer: issuer.to_string(),
        price_numerator: numerator,
        price_denominator: denominator,
    }
}

#[test]
fn weighted_average_exact_value() {
    // Rates 2.0 and 1.0 with volumes 10 and 30: (10*2 + 30*1) / 40 = 1.25.
    let swaps = vec![swap("TEST", "GISS", 10, 20, 10), swap("TEST", "GISS", 30, 30, 30)];
    let entries = calculate_rates(&swaps);
    assert_eq!(entries.len(), 1);
    assert_eq!(entries[0].floatcode, "TEST");
    assert_eq!(entries[0].fltissuer, "GISS");
    assert_eq!(entries[0].rate, (RATE_SCALE as u128) * 5 / 4);
    assert_eq!(entries[0].volume, 40);
}

#[test]
fn single_swap_keeps_its_rate() {
    let swaps = vec![swap("TEST", "GISS", 7, 3, 2)];
    let entries = calculate_rates(&swaps);
    assert_eq!(entries.len(), 1);
    assert_eq!(entries[0].rate, 3 * (RATE_SCALE as u128) / 2);
    assert_eq!(entries[0].volume, 7);
}

#[test]
fn assets_aggregate_independently() {
    let swaps = vec![
        swap("AAA", "G1", 10, 10, 10),
        swap("BBB", "G2", 5, 30, 10),
        swap("AAA", "G1", 10, 30, 10),
    ];
    let entries = calculate_rates(&swaps);
    assert_eq!(entries.len(), 2);
    // First-occurrence order is kept.
    assert_eq!(entries[0].floatcode, "AAA");
    assert_eq!(entries[1].floatcode, "BBB");
    // AAA: (10*1 + 10*3) / 20 = 2.0.
    assert_eq!(entries[0].rate, 2 * RATE_SCALE as u128);
    assert_eq!(entries[0].volume, 20);
    // BBB: 3.0.
    assert_eq!(entries[1].rate, 3 * RATE_SCALE as u128);
    assert_eq!(entries[1].volume, 5);
}

#[test]
fn same_code_different_issuer_not_blended() {
    let swaps = vec![swap("AAA", "G1", 10, 10, 10), swap("AAA", "G2", 10, 20, 10)];
    let entries = calculate_rates(&swaps);
    assert_eq!(entries.len(), 2);
    assert_eq!(entries[0].fltissuer, "G1");
    assert_eq!(entries[1].fltissuer, "G2");
    assert_eq!(entries[0].rate, RATE_SCALE as u128);
    assert_eq!(entries[1].rate, 2 * RATE_SCALE as u128);
}

#[test]
fn reaggregation_is_byte_identical() {
    let swaps = vec![
        swap("AAA", "G1", 12, 7, 3),
        swap("BBB", "G2", 40, 1, 4),
        swap("AAA", "G1", 8, 9, 5),
    ];
    let first = calculate_rates(&swaps);
    let second = calculate_rates(&swaps);
    assert_eq!(first.len(), second.len());
    for (a, b) in first.iter().zip(second.iter()) {
        assert_eq!(a.floatcode, b.floatcode);
        assert_eq!(a.fltissuer, b.fltissuer);
        assert_eq!(a.rate, b.rate);
        assert_eq!(a.volume, b.volume);
    }
}

#[test]
fn empty_batch_yields_no_entries() {
    let entries = calculate_rates(&Vec::new());
    assert_eq!(entries.len(), 0);
}

#[test]
fn rounding_is_toward_zero() {
    // Rate 1/3 scaled: floor(10_000_000 / 3) = 3_333_333.
    let swaps = vec![swap("TEST", "GISS", 3, 1, 3)];
    let entries = calculate_rates(&swaps);
    assert_eq!(entries[0].rate, 3_333_333);
}

#[test]
fn overlarge_sums_skip_only_that_asset() {
    // The first asset's weighted sum exceeds the 128-bit accumulator in a
    // single step; the second asset is unaffected.
    let huge = swap("HUGE", "G1", i64::MAX, i64::MAX, 1);
    let normal = swap("TEST", "G2", 10, 20, 10);
    let entries = calculate_rates(&vec![huge, normal]);
    assert_eq!(entries.len(), 1);
    assert_eq!(entries[0].floatcode, "TEST");
    assert_eq!(entries[0].rate, 2 * RATE_SCALE as u128);
}
