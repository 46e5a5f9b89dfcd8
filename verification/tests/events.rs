use stellar_rates::asset::{hash_to_strkey, Registry, SwapAsset, SOROSWAP_ROUTER, XLM_ADDRESS};
use stellar_rates::model::{ContractEventIn, EventMapEntry, EventValue};
use stellar_rates::filter::soroswap_swaps;
use stellar_rates::RATE_SCALE;

const USDC_ISSUER: &str = "GA5ZSEJYB37JRC5AVCIA5MOP4RHTM335X2KGX3IHOJAPP5RE34K4KZVN";
const TEST_ISSUER: &str = "GTESTISSUERAAAAAAAAAAAAAAAAAAAAAAAAAAAAAAAAAAAAAAAAAAAA";

fn contract_text(hash: [u8; 32]) -> String {
    stellar_strkey::Contract(hash).to_string().as_str().to_string()
}

fn usdc_hash() -> Vec<u8> {
    vec![2u8; 32]
}

fn test_hash() -> Vec<u8> {
    vec![3u8; 32]
}

fn registry() -> Registry {
    let usdc = SwapAsset {
        code: "USDC".to_string(),
        issuer: USDC_ISSUER.to_string(),
        contract: contract_text([2u8; 32]),
    };
    let token = SwapAsset {
        code: "TEST".to_string(),
        issuer: TEST_ISSUER.to_string(),
        contract: contract_text([3u8; 32]),
    };
    Registry::new(usdc.clone(), vec![usdc, token], Vec::new())
}

fn router_hash() -> Vec<u8> {
    stellar_strkey::Contract::from_string(SOROSWAP_ROUTER).unwrap().0.to_vec()
}

fn amount(value: u64) -> EventValue {
    EventValue::I128 { hi: 0, lo: value }
}

fn swap_event(path: Vec<EventValue>, amounts: Vec<EventValue>) -> ContractEventIn {
    ContractEventIn {
        contract_id: router_hash(),
        topics: vec![EventValue::Symbol("swap".to_string())],
        data: EventValue::MapEntries(vec![
            EventMapEntry { key: "path".to_string(), val: EventValue::List(path) },
            EventMapEntry { key: "amounts".to_string(), val: EventValue::List(amounts) },
        ]),
    }
}

#[test]
fn strkey_encoding_round_trips() {
    let encoded = hash_to_strkey(&router_hash());
    assert_eq!(encoded, SOROSWAP_ROUTER);
    assert_eq!(encoded.len(), 56);
    // A different hash encodes differently: the wrapper cannot be a
    // pass-through of its argument.
    assert_ne!(hash_to_strkey(&usdc_hash()), hash_to_strkey(&test_hash()));
}

#[test]
fn native_contract_address_matches_chain_constant() {
    let native_hash = stellar_strkey::Contract::from_string(XLM_ADDRESS).unwrap().0.to_vec();
    assert_eq!(hash_to_strkey(&native_hash), XLM_ADDRESS);
}

#[test]
fn router_swap_event_yields_swaps() {
    let reg = registry();
    let event = swap_event(
        vec![
            EventValue::Address(usdc_hash()),
            EventValue::Address(test_hash()),
        ],
        vec![amount(100), amount(200)],
    );
    let swaps = soroswap_swaps(&vec![event], &reg);
    assert_eq!(swaps.len(), 1);
    assert_eq!(swaps[0].usdc_amount, 100);
    assert_eq!(swaps[0].floating_asset_code, "TEST");
    assert_eq!(swaps[0].price_numerator, 200);
    assert_eq!(swaps[0].price_denominator, 100);
}

#[test]
fn multi_hop_path_yields_one_claim_per_pair() {
    let reg = registry();
    // TEST -> USDC -> TEST: two claims, each with one stablecoin side.
    let event = swap_event(
        vec![
            EventValue::Address(test_hash()),
            EventValue::Address(usdc_hash()),
            EventValue::Address(test_hash()),
        ],
        vec![amount(300), amount(60), amount(90)],
    );
    let swaps = soroswap_swaps(&vec![event], &reg);
    assert_eq!(swaps.len(), 2);
    assert_eq!(swaps[0].usdc_amount, 60);
    assert_eq!(swaps[0].price_numerator, 300);
    assert_eq!(swaps[1].usdc_amount, 60);
    assert_eq!(swaps[1].price_numerator, 90);
}

#[test]
fn events_from_other_contracts_are_ignored() {
    let reg = registry();
    let mut event = swap_event(
        vec![EventValue::Address(usdc_hash()), EventValue::Address(test_hash())],
        vec![amount(100), amount(200)],
    );
    event.contract_id = vec![9u8; 32];
    assert_eq!(soroswap_swaps(&vec![event], &reg).len(), 0);
}

#[test]
fn events_without_swap_topic_are_ignored() {
    let reg = registry();
    let mut event = swap_event(
        vec![EventValue::Address(usdc_hash()), EventValue::Address(test_hash())],
        vec![amount(100), amount(200)],
    );
    event.topics = vec![EventValue::Symbol("deposit".to_string())];
    assert_eq!(soroswap_swaps(&vec![event], &reg).len(), 0);
}

#[test]
fn malformed_event_does_not_abort_the_batch() {
    let reg = registry();
    let broken = ContractEventIn {
        contract_id: router_hash(),
        topics: vec![EventValue::Symbol("swap".to_string())],
        data: EventValue::Other,
    };
    let good = swap_event(
        vec![EventValue::Address(usdc_hash()), EventValue::Address(test_hash())],
        vec![amount(100), amount(200)],
    );
    let swaps = soroswap_swaps(&vec![broken, good], &reg);
    assert_eq!(swaps.len(), 1);
}

#[test]
fn out_of_range_amounts_are_dropped() {
    let reg = registry();
    // hi = 1 puts the 128-bit amount beyond 64-bit range.
    let event = swap_event(
        vec![EventValue::Address(usdc_hash()), EventValue::Address(test_hash())],
        vec![EventValue::I128 { hi: 1, lo: 0 }, amount(200)],
    );
    assert_eq!(soroswap_swaps(&vec![event], &reg).len(), 0);
}

#[test]
fn aggregated_event_swaps_carry_scaled_rates() {
    let reg = registry();
    let event = swap_event(
        vec![EventValue::Address(usdc_hash()), EventValue::Address(test_hash())],
        vec![amount(100), amount(200)],
    );
    let swaps = soroswap_swaps(&vec![event], &reg);
    let entries = stellar_rates::rates::calculate_rates(&swaps);
    assert_eq!(entries.len(), 1);
    assert_eq!(entries[0].rate, 2 * RATE_SCALE as u128);
}
