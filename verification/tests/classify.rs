use stellar_rates::asset::{
    build_nonnative_swap_asset, format_nonnative_asset, is_certified_asset, Registry, SwapAsset,
};
use stellar_rates::model::{ClaimAsset, ElementaryClaim};
use stellar_rates::shared::normalize_issuer;
use stellar_rates::swap::classify_claim;
use stellar_rates::text::bytes_to_string;

const USDC_ISSUER: &str = "GA5ZSEJYB37JRC5AVCIA5MOP4RHTM335X2KGX3IHOJAPP5RE34K4KZVN";
const USDC_CONTRACT: &str = "CCW67TSZV3SSS2HXMBQ5JFGCKJNXKZM7UQUWUZPUTHXSTZLEO7SJMI75";
const TEST_ISSUER: &str = "GTESTISSUERAAAAAAAAAAAAAAAAAAAAAAAAAAAAAAAAAAAAAAAAAAAA";
const TEST_CONTRACT: &str = "CTESTCONTRACTAAAAAAAAAAAAAAAAAAAAAAAAAAAAAAAAAAAAAAAAAA";
const SCAM_ISSUER: &str = "GSCAMISSUERAAAAAAAAAAAAAAAAAAAAAAAAAAAAAAAAAAAAAAAAAAAA";

fn usdc() -> SwapAsset {
    SwapAsset {
        code: "USDC".to_string(),
        issuer: USDC_ISSUER.to_string(),
        contract: USDC_CONTRACT.to_string(),
    }
}

fn test_token() -> SwapAsset {
    SwapAsset {
        code: "TEST".to_string(),
        issuer: TEST_ISSUER.to_string(),
        contract: TEST_CONTRACT.to_string(),
    }
}

fn registry() -> Registry {
    Registry::new(
        usdc(),
        vec![usdc(), test_token()],
        vec![SCAM_ISSUER.to_string()],
    )
}

fn usdc_side() -> ClaimAsset {
    ClaimAsset::Issued { code: b"USDC".to_vec(), issuer: USDC_ISSUER.to_string() }
}

fn test_side() -> ClaimAsset {
    ClaimAsset::Issued { code: b"TEST".to_vec(), issuer: TEST_ISSUER.to_string() }
}

#[test]
fn stablecoin_sale_becomes_swap() {
    let reg = registry();
    let claim = ElementaryClaim {
        asset_sold: usdc_side(),
        amount_sold: 100,
        asset_bought: test_side(),
        amount_bought: 200,
    };
    let swap = classify_claim(&claim, &reg).expect("qualifying claim");
    assert_eq!(swap.usdc_amount, 100);
    assert_eq!(swap.floating_asset_code, "TEST");
    assert_eq!(swap.floating_asset_issuer, TEST_ISSUER);
    assert_eq!(swap.price_numerator, 200);
    assert_eq!(swap.price_denominator, 100);
    assert!(swap.created_at.is_none());
}

#[test]
fn stablecoin_purchase_becomes_swap() {
    let reg = registry();
    let claim = ElementaryClaim {
        asset_sold: test_side(),
        amount_sold: 300,
        asset_bought: usdc_side(),
        amount_bought: 60,
    };
    let swap = classify_claim(&claim, &reg).expect("qualifying claim");
    assert_eq!(swap.usdc_amount, 60);
    assert_eq!(swap.floating_asset_code, "TEST");
    assert_eq!(swap.price_numerator, 300);
    assert_eq!(swap.price_denominator, 60);
}

#[test]
fn both_sides_stablecoin_rejected() {
    let reg = registry();
    let claim = ElementaryClaim {
        asset_sold: usdc_side(),
        amount_sold: 10,
        asset_bought: usdc_side(),
        amount_bought: 10,
    };
    assert!(classify_claim(&claim, &reg).is_none());
}

#[test]
fn neither_side_stablecoin_rejected() {
    let reg = registry();
    let claim = ElementaryClaim {
        asset_sold: test_side(),
        amount_sold: 10,
        asset_bought: ClaimAsset::Native,
        amount_bought: 10,
    };
    assert!(classify_claim(&claim, &reg).is_none());
}

#[test]
fn blocklisted_issuer_rejected() {
    let reg = registry();
    let scam = ClaimAsset::Issued { code: b"TEST".to_vec(), issuer: SCAM_ISSUER.to_string() };
    let claim = ElementaryClaim {
        asset_sold: usdc_side(),
        amount_sold: 10,
        asset_bought: scam,
        amount_bought: 10,
    };
    assert!(classify_claim(&claim, &reg).is_none());
}

#[test]
fn unlisted_counter_asset_rejected() {
    let reg = registry();
    let unknown = ClaimAsset::Issued { code: b"WXYZ".to_vec(), issuer: TEST_ISSUER.to_string() };
    let claim = ElementaryClaim {
        asset_sold: usdc_side(),
        amount_sold: 10,
        asset_bought: unknown,
        amount_bought: 10,
    };
    assert!(classify_claim(&claim, &reg).is_none());
}

#[test]
fn nonnative_xlm_collision_rejected() {
    let reg = registry();
    let fake_xlm = ClaimAsset::Issued { code: b"XLM".to_vec(), issuer: TEST_ISSUER.to_string() };
    let claim = ElementaryClaim {
        asset_sold: usdc_side(),
        amount_sold: 10,
        asset_bought: fake_xlm,
        amount_bought: 10,
    };
    assert!(classify_claim(&claim, &reg).is_none());
}

#[test]
fn native_counter_asset_accepted() {
    let reg = registry();
    let claim = ElementaryClaim {
        asset_sold: ClaimAsset::Native,
        amount_sold: 70,
        asset_bought: usdc_side(),
        amount_bought: 35,
    };
    let swap = classify_claim(&claim, &reg).expect("native swap");
    assert_eq!(swap.floating_asset_code, "XLM");
    assert_eq!(swap.floating_asset_issuer, "Native");
    assert_eq!(swap.usdc_amount, 35);
}

#[test]
fn sentinel_rate_rejected() {
    let reg = registry();
    // bought * 10_000_000 == sold: the exact degenerate price.
    let claim = ElementaryClaim {
        asset_sold: usdc_side(),
        amount_sold: 10_000_000,
        asset_bought: test_side(),
        amount_bought: 1,
    };
    assert!(classify_claim(&claim, &reg).is_none());
    // One base unit more and the claim qualifies again.
    let near = ElementaryClaim {
        asset_sold: usdc_side(),
        amount_sold: 10_000_001,
        asset_bought: test_side(),
        amount_bought: 1,
    };
    assert!(classify_claim(&near, &reg).is_some());
}

#[test]
fn nonpositive_amounts_rejected() {
    let reg = registry();
    let claim = ElementaryClaim {
        asset_sold: usdc_side(),
        amount_sold: 0,
        asset_bought: test_side(),
        amount_bought: 10,
    };
    assert!(classify_claim(&claim, &reg).is_none());
    let claim2 = ElementaryClaim {
        asset_sold: usdc_side(),
        amount_sold: 10,
        asset_bought: test_side(),
        amount_bought: -5,
    };
    assert!(classify_claim(&claim2, &reg).is_none());
}

#[test]
fn format_nonnative_asset_keeps_letters() {
    assert_eq!(format_nonnative_asset(&b"USDC".to_vec()), "USDC");
    assert_eq!(format_nonnative_asset(&b"USD1\0\0".to_vec()), "USD");
    assert_eq!(format_nonnative_asset(&b"a-B_c9".to_vec()), "aBc");
}

#[test]
fn invalid_utf8_code_is_unreadable() {
    assert_eq!(bytes_to_string(&vec![0xff, 0xfe]), "Unreadable");
    assert_eq!(format_nonnative_asset(&vec![0xff, 0xfe]), "Unreadable");
}

#[test]
fn build_nonnative_looks_up_registry() {
    let reg = registry();
    let found = build_nonnative_swap_asset(
        &b"TEST".to_vec(),
        &TEST_ISSUER.to_string(),
        &reg,
    )
    .expect("listed token");
    assert_eq!(found.contract, TEST_CONTRACT);
    assert!(build_nonnative_swap_asset(&b"TEST".to_vec(), &SCAM_ISSUER.to_string(), &reg)
        .is_none());
}

#[test]
fn normalize_issuer_forces_native() {
    assert_eq!(
        normalize_issuer(&"XLM".to_string(), &Some("GWHO".to_string())),
        Some("Native".to_string())
    );
    assert_eq!(
        normalize_issuer(&"TEST".to_string(), &Some("GISS".to_string())),
        Some("GISS".to_string())
    );
    assert_eq!(normalize_issuer(&"TEST".to_string(), &None), None);
}

#[test]
fn certified_assets_are_native_or_listed() {
    let reg = registry();
    assert!(is_certified_asset(&"XLM".to_string(), &"Native".to_string(), &reg));
    assert!(is_certified_asset(&"TEST".to_string(), &TEST_ISSUER.to_string(), &reg));
    assert!(!is_certified_asset(&"TEST".to_string(), &"GELSEWHERE".to_string(), &reg));
}
