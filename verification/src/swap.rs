//! The canonical swap record and the classifier that produces it.
//!
//! A claim becomes a [`Swap`] exactly when one side — and only one — is
//! the reference stablecoin, the counter-asset resolves to an eligible
//! token, both amounts are positive, and the implied price is not the
//! degenerate sentinel rate.

use vstd::prelude::*;

use crate::asset::{build_nonnative_swap_asset, contract_strkey_of, get_swap_asset,
    hash_to_strkey, spec_asset_of_contract, spec_build_nonnative, Registry, SwapAsset};
use crate::model::{ClaimAsset, ElementaryClaim};

verus! {

/// A classified trade: how much of the stablecoin changed hands against
/// which asset, and the price as an exact ratio of the two raw amounts.
/// The rate `price_numerator / price_denominator` is expressed in
/// floating-asset units per stablecoin unit.
pub struct Swap {
    /// When the swap was persisted; set by the store, absent until then.
    pub created_at: Option<u64>,
    /// The stablecoin side's amount, in base units.
    pub usdc_amount: i64,
    pub floating_asset_code: String,
    pub floating_asset_issuer: String,
    pub price_numerator: i64,
    pub price_denominator: i64,
}

/// Ghost image of a [`Swap`].
pub ghost struct SwapView {
    pub created_at: Option<u64>,
    pub usdc_amount: int,
    pub floating_asset_code: Seq<char>,
    pub floating_asset_issuer: Seq<char>,
    pub price_numerator: int,
    pub price_denominator: int,
}

impl View for Swap {
    type V = SwapView;

    open spec fn view(&self) -> SwapView {
        SwapView {
            created_at: self.created_at,
            usdc_amount: self.usdc_amount as int,
            floating_asset_code: self.floating_asset_code@,
            floating_asset_issuer: self.floating_asset_issuer@,
            price_numerator: self.price_numerator as int,
            price_denominator: self.price_denominator as int,
        }
    }
}

impl Clone for Swap {
    fn clone(&self) -> (r: Self)
        ensures
            r == *self,
    {
        Swap {
            created_at: self.created_at,
            usdc_amount: self.usdc_amount,
            floating_asset_code: self.floating_asset_code.clone(),
            floating_asset_issuer: self.floating_asset_issuer.clone(),
            price_numerator: self.price_numerator,
            price_denominator: self.price_denominator,
        }
    }
}

impl Swap {
    /// A swap the aggregator can consume: positive volume and a positive,
    /// well-defined price ratio.
    pub open spec fn valid(self) -> bool {
        self.usdc_amount > 0 && self.price_numerator > 0 && self.price_denominator > 0
    }
}

/// The asset a claim side resolves to, if it is eligible at all.
pub open spec fn spec_resolve_claim_asset(registry: Registry, side: ClaimAsset) -> Option<
    SwapAsset,
> {
    match side {
        ClaimAsset::Native => Some(registry.native),
        ClaimAsset::Issued { code, issuer } => spec_build_nonnative(registry, code@, issuer@),
        ClaimAsset::Pool { contract } => if contract@.len() == 32 {
            spec_asset_of_contract(registry, contract_strkey_of(contract@))
        } else {
            None
        },
    }
}

/// Whether a resolved side is the reference stablecoin.
pub open spec fn resolved_is_stablecoin(registry: Registry, r: Option<SwapAsset>) -> bool {
    match r {
        Some(a) => a@ == registry.stablecoin@,
        None => false,
    }
}

/// The degenerate sentinel: an exact price of one base unit, which arises
/// from zero-priced native-asset edge cases and is never aggregated.
pub open spec fn is_sentinel_rate(numerator: int, denominator: int) -> bool {
    numerator * (crate::RATE_SCALE as int) == denominator
}

/// Whether a claim qualifies as a swap: both amounts positive, exactly
/// one side the reference stablecoin, the counter-asset eligible, and the
/// implied price not the sentinel.
pub open spec fn claim_qualifies(registry: Registry, claim: ElementaryClaim) -> bool {
    let sold = spec_resolve_claim_asset(registry, claim.asset_sold);
    let bought = spec_resolve_claim_asset(registry, claim.asset_bought);
    &&& claim.amount_sold > 0
    &&& claim.amount_bought > 0
    &&& if resolved_is_stablecoin(registry, sold) {
        &&& !resolved_is_stablecoin(registry, bought)
        &&& bought is Some
        &&& !is_sentinel_rate(claim.amount_bought as int, claim.amount_sold as int)
    } else {
        &&& resolved_is_stablecoin(registry, bought)
        &&& sold is Some
        &&& !is_sentinel_rate(claim.amount_sold as int, claim.amount_bought as int)
    }
}

/// The swap a qualifying claim maps to: the stablecoin side gives the
/// volume, the other side the asset, and the price is the exact ratio of
/// the counter-amount to the stablecoin amount.
pub open spec fn spec_classify(registry: Registry, claim: ElementaryClaim) -> Option<SwapView> {
    if claim_qualifies(registry, claim) {
        let sold = spec_resolve_claim_asset(registry, claim.asset_sold);
        let bought = spec_resolve_claim_asset(registry, claim.asset_bought);
        if resolved_is_stablecoin(registry, sold) {
            Some(
                SwapView {
                    created_at: None,
                    usdc_amount: claim.amount_sold as int,
                    floating_asset_code: bought->0@.code,
                    floating_asset_issuer: bought->0@.issuer,
                    price_numerator: claim.amount_bought as int,
                    price_denominator: claim.amount_sold as int,
                },
            )
        } else {
            Some(
                SwapView {
                    created_at: None,
                    usdc_amount: claim.amount_bought as int,
                    floating_asset_code: sold->0@.code,
                    floating_asset_issuer: sold->0@.issuer,
                    price_numerator: claim.amount_sold as int,
                    price_denominator: claim.amount_bought as int,
                },
            )
        }
    } else {
        None
    }
}

/// Resolves one side of a claim against the registry.
fn resolve_claim_asset(side: &ClaimAsset, registry: &Registry) -> (r: Option<SwapAsset>)
    ensures
        r == spec_resolve_claim_asset(*registry, *side),
{
    match side {
        ClaimAsset::Native => Some(registry.native.clone()),
        ClaimAsset::Issued { code, issuer } => build_nonnative_swap_asset(code, issuer, registry),
        ClaimAsset::Pool { contract } => {
            if contract.len() == 32 {
                let address = hash_to_strkey(contract);
                get_swap_asset(&address, registry)
            } else {
                None
            }
        },
    }
}

/// Whether a resolved side equals the registry's stablecoin.
fn is_stablecoin_asset(asset: &SwapAsset, registry: &Registry) -> (r: bool)
    ensures
        r == (asset@ == registry.stablecoin@),
{
    crate::text::string_eq(&asset.code, &registry.stablecoin.code)
        && crate::text::string_eq(&asset.issuer, &registry.stablecoin.issuer)
        && crate::text::string_eq(&asset.contract, &registry.stablecoin.contract)
}

/// Whether `numerator / denominator` is exactly the sentinel rate.
fn is_sentinel(numerator: i64, denominator: i64) -> (r: bool)
    ensures
        r == is_sentinel_rate(numerator as int, denominator as int),
{
    (numerator as i128) * (crate::RATE_SCALE as i128) == (denominator as i128)
}

/// Classifies one elementary claim, emitting a swap exactly when the
/// claim qualifies: both amounts positive, exactly one side the reference
/// stablecoin, an eligible counter-asset, and a non-sentinel price.
pub fn classify_claim(claim: &ElementaryClaim, registry: &Registry) -> (r: Option<Swap>)
    ensures
        r is Some <==> claim_qualifies(*registry, *claim),
        match r {
            Some(swap) => Some(swap@) == spec_classify(*registry, *claim) && swap.valid()
                && swap.created_at is None,
            None => spec_classify(*registry, *claim) is None,
        },
{
    if claim.amount_sold <= 0 || claim.amount_bought <= 0 {
        return None;
    }
    let sold = resolve_claim_asset(&claim.asset_sold, registry);
    let bought = resolve_claim_asset(&claim.asset_bought, registry);
    let sold_is_stable = match &sold {
        Some(a) => is_stablecoin_asset(a, registry),
        None => false,
    };
    let bought_is_stable = match &bought {
        Some(a) => is_stablecoin_asset(a, registry),
        None => false,
    };
    if sold_is_stable {
        if bought_is_stable {
            return None;
        }
        match bought {
            Some(counter) => {
                if is_sentinel(claim.amount_bought, claim.amount_sold) {
                    None
                } else {
                    Some(
                        Swap {
                            created_at: None,
                            usdc_amount: claim.amount_sold,
                            floating_asset_code: counter.code,
                            floating_asset_issuer: counter.issuer,
                            price_numerator: claim.amount_bought,
                            price_denominator: claim.amount_sold,
                        },
                    )
                }
            },
            None => None,
        }
    } else {
        if !bought_is_stable {
            return None;
        }
        match sold {
            Some(counter) => {
                if is_sentinel(claim.amount_sold, claim.amount_bought) {
                    None
                } else {
                    Some(
                        Swap {
                            created_at: None,
                            usdc_amount: claim.amount_bought,
                            floating_asset_code: counter.code,
                            floating_asset_issuer: counter.issuer,
                            price_numerator: claim.amount_sold,
                            price_denominator: claim.amount_bought,
                        },
                    )
                }
            },
            None => None,
        }
    }
}

/// Whether two claim sides name the same asset, comparing buffers and
/// texts by content.
pub open spec fn same_claim_asset(a: ClaimAsset, b: ClaimAsset) -> bool {
    match (a, b) {
        (ClaimAsset::Native, ClaimAsset::Native) => true,
        (
            ClaimAsset::Issued { code: c1, issuer: i1 },
            ClaimAsset::Issued { code: c2, issuer: i2 },
        ) => c1@ == c2@ && i1@ == i2@,
        (ClaimAsset::Pool { contract: p1 }, ClaimAsset::Pool { contract: p2 }) => p1@ == p2@,
        _ => false,
    }
}

/// Whether two claims agree in content.
pub open spec fn same_claim(a: ElementaryClaim, b: ElementaryClaim) -> bool {
    same_claim_asset(a.asset_sold, b.asset_sold) && same_claim_asset(
        a.asset_bought,
        b.asset_bought,
    ) && a.amount_sold == b.amount_sold && a.amount_bought == b.amount_bought
}

/// Resolution reads a claim side only through its content, so sides that
/// agree in content resolve alike.
pub proof fn lemma_resolve_congruent(registry: Registry, a: ClaimAsset, b: ClaimAsset)
    requires
        same_claim_asset(a, b),
    ensures
        spec_resolve_claim_asset(registry, a) == spec_resolve_claim_asset(registry, b),
{
}

/// Classification reads a claim only through its content, so claims that
/// agree in content classify alike.
pub proof fn lemma_classify_congruent(registry: Registry, a: ElementaryClaim, b: ElementaryClaim)
    requires
        same_claim(a, b),
    ensures
        spec_classify(registry, a) == spec_classify(registry, b),
{
    lemma_resolve_congruent(registry, a.asset_sold, b.asset_sold);
    lemma_resolve_congruent(registry, a.asset_bought, b.asset_bought);
}

} // verus!
