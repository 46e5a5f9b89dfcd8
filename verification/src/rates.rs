//! The swap aggregator: folds a batch of swaps into one volume-weighted
//! rate per asset.
//!
//! Arithmetic is exact and integer-valued. Each swap contributes its
//! stablecoin volume `v` and its price scaled to fixed point,
//! `rs = (numerator * RATE_SCALE) / denominator`; per asset the fold
//! accumulates `sum(v * rs)` and `sum(v)`, and the emitted rate is their
//! quotient. An asset whose exact sums exceed the 128-bit accumulator is
//! skipped — the integer analogue of the original's non-finite guard —
//! and every other asset is unaffected.

use vstd::prelude::*;

use crate::swap::Swap;

verus! {

/// One aggregated rate: the asset, its volume-weighted fixed-point rate,
/// and the total stablecoin volume behind it.
pub struct RateEntry {
    pub floatcode: String,
    pub fltissuer: String,
    /// Fixed-point rate: floating-asset base units per stablecoin base
    /// unit, times [`crate::RATE_SCALE`].
    pub rate: u128,
    /// Total stablecoin volume, in base units.
    pub volume: u128,
}

/// Ghost image of a [`RateEntry`].
pub ghost struct RateEntryView {
    pub floatcode: Seq<char>,
    pub fltissuer: Seq<char>,
    pub rate: int,
    pub volume: int,
}

impl View for RateEntry {
    type V = RateEntryView;

    open spec fn view(&self) -> RateEntryView {
        RateEntryView {
            floatcode: self.floatcode@,
            fltissuer: self.fltissuer@,
            rate: self.rate as int,
            volume: self.volume as int,
        }
    }
}

impl Clone for RateEntry {
    fn clone(&self) -> (r: Self)
        ensures
            r == *self,
    {
        RateEntry {
            floatcode: self.floatcode.clone(),
            fltissuer: self.fltissuer.clone(),
            rate: self.rate,
            volume: self.volume,
        }
    }
}

/// The views of a sequence of rate entries.
pub open spec fn entry_views(s: Seq<RateEntry>) -> Seq<RateEntryView> {
    s.map_values(|x: RateEntry| x@)
}

/// The asset a swap belongs to, as a code/issuer pair of texts.
pub open spec fn swap_key(s: Swap) -> (Seq<char>, Seq<char>) {
    (s.floating_asset_code@, s.floating_asset_issuer@)
}

/// A swap's price in fixed point: floating units per stablecoin unit,
/// scaled by [`crate::RATE_SCALE`] and rounded down.
pub open spec fn scaled_rate(s: Swap) -> int {
    (s.price_numerator * (crate::RATE_SCALE as int)) / (s.price_denominator as int)
}

/// A swap's contribution to its asset's weighted sum.
pub open spec fn contribution(s: Swap) -> int {
    s.usdc_amount * scaled_rate(s)
}

/// Whether every swap of the batch is well-formed.
pub open spec fn all_valid(swaps: Seq<Swap>) -> bool {
    forall|i: int| 0 <= i < swaps.len() ==> (#[trigger] swaps[i]).valid()
}

/// The exact weighted sum `sum(v_i * rs_i)` of the batch's swaps of one
/// asset.
pub open spec fn wsum(swaps: Seq<Swap>, key: (Seq<char>, Seq<char>)) -> int
    decreases swaps.len(),
{
    if swaps.len() == 0 {
        0
    } else {
        wsum(swaps.drop_last(), key) + if swap_key(swaps.last()) == key {
            contribution(swaps.last())
        } else {
            0
        }
    }
}

/// The exact total volume `sum(v_i)` of the batch's swaps of one asset.
pub open spec fn vol(swaps: Seq<Swap>, key: (Seq<char>, Seq<char>)) -> int
    decreases swaps.len(),
{
    if swaps.len() == 0 {
        0
    } else {
        vol(swaps.drop_last(), key) + if swap_key(swaps.last()) == key {
            swaps.last().usdc_amount as int
        } else {
            0
        }
    }
}

/// The batch's distinct asset keys, in order of first occurrence.
pub open spec fn keys_in_order(swaps: Seq<Swap>) -> Seq<(Seq<char>, Seq<char>)>
    decreases swaps.len(),
{
    if swaps.len() == 0 {
        Seq::empty()
    } else {
        let prev = keys_in_order(swaps.drop_last());
        if prev.contains(swap_key(swaps.last())) {
            prev
        } else {
            prev.push(swap_key(swaps.last()))
        }
    }
}

/// Whether an asset's exact sums fit the 128-bit accumulators.
pub open spec fn fits(swaps: Seq<Swap>, key: (Seq<char>, Seq<char>)) -> bool {
    wsum(swaps, key) <= u128::MAX && vol(swaps, key) <= u128::MAX
}

/// The rate entry one asset aggregates to.
pub open spec fn rate_entry_for(swaps: Seq<Swap>, key: (Seq<char>, Seq<char>)) -> RateEntryView {
    RateEntryView {
        floatcode: key.0,
        fltissuer: key.1,
        rate: wsum(swaps, key) / vol(swaps, key),
        volume: vol(swaps, key),
    }
}

/// The entries a batch aggregates to for a given key order, skipping the
/// assets whose sums do not fit.
pub open spec fn rates_for_keys(swaps: Seq<Swap>, keys: Seq<(Seq<char>, Seq<char>)>) -> Seq<
    RateEntryView,
>
    decreases keys.len(),
{
    if keys.len() == 0 {
        Seq::empty()
    } else {
        rates_for_keys(swaps, keys.drop_last()) + if fits(swaps, keys.last()) {
            seq![rate_entry_for(swaps, keys.last())]
        } else {
            Seq::empty()
        }
    }
}

/// What a batch of swaps aggregates to: one entry per distinct asset in
/// first-occurrence order, each carrying the exact weighted-average rate
/// and total volume, assets with overlarge sums skipped.
pub open spec fn spec_rates(swaps: Seq<Swap>) -> Seq<RateEntryView> {
    rates_for_keys(swaps, keys_in_order(swaps))
}

/// Every key of the order list is distinct.
pub proof fn lemma_keys_distinct(swaps: Seq<Swap>)
    ensures
        forall|i: int, j: int|
            0 <= i < j < keys_in_order(swaps).len() ==> keys_in_order(swaps)[i] != keys_in_order(
                swaps,
            )[j],
    decreases swaps.len(),
{
    if swaps.len() > 0 {
        lemma_keys_distinct(swaps.drop_last());
        let prev = keys_in_order(swaps.drop_last());
        let k = swap_key(swaps.last());
        if !prev.contains(k) {
            let ks = keys_in_order(swaps);
            assert(ks == prev.push(k));
            assert forall|i: int, j: int| 0 <= i < j < ks.len() implies ks[i] != ks[j] by {
                if j < prev.len() {
                    assert(prev[i] == ks[i] && prev[j] == ks[j]);
                } else {
                    assert(ks[j] == k);
                    assert(ks[i] == prev[i]);
                    if ks[i] == k {
                        assert(prev.contains(k));
                    }
                }
            }
        }
    }
}

/// A valid batch's sums are never negative.
pub proof fn lemma_sums_nonneg(swaps: Seq<Swap>, key: (Seq<char>, Seq<char>))
    requires
        all_valid(swaps),
    ensures
        wsum(swaps, key) >= 0,
        vol(swaps, key) >= 0,
    decreases swaps.len(),
{
    if swaps.len() > 0 {
        assert(all_valid(swaps.drop_last())) by {
            assert(forall|i: int|
                0 <= i < swaps.len() - 1 ==> swaps.drop_last()[i] == swaps[i]);
        }
        lemma_sums_nonneg(swaps.drop_last(), key);
        let s = swaps.last();
        assert(s.valid());
        if swap_key(s) == key {
            assert(scaled_rate(s) >= 0) by {
                assert(s.price_numerator * (crate::RATE_SCALE as int) >= 0) by (nonlinear_arith)
                    requires
                        s.price_numerator > 0,
                ;
                vstd::arithmetic::div_mod::lemma_div_pos_is_pos(
                    s.price_numerator * (crate::RATE_SCALE as int),
                    s.price_denominator as int,
                );
            }
            assert(contribution(s) >= 0) by (nonlinear_arith)
                requires
                    s.usdc_amount > 0,
                    scaled_rate(s) >= 0,
            ;
        }
    }
}

/// A key the batch never mentions accumulates nothing.
pub proof fn lemma_absent_key_zero(swaps: Seq<Swap>, key: (Seq<char>, Seq<char>))
    requires
        !keys_in_order(swaps).contains(key),
    ensures
        wsum(swaps, key) == 0,
        vol(swaps, key) == 0,
    decreases swaps.len(),
{
    if swaps.len() > 0 {
        let prev = keys_in_order(swaps.drop_last());
        assert(!prev.contains(key)) by {
            if prev.contains(key) {
                let i = choose|i: int| 0 <= i < prev.len() && prev[i] == key;
                assert(keys_in_order(swaps)[i] == key);
                assert(keys_in_order(swaps).contains(key));
            }
        }
        lemma_absent_key_zero(swaps.drop_last(), key);
        assert(swap_key(swaps.last()) != key) by {
            if swap_key(swaps.last()) == key {
                let ks = keys_in_order(swaps);
                assert(ks.contains(key)) by {
                    if prev.contains(key) {
                    } else {
                        assert(ks == prev.push(key));
                        assert(ks[ks.len() - 1] == key);
                    }
                }
            }
        }
    }
}

/// An asset that occurs in a valid batch has positive volume.
pub proof fn lemma_vol_pos(swaps: Seq<Swap>, key: (Seq<char>, Seq<char>))
    requires
        all_valid(swaps),
        keys_in_order(swaps).contains(key),
    ensures
        vol(swaps, key) >= 1,
    decreases swaps.len(),
{
    assert(swaps.len() > 0);
    let prev_swaps = swaps.drop_last();
    assert(all_valid(prev_swaps)) by {
        assert(forall|i: int| 0 <= i < swaps.len() - 1 ==> prev_swaps[i] == swaps[i]);
    }
    let s = swaps.last();
    if swap_key(s) == key {
        lemma_sums_nonneg(prev_swaps, key);
        assert(s.valid());
    } else {
        let prev = keys_in_order(prev_swaps);
        assert(prev.contains(key)) by {
            let ks = keys_in_order(swaps);
            let i = choose|i: int| 0 <= i < ks.len() && ks[i] == key;
            if prev.contains(swap_key(s)) {
                assert(prev[i] == key);
            } else {
                assert(ks == prev.push(swap_key(s)));
                if i < prev.len() {
                    assert(prev[i] == key);
                } else {
                    assert(ks[i] == swap_key(s));
                }
            }
        }
        lemma_vol_pos(prev_swaps, key);
    }
}

/// A valid swap's scaled rate and contribution are never negative.
pub proof fn lemma_contribution_nonneg(s: Swap)
    requires
        s.valid(),
    ensures
        scaled_rate(s) >= 0,
        contribution(s) >= 0,
{
    assert(s.price_numerator * (crate::RATE_SCALE as int) >= 0) by (nonlinear_arith)
        requires
            s.price_numerator > 0,
    ;
    vstd::arithmetic::div_mod::lemma_div_pos_is_pos(
        s.price_numerator * (crate::RATE_SCALE as int),
        s.price_denominator as int,
    );
    assert(contribution(s) >= 0) by (nonlinear_arith)
        requires
            s.usdc_amount > 0,
            scaled_rate(s) >= 0,
    ;
}

/// One running per-asset accumulator of the fold.
struct AccEntry {
    floatcode: String,
    fltissuer: String,
    weighted_sum: u128,
    volume: u128,
    overflowed: bool,
}

/// The asset an accumulator entry belongs to.
spec fn acc_key(e: AccEntry) -> (Seq<char>, Seq<char>) {
    (e.floatcode@, e.fltissuer@)
}

/// The fold invariant: one accumulator entry per distinct asset of the
/// swaps seen so far, in first-occurrence order, each carrying the exact
/// sums unless they outgrew the accumulator.
spec fn acc_models(acc: Seq<AccEntry>, swaps: Seq<Swap>) -> bool {
    let keys = keys_in_order(swaps);
    &&& acc.len() == keys.len()
    &&& forall|j: int| 0 <= j < acc.len() ==> #[trigger] acc_key(acc[j]) == keys[j]
    &&& forall|j: int|
        0 <= j < acc.len() ==> ((#[trigger] acc[j].overflowed) <==> !fits(swaps, keys[j]))
    &&& forall|j: int|
        0 <= j < acc.len() && !(#[trigger] acc[j].overflowed) ==> acc[j].weighted_sum == wsum(
            swaps,
            keys[j],
        ) && acc[j].volume == vol(swaps, keys[j])
}

/// Computes a swap's fixed-point rate.
fn scaled_rate_exec(s: &Swap) -> (r: u128)
    requires
        s.valid(),
    ensures
        r as int == scaled_rate(*s),
{
    let n: u128 = (s.price_numerator as u128) * (crate::RATE_SCALE as u128);
    n / (s.price_denominator as u128)
}

/// Finds the accumulator entry of an asset, if one exists yet.
fn find_entry(acc: &Vec<AccEntry>, code: &String, issuer: &String) -> (r: Option<usize>)
    ensures
        match r {
            Some(j) => j < acc@.len() && acc_key(acc@[j as int]) == (code@, issuer@),
            None => forall|t: int| 0 <= t < acc@.len() ==> acc_key(acc@[t]) != (code@, issuer@),
        },
{
    let mut j: usize = 0;
    while j < acc.len()
        invariant
            j <= acc.len(),
            forall|t: int| 0 <= t < j ==> acc_key(acc@[t]) != (code@, issuer@),
        decreases acc.len() - j,
    {
        if crate::text::string_eq(&acc[j].floatcode, code) && crate::text::string_eq(
            &acc[j].fltissuer,
            issuer,
        ) {
            return Some(j);
        }
        j = j + 1;
    }
    None
}

/// Folds a batch of swaps into one volume-weighted rate per asset.
///
/// Entries come in first-occurrence order of their assets; each carries
/// the exact fixed-point weighted-average rate and the exact total
/// volume. An asset whose exact sums exceed the 128-bit accumulators is
/// skipped; the others are unaffected.
pub fn calculate_rates(swaps: &Vec<Swap>) -> (r: Vec<RateEntry>)
    requires
        all_valid(swaps@),
    ensures
        entry_views(r@) == spec_rates(swaps@),
        forall|j: int| 0 <= j < r@.len() ==> (#[trigger] r@[j]).volume > 0,
{
    let mut acc: Vec<AccEntry> = Vec::new();
    let mut i: usize = 0;
    proof {
        assert(swaps@.take(0) =~= Seq::<Swap>::empty());
        assert(acc_models(acc@, swaps@.take(0)));
    }
    while i < swaps.len()
        invariant
            i <= swaps.len(),
            all_valid(swaps@),
            acc_models(acc@, swaps@.take(i as int)),
        decreases swaps.len() - i,
    {
        let ghost pre = swaps@.take(i as int);
        let ghost post = swaps@.take(i + 1);
        let ghost keys_pre = keys_in_order(pre);
        proof {
            assert(post.drop_last() =~= pre);
            assert(post.last() == swaps@[i as int]);
            assert(swaps@[i as int].valid());
            lemma_keys_distinct(pre);
            assert(all_valid(pre)) by {
                assert(forall|t: int| 0 <= t < pre.len() ==> pre[t] == swaps@[t]);
            }
        }
        let s = &swaps[i];
        let ghost k = swap_key(*s);
        proof {
            lemma_contribution_nonneg(*s);
        }
        let rs = scaled_rate_exec(s);
        let v: u128 = s.usdc_amount as u128;
        let contrib_opt = v.checked_mul(rs);
        proof {
            assert(v as int * rs as int == contribution(*s)) by (nonlinear_arith)
                requires
                    v == s.usdc_amount as u128,
                    s.usdc_amount > 0,
                    rs as int == scaled_rate(*s),
                    contribution(*s) == s.usdc_amount * scaled_rate(*s),
            ;
        }
        match find_entry(&acc, &s.floating_asset_code, &s.floating_asset_issuer) {
            Some(j) => {
                proof {
                    assert(keys_pre[j as int] == k);
                    assert(keys_pre.contains(k));
                    assert(keys_in_order(post) == keys_pre);
                    lemma_sums_nonneg(pre, k);
                    assert(wsum(post, k) == wsum(pre, k) + contribution(*s));
                    assert(vol(post, k) == vol(pre, k) + s.usdc_amount);
                }
                let code_copy = acc[j].floatcode.clone();
                let issuer_copy = acc[j].fltissuer.clone();
                let old_ws = acc[j].weighted_sum;
                let old_vol = acc[j].volume;
                let old_over = acc[j].overflowed;
                let entry: AccEntry = if old_over {
                    AccEntry {
                        floatcode: code_copy,
                        fltissuer: issuer_copy,
                        weighted_sum: 0,
                        volume: 0,
                        overflowed: true,
                    }
                } else {
                    match contrib_opt {
                        Some(c) => match old_ws.checked_add(c) {
                            Some(ws2) => match old_vol.checked_add(v) {
                                Some(vol2) => AccEntry {
                                    floatcode: code_copy,
                                    fltissuer: issuer_copy,
                                    weighted_sum: ws2,
                                    volume: vol2,
                                    overflowed: false,
                                },
                                None => AccEntry {
                                    floatcode: code_copy,
                                    fltissuer: issuer_copy,
                                    weighted_sum: 0,
                                    volume: 0,
                                    overflowed: true,
                                },
                            },
                            None => AccEntry {
                                floatcode: code_copy,
                                fltissuer: issuer_copy,
                                weighted_sum: 0,
                                volume: 0,
                                overflowed: true,
                            },
                        },
                        None => AccEntry {
                            floatcode: code_copy,
                            fltissuer: issuer_copy,
                            weighted_sum: 0,
                            volume: 0,
                            overflowed: true,
                        },
                    }
                };
                acc.set(j, entry);
                proof {
                    assert forall|t: int|
                        0 <= t < acc@.len() && t != j implies wsum(post, keys_pre[t]) == wsum(
                            pre,
                            keys_pre[t],
                        ) && vol(post, keys_pre[t]) == vol(pre, keys_pre[t]) by {
                        if 0 <= t < acc@.len() && t != j {
                            assert(keys_pre[t] != k);
                        }
                    }
                    assert(acc_models(acc@, post));
                }
            },
            None => {
                proof {
                    assert(!keys_pre.contains(k)) by {
                        if keys_pre.contains(k) {
                            let t = choose|t: int|
                                0 <= t < keys_pre.len() && keys_pre[t] == k;
                            assert(acc_key(acc@[t]) == k);
                        }
                    }
                    lemma_absent_key_zero(pre, k);
                    assert(keys_in_order(post) == keys_pre.push(k));
                    assert(wsum(post, k) == contribution(*s));
                    assert(vol(post, k) == s.usdc_amount);
                }
                let entry: AccEntry = match contrib_opt {
                    Some(c) => AccEntry {
                        floatcode: s.floating_asset_code.clone(),
                        fltissuer: s.floating_asset_issuer.clone(),
                        weighted_sum: c,
                        volume: v,
                        overflowed: false,
                    },
                    None => AccEntry {
                        floatcode: s.floating_asset_code.clone(),
                        fltissuer: s.floating_asset_issuer.clone(),
                        weighted_sum: 0,
                        volume: 0,
                        overflowed: true,
                    },
                };
                acc.push(entry);
                proof {
                    let keys_post = keys_in_order(post);
                    assert forall|t: int|
                        0 <= t < keys_pre.len() implies wsum(post, keys_pre[t]) == wsum(
                            pre,
                            keys_pre[t],
                        ) && vol(post, keys_pre[t]) == vol(pre, keys_pre[t]) by {
                        if 0 <= t < keys_pre.len() {
                            assert(keys_pre.contains(keys_pre[t]));
                            assert(keys_pre[t] != k);
                        }
                    }
                    assert(acc_models(acc@, post));
                }
            },
        }
        i = i + 1;
    }
    proof {
        assert(swaps@.take(swaps@.len() as int) =~= swaps@);
    }
    let ghost keys = keys_in_order(swaps@);
    let mut out: Vec<RateEntry> = Vec::new();
    let mut j: usize = 0;
    proof {
        assert(keys.take(0) =~= Seq::<(Seq<char>, Seq<char>)>::empty());
        assert(entry_views(out@) =~= rates_for_keys(swaps@, keys.take(0)));
    }
    while j < acc.len()
        invariant
            j <= acc.len(),
            all_valid(swaps@),
            acc_models(acc@, swaps@),
            keys == keys_in_order(swaps@),
            entry_views(out@) == rates_for_keys(swaps@, keys.take(j as int)),
            forall|t: int| 0 <= t < out@.len() ==> (#[trigger] out@[t]).volume > 0,
        decreases acc.len() - j,
    {
        let ghost kj = keys[j as int];
        proof {
            assert(keys.take(j + 1).drop_last() =~= keys.take(j as int));
            assert(keys.take(j + 1).last() == kj);
        }
        if !acc[j].overflowed {
            proof {
                assert(fits(swaps@, kj));
                assert(keys.contains(kj));
                lemma_vol_pos(swaps@, kj);
                assert(acc_key(acc@[j as int]) == kj);
                assert(acc@[j as int].weighted_sum == wsum(swaps@, kj));
                assert(acc@[j as int].volume == vol(swaps@, kj));
                assert(acc@[j as int].volume > 0);
                lemma_sums_nonneg(swaps@, kj);
            }
            let rate: u128 = acc[j].weighted_sum / acc[j].volume;
            let entry = RateEntry {
                floatcode: acc[j].floatcode.clone(),
                fltissuer: acc[j].fltissuer.clone(),
                rate,
                volume: acc[j].volume,
            };
            proof {
                assert(entry@ == rate_entry_for(swaps@, kj));
            }
            out.push(entry);
            proof {
                assert(entry_views(out@) =~= rates_for_keys(swaps@, keys.take(j as int)) + seq![
                    rate_entry_for(swaps@, kj),
                ]);
                assert(entry_views(out@) =~= rates_for_keys(swaps@, keys.take(j + 1)));
            }
        } else {
            proof {
                assert(!fits(swaps@, kj));
                assert(rates_for_keys(swaps@, keys.take(j + 1)) =~= rates_for_keys(
                    swaps@,
                    keys.take(j as int),
                ));
            }
        }
        j = j + 1;
    }
    proof {
        assert(keys.take(keys.len() as int) =~= keys);
    }
    out
}

/// For a list of pairwise-distinct keys, the aggregated entries carry
/// pairwise-distinct assets, each drawn from the list.
pub proof fn lemma_rates_for_keys_distinct(swaps: Seq<Swap>, keys: Seq<(Seq<char>, Seq<char>)>)
    requires
        forall|i: int, j: int| 0 <= i < j < keys.len() ==> keys[i] != keys[j],
    ensures
        forall|i: int|
            0 <= i < rates_for_keys(swaps, keys).len() ==> keys.contains(
                (
                    (#[trigger] rates_for_keys(swaps, keys)[i]).floatcode,
                    rates_for_keys(swaps, keys)[i].fltissuer,
                ),
            ),
        forall|i: int, j: int|
            0 <= i < j < rates_for_keys(swaps, keys).len() ==> (
            (#[trigger] rates_for_keys(swaps, keys)[i]).floatcode,
            rates_for_keys(swaps, keys)[i].fltissuer,
            ) != (
            (#[trigger] rates_for_keys(swaps, keys)[j]).floatcode,
            rates_for_keys(swaps, keys)[j].fltissuer,
            ),
    decreases keys.len(),
{
    if keys.len() > 0 {
        let prev_keys = keys.drop_last();
        assert(forall|i: int, j: int|
            0 <= i < j < prev_keys.len() ==> prev_keys[i] != prev_keys[j]);
        lemma_rates_for_keys_distinct(swaps, prev_keys);
        let prev = rates_for_keys(swaps, prev_keys);
        let whole = rates_for_keys(swaps, keys);
        assert forall|i: int|
            0 <= i < whole.len() implies keys.contains(
            ((#[trigger] whole[i]).floatcode, whole[i].fltissuer),
        ) by {
            if i < prev.len() {
                assert(whole[i] == prev[i]);
                let t = choose|t: int|
                    0 <= t < prev_keys.len() && prev_keys[t] == (prev[i].floatcode, prev[i].fltissuer);
                assert(keys[t] == prev_keys[t]);
            } else {
                assert(whole[i] == rate_entry_for(swaps, keys.last()));
                assert(keys[keys.len() - 1] == keys.last());
            }
        }
        assert forall|i: int, j: int|
            0 <= i < j < whole.len() implies ((#[trigger] whole[i]).floatcode, whole[i].fltissuer)
            != ((#[trigger] whole[j]).floatcode, whole[j].fltissuer) by {
            if j < prev.len() {
                assert(whole[i] == prev[i] && whole[j] == prev[j]);
            } else {
                assert(whole[j] == rate_entry_for(swaps, keys.last()));
                assert(whole[i] == prev[i]);
                let t = choose|t: int|
                    0 <= t < prev_keys.len() && prev_keys[t] == (prev[i].floatcode, prev[i].fltissuer);
                assert(keys[t] == prev_keys[t]);
                assert(keys[t] != keys.last());
            }
        }
    }
}

/// The entries a batch aggregates to carry pairwise-distinct assets.
pub proof fn lemma_spec_rates_distinct(swaps: Seq<Swap>)
    ensures
        forall|i: int, j: int|
            0 <= i < j < spec_rates(swaps).len() ==> ((#[trigger] spec_rates(swaps)[i]).floatcode,
            spec_rates(swaps)[i].fltissuer) != ((#[trigger] spec_rates(swaps)[j]).floatcode,
            spec_rates(swaps)[j].fltissuer),
{
    lemma_keys_distinct(swaps);
    lemma_rates_for_keys_distinct(swaps, keys_in_order(swaps));
}

/// Every aggregated entry is exactly the entry its own asset key maps
/// to: the quotient of that asset's exact sums.
proof fn lemma_rates_entries_exact(swaps: Seq<Swap>, keys: Seq<(Seq<char>, Seq<char>)>)
    ensures
        forall|i: int|
            0 <= i < rates_for_keys(swaps, keys).len() ==> #[trigger] rates_for_keys(
                swaps,
                keys,
            )[i] == rate_entry_for(
                swaps,
                (rates_for_keys(swaps, keys)[i].floatcode, rates_for_keys(
                    swaps,
                    keys,
                )[i].fltissuer),
            ),
    decreases keys.len(),
{
    if keys.len() > 0 {
        lemma_rates_entries_exact(swaps, keys.drop_last());
        let prev = rates_for_keys(swaps, keys.drop_last());
        let whole = rates_for_keys(swaps, keys);
        assert forall|i: int| 0 <= i < whole.len() implies #[trigger] whole[i] == rate_entry_for(
            swaps,
            (whole[i].floatcode, whole[i].fltissuer),
        ) by {
            if i < prev.len() {
                assert(whole[i] == prev[i]);
            } else {
                assert(whole[i] == rate_entry_for(swaps, keys.last()));
            }
        }
    }
}

/// The weighted-average law: each emitted entry carries, for its asset,
/// the rate `sum(v_i * rs_i) / sum(v_i)` and the volume `sum(v_i)` over
/// exactly the batch's swaps of that asset.
pub proof fn lemma_weighted_average(swaps: Seq<Swap>)
    ensures
        forall|i: int|
            0 <= i < spec_rates(swaps).len() ==> {
                let entry = #[trigger] spec_rates(swaps)[i];
                entry.volume == vol(swaps, (entry.floatcode, entry.fltissuer)) && entry.rate
                    == wsum(swaps, (entry.floatcode, entry.fltissuer)) / vol(
                    swaps,
                    (entry.floatcode, entry.fltissuer),
                )
            },
{
    lemma_rates_entries_exact(swaps, keys_in_order(swaps));
}

/// Idempotence of aggregation: the same batch folded against the same
/// watermark state yields the same entries, run after run; any two
/// results that meet the aggregator's contract on the same input are
/// identical.
pub proof fn lemma_aggregation_idempotent(
    swaps: Seq<Swap>,
    first: Seq<RateEntryView>,
    second: Seq<RateEntryView>,
)
    requires
        first == spec_rates(swaps),
        second == spec_rates(swaps),
    ensures
        first == second,
{
}

} // verus!
