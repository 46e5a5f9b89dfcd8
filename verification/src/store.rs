//! The persisted state and the window controller.
//!
//! [`RateStore`] models the row store: the append-only swap log, the
//! append-only rate series and the savepoint table. The savepoint is a
//! singleton watermark; more than one row is a fatal consistency fault
//! that aborts a close pass before anything is written. Per asset the
//! rate series' timestamps are strictly increasing, and every close pass
//! preserves that.

use vstd::prelude::*;

use crate::asset::Registry;
use crate::filter::{extract_swaps, spec_block_swaps, swap_views};
use crate::model::LedgerClose;
use crate::rates::{calculate_rates, entry_views, lemma_spec_rates_distinct, spec_rates, RateEntry,
    RateEntryView};
use crate::swap::{Swap, SwapView};

verus! {

/// Default length of the aggregation window, in seconds.
pub const RATE_UPDATE_INTERVAL: u64 = 3600;

/// One persisted swap: a classified swap stamped with the close time of
/// the block it came from.
pub struct SwapDbRow {
    pub creation: u64,
    pub usdc_amnt: i64,
    pub floatcode: String,
    pub fltissuer: String,
    pub numerator: i64,
    pub denom: i64,
}

/// Ghost image of a [`SwapDbRow`].
pub ghost struct SwapDbRowView {
    pub creation: u64,
    pub usdc_amnt: int,
    pub floatcode: Seq<char>,
    pub fltissuer: Seq<char>,
    pub numerator: int,
    pub denom: int,
}

impl View for SwapDbRow {
    type V = SwapDbRowView;

    open spec fn view(&self) -> SwapDbRowView {
        SwapDbRowView {
            creation: self.creation,
            usdc_amnt: self.usdc_amnt as int,
            floatcode: self.floatcode@,
            fltissuer: self.fltissuer@,
            numerator: self.numerator as int,
            denom: self.denom as int,
        }
    }
}

impl Clone for SwapDbRow {
    fn clone(&self) -> (r: Self)
        ensures
            r == *self,
    {
        SwapDbRow {
            creation: self.creation,
            usdc_amnt: self.usdc_amnt,
            floatcode: self.floatcode.clone(),
            fltissuer: self.fltissuer.clone(),
            numerator: self.numerator,
            denom: self.denom,
        }
    }
}

/// The row a swap is persisted as, stamped with a close time.
pub open spec fn row_of_swap(swap: Swap, timestamp: u64) -> SwapDbRow {
    SwapDbRow {
        creation: timestamp,
        usdc_amnt: swap.usdc_amount,
        floatcode: swap.floating_asset_code,
        fltissuer: swap.floating_asset_issuer,
        numerator: swap.price_numerator,
        denom: swap.price_denominator,
    }
}

impl SwapDbRow {
    /// A row the aggregator can consume.
    pub open spec fn row_valid(self) -> bool {
        self.usdc_amnt > 0 && self.numerator > 0 && self.denom > 0
    }

    /// Persists a swap under the given close time.
    pub fn new(swap: &Swap, timestamp: u64) -> (r: Self)
        ensures
            r == row_of_swap(*swap, timestamp),
    {
        SwapDbRow {
            creation: timestamp,
            usdc_amnt: swap.usdc_amount,
            floatcode: swap.floating_asset_code.clone(),
            fltissuer: swap.floating_asset_issuer.clone(),
            numerator: swap.price_numerator,
            denom: swap.price_denominator,
        }
    }
}

/// The swap a persisted row stands for.
pub open spec fn swap_of_row(row: SwapDbRow) -> Swap {
    Swap {
        created_at: Some(row.creation),
        usdc_amount: row.usdc_amnt,
        floating_asset_code: row.floatcode,
        floating_asset_issuer: row.fltissuer,
        price_numerator: row.numerator,
        price_denominator: row.denom,
    }
}

/// One persisted rate: the volume-weighted rate of one asset for the
/// window that closed at `timestamp`.
#[derive(Debug, PartialEq, Eq)]
pub struct RatesDbRow {
    pub timestamp: u64,
    pub floatcode: String,
    pub fltissuer: String,
    /// Fixed-point rate, scaled by [`crate::RATE_SCALE`].
    pub rate: u128,
    /// Stablecoin volume of the window, in base units.
    pub volume: u128,
}

/// Ghost image of a [`RatesDbRow`].
pub ghost struct RatesDbRowView {
    pub timestamp: u64,
    pub floatcode: Seq<char>,
    pub fltissuer: Seq<char>,
    pub rate: int,
    pub volume: int,
}

impl View for RatesDbRow {
    type V = RatesDbRowView;

    open spec fn view(&self) -> RatesDbRowView {
        RatesDbRowView {
            timestamp: self.timestamp,
            floatcode: self.floatcode@,
            fltissuer: self.fltissuer@,
            rate: self.rate as int,
            volume: self.volume as int,
        }
    }
}

impl Clone for RatesDbRow {
    fn clone(&self) -> (r: Self)
        ensures
            r == *self,
    {
        RatesDbRow {
            timestamp: self.timestamp,
            floatcode: self.floatcode.clone(),
            fltissuer: self.fltissuer.clone(),
            rate: self.rate,
            volume: self.volume,
        }
    }
}

/// The asset a rate row belongs to.
pub open spec fn rate_row_key(r: RatesDbRowView) -> (Seq<char>, Seq<char>) {
    (r.floatcode, r.fltissuer)
}

/// The singleton watermark row: the close time up to which swaps have
/// been folded into rates.
#[derive(Debug, PartialEq, Eq)]
pub struct Savepoint {
    pub savepoint: u64,
}

impl Clone for Savepoint {
    fn clone(&self) -> (r: Self)
        ensures
            r == *self,
    {
        Savepoint { savepoint: self.savepoint }
    }
}

/// The views of a sequence of swap rows.
pub open spec fn swap_row_views(rows: Seq<SwapDbRow>) -> Seq<SwapDbRowView> {
    rows.map_values(|r: SwapDbRow| r@)
}

/// The views of a sequence of rate rows.
pub open spec fn rate_row_views(rows: Seq<RatesDbRow>) -> Seq<RatesDbRowView> {
    rows.map_values(|r: RatesDbRow| r@)
}

/// The rows a batch of swaps is persisted as.
pub open spec fn rows_of_swaps(swaps: Seq<Swap>, timestamp: u64) -> Seq<SwapDbRow>
    decreases swaps.len(),
{
    if swaps.len() == 0 {
        Seq::empty()
    } else {
        rows_of_swaps(swaps.drop_last(), timestamp).push(row_of_swap(swaps.last(), timestamp))
    }
}

/// The view a persisted swap row takes, from the swap's view.
pub open spec fn stamped_view(sv: SwapView, timestamp: u64) -> SwapDbRowView {
    SwapDbRowView {
        creation: timestamp,
        usdc_amnt: sv.usdc_amount,
        floatcode: sv.floating_asset_code,
        fltissuer: sv.floating_asset_issuer,
        numerator: sv.price_numerator,
        denom: sv.price_denominator,
    }
}

/// The views of a batch of swaps once persisted.
pub open spec fn stamped_views(svs: Seq<SwapView>, timestamp: u64) -> Seq<SwapDbRowView> {
    svs.map_values(|sv: SwapView| stamped_view(sv, timestamp))
}

/// Persisting commutes with taking views.
pub proof fn lemma_rows_of_swaps_views(swaps: Seq<Swap>, timestamp: u64)
    ensures
        swap_row_views(rows_of_swaps(swaps, timestamp)) == stamped_views(
            swap_views(swaps),
            timestamp,
        ),
    decreases swaps.len(),
{
    if swaps.len() == 0 {
        assert(swap_row_views(rows_of_swaps(swaps, timestamp)) =~= stamped_views(
            swap_views(swaps),
            timestamp,
        ));
    } else {
        lemma_rows_of_swaps_views(swaps.drop_last(), timestamp);
        let prev_rows = rows_of_swaps(swaps.drop_last(), timestamp);
        let last_row = row_of_swap(swaps.last(), timestamp);
        assert(rows_of_swaps(swaps, timestamp) == prev_rows.push(last_row));
        assert(swap_row_views(prev_rows.push(last_row)) =~= swap_row_views(prev_rows).push(
            last_row@,
        ));
        assert(swap_views(swaps) =~= swap_views(swaps.drop_last()).push(swaps.last()@));
        assert(stamped_views(swap_views(swaps.drop_last()).push(swaps.last()@), timestamp)
            =~= stamped_views(swap_views(swaps.drop_last()), timestamp).push(
            stamped_view(swaps.last()@, timestamp),
        ));
        assert(last_row@ == stamped_view(swaps.last()@, timestamp));
        assert(swap_row_views(rows_of_swaps(swaps, timestamp)) =~= stamped_views(
            swap_views(swaps),
            timestamp,
        ));
    }
}

/// The swap rows created strictly after a watermark, in order.
pub open spec fn rows_after(rows: Seq<SwapDbRow>, watermark: u64) -> Seq<SwapDbRow>
    decreases rows.len(),
{
    if rows.len() == 0 {
        Seq::empty()
    } else if rows.last().creation > watermark {
        rows_after(rows.drop_last(), watermark).push(rows.last())
    } else {
        rows_after(rows.drop_last(), watermark)
    }
}

/// The swaps a sequence of rows stands for.
pub open spec fn swaps_of_rows(rows: Seq<SwapDbRow>) -> Seq<Swap>
    decreases rows.len(),
{
    if rows.len() == 0 {
        Seq::empty()
    } else {
        swaps_of_rows(rows.drop_last()).push(swap_of_row(rows.last()))
    }
}

/// The rate row one aggregated entry is persisted as.
pub open spec fn rate_row_of_entry(e: RateEntryView, timestamp: u64) -> RatesDbRowView {
    RatesDbRowView {
        timestamp,
        floatcode: e.floatcode,
        fltissuer: e.fltissuer,
        rate: e.rate,
        volume: e.volume,
    }
}

/// The rate rows a batch of aggregated entries is persisted as, at one
/// close time, in entry order.
pub open spec fn rate_rows_of(entries: Seq<RateEntryView>, timestamp: u64) -> Seq<RatesDbRowView> {
    entries.map_values(|e: RateEntryView| rate_row_of_entry(e, timestamp))
}

/// Globally ascending timestamps over a rate row sequence.
pub open spec fn rows_ascending(rows: Seq<RatesDbRow>) -> bool {
    forall|i: int, j: int|
        0 <= i < j < rows.len() ==> (#[trigger] rows[i]).timestamp <= (#[trigger] rows[j]).timestamp
}

/// The in-memory model of the row store.
pub struct RateStore {
    pub swaps: Vec<SwapDbRow>,
    pub rates: Vec<RatesDbRow>,
    pub savepoints: Vec<Savepoint>,
}

impl RateStore {
    /// Per asset, the rate series' timestamps are strictly increasing.
    pub open spec fn rates_sorted(self) -> bool {
        forall|i: int, j: int|
            0 <= i < j < self.rates@.len() && rate_row_key(#[trigger] self.rates@[i]@)
                == rate_row_key(#[trigger] self.rates@[j]@) ==> self.rates@[i]@.timestamp
                < self.rates@[j]@.timestamp
    }

    /// The store's invariant: valid swap rows, per-asset strictly
    /// increasing rate timestamps, no rate beyond the watermark, and no
    /// rate at all before the first watermark is seeded.
    pub open spec fn wf(self) -> bool {
        &&& forall|i: int|
            0 <= i < self.swaps@.len() ==> (#[trigger] self.swaps@[i]).row_valid()
        &&& rows_ascending(self.rates@)
        &&& self.rates_sorted()
        &&& self.savepoints@.len() >= 1 ==> forall|i: int|
            0 <= i < self.rates@.len() ==> (#[trigger] self.rates@[i]).timestamp
                <= self.savepoints@[0].savepoint
        &&& self.savepoints@.len() == 0 ==> self.rates@.len() == 0
    }

    /// An empty store.
    pub fn new() -> (r: Self)
        ensures
            r.wf(),
            r.swaps@.len() == 0,
            r.rates@.len() == 0,
            r.savepoints@.len() == 0,
    {
        RateStore { swaps: Vec::new(), rates: Vec::new(), savepoints: Vec::new() }
    }
}

/// Persists a batch of classified swaps under one close time.
pub fn save_swaps(store: &mut RateStore, swaps: &Vec<Swap>, timestamp: u64)
    requires
        forall|i: int| 0 <= i < swaps@.len() ==> (#[trigger] swaps@[i]).valid(),
    ensures
        final(store).swaps@ == old(store).swaps@ + rows_of_swaps(swaps@, timestamp),
        final(store).rates == old(store).rates,
        final(store).savepoints == old(store).savepoints,
        old(store).wf() ==> final(store).wf(),
{
    let mut i: usize = 0;
    proof {
        assert(swaps@.take(0) =~= Seq::<Swap>::empty());
        assert(store.swaps@ =~= store.swaps@ + rows_of_swaps(swaps@.take(0), timestamp));
    }
    while i < swaps.len()
        invariant
            i <= swaps.len(),
            forall|t: int| 0 <= t < swaps@.len() ==> (#[trigger] swaps@[t]).valid(),
            store.swaps@ == old(store).swaps@ + rows_of_swaps(swaps@.take(i as int), timestamp),
            store.rates == old(store).rates,
            store.savepoints == old(store).savepoints,
        decreases swaps.len() - i,
    {
        proof {
            assert(swaps@.take(i + 1).drop_last() =~= swaps@.take(i as int));
            assert(swaps@.take(i + 1).last() == swaps@[i as int]);
        }
        let row = SwapDbRow::new(&swaps[i], timestamp);
        store.swaps.push(row);
        proof {
            assert(store.swaps@ =~= old(store).swaps@ + rows_of_swaps(
                swaps@.take(i + 1),
                timestamp,
            ));
        }
        i = i + 1;
    }
    proof {
        assert(swaps@.take(swaps@.len() as int) =~= swaps@);
        if old(store).wf() {
            assert forall|t: int|
                0 <= t < store.swaps@.len() implies (#[trigger] store.swaps@[t]).row_valid() by {
                if t < old(store).swaps@.len() {
                    assert(store.swaps@[t] == old(store).swaps@[t]);
                } else {
                    lemma_rows_valid(swaps@, timestamp, t - old(store).swaps@.len());
                }
            }
        }
    }
}

/// Each persisted row of a valid batch is itself valid.
proof fn lemma_rows_valid(swaps: Seq<Swap>, timestamp: u64, t: int)
    requires
        forall|i: int| 0 <= i < swaps.len() ==> (#[trigger] swaps[i]).valid(),
        0 <= t < rows_of_swaps(swaps, timestamp).len(),
    ensures
        rows_of_swaps(swaps, timestamp)[t].row_valid(),
    decreases swaps.len(),
{
    if swaps.len() > 0 {
        assert(forall|i: int|
            0 <= i < swaps.len() - 1 ==> swaps.drop_last()[i] == swaps[i]);
        if t < rows_of_swaps(swaps.drop_last(), timestamp).len() {
            lemma_rows_valid(swaps.drop_last(), timestamp, t);
        } else {
            assert(rows_of_swaps(swaps, timestamp)[t] == row_of_swap(swaps.last(), timestamp));
            assert(swaps[swaps.len() - 1].valid());
        }
    }
}

/// Collects the swaps persisted strictly after the watermark.
pub fn read_swaps(rows: &Vec<SwapDbRow>, watermark: u64) -> (r: Vec<Swap>)
    requires
        forall|i: int| 0 <= i < rows@.len() ==> (#[trigger] rows@[i]).row_valid(),
    ensures
        r@ == swaps_of_rows(rows_after(rows@, watermark)),
        forall|i: int| 0 <= i < r@.len() ==> (#[trigger] r@[i]).valid(),
{
    let mut out: Vec<Swap> = Vec::new();
    let mut i: usize = 0;
    proof {
        assert(rows@.take(0) =~= Seq::<SwapDbRow>::empty());
        assert(out@ =~= swaps_of_rows(rows_after(rows@.take(0), watermark)));
    }
    while i < rows.len()
        invariant
            i <= rows.len(),
            forall|t: int| 0 <= t < rows@.len() ==> (#[trigger] rows@[t]).row_valid(),
            out@ == swaps_of_rows(rows_after(rows@.take(i as int), watermark)),
            forall|t: int| 0 <= t < out@.len() ==> (#[trigger] out@[t]).valid(),
        decreases rows.len() - i,
    {
        proof {
            assert(rows@.take(i + 1).drop_last() =~= rows@.take(i as int));
            assert(rows@.take(i + 1).last() == rows@[i as int]);
        }
        let ghost ra = rows_after(rows@.take(i as int), watermark);
        let row = &rows[i];
        if row.creation > watermark {
            let swap = Swap {
                created_at: Some(row.creation),
                usdc_amount: row.usdc_amnt,
                floating_asset_code: row.floatcode.clone(),
                floating_asset_issuer: row.fltissuer.clone(),
                price_numerator: row.numerator,
                price_denominator: row.denom,
            };
            proof {
                assert(swap == swap_of_row(rows@[i as int]));
            }
            out.push(swap);
            proof {
                assert(rows_after(rows@.take(i + 1), watermark) == ra.push(rows@[i as int]));
                assert(ra.push(rows@[i as int]).drop_last() =~= ra);
                assert(ra.push(rows@[i as int]).last() == rows@[i as int]);
                assert(out@ =~= swaps_of_rows(rows_after(rows@.take(i + 1), watermark)));
            }
        } else {
            proof {
                assert(out@ =~= swaps_of_rows(rows_after(rows@.take(i + 1), watermark)));
            }
        }
        i = i + 1;
    }
    proof {
        assert(rows@.take(rows@.len() as int) =~= rows@);
    }
    out
}

/// Aggregates the swaps persisted after the watermark into one
/// volume-weighted rate entry per asset.
pub fn calculate_exchange_rates(rows: &Vec<SwapDbRow>, watermark: u64) -> (r: Vec<RateEntry>)
    requires
        forall|i: int| 0 <= i < rows@.len() ==> (#[trigger] rows@[i]).row_valid(),
    ensures
        entry_views(r@) == spec_rates(swaps_of_rows(rows_after(rows@, watermark))),
        forall|j: int| 0 <= j < r@.len() ==> (#[trigger] r@[j]).volume > 0,
{
    let window = read_swaps(rows, watermark);
    calculate_rates(&window)
}

/// The outcome of one close pass.
#[derive(Clone, Copy, Debug, PartialEq, Eq, Structural)]
pub enum CloseOutcome {
    /// More than one savepoint row: the pass wrote nothing.
    ConsistencyFault,
    /// First-ever pass: the watermark was seeded, nothing aggregated.
    Seeded,
    /// The window had elapsed: rates were emitted, the watermark moved.
    Advanced,
    /// The window had not elapsed: nothing but swaps were persisted.
    Waited,
}

/// Whether the aggregation window has elapsed: the close time lies more
/// than a full window past the watermark.
pub open spec fn window_elapsed(now: u64, watermark: u64, interval: u64) -> bool {
    now > watermark && now - watermark > interval
}

/// The window controller: decides, for one close time, whether to seed
/// the watermark, to fold the swaps since the watermark into rates and
/// advance it, to wait, or to abort on a consistency fault — and applies
/// the decision to the store.
pub fn save_rates(store: &mut RateStore, now: u64, interval: u64) -> (r: CloseOutcome)
    requires
        old(store).wf(),
    ensures
        final(store).wf(),
        final(store).swaps == old(store).swaps,
        (r == CloseOutcome::ConsistencyFault) <==> old(store).savepoints@.len() > 1,
        (r == CloseOutcome::Seeded) <==> old(store).savepoints@.len() == 0,
        old(store).savepoints@.len() > 1 ==> *final(store) == *old(store),
        old(store).savepoints@.len() == 0 ==> final(store).savepoints@ == seq![
            Savepoint { savepoint: now },
        ] && final(store).rates == old(store).rates,
        old(store).savepoints@.len() == 1 && window_elapsed(
            now,
            old(store).savepoints@[0].savepoint,
            interval,
        ) ==> r == CloseOutcome::Advanced && final(store).savepoints@ == seq![
            Savepoint { savepoint: now },
        ] && rate_row_views(final(store).rates@) == rate_row_views(old(store).rates@)
            + rate_rows_of(
            spec_rates(
                swaps_of_rows(
                    rows_after(old(store).swaps@, old(store).savepoints@[0].savepoint),
                ),
            ),
            now,
        ),
        old(store).savepoints@.len() == 1 && !window_elapsed(
            now,
            old(store).savepoints@[0].savepoint,
            interval,
        ) ==> r == CloseOutcome::Waited && *final(store) == *old(store),
{
    if store.savepoints.len() > 1 {
        return CloseOutcome::ConsistencyFault;
    }
    if store.savepoints.len() == 0 {
        store.savepoints.push(Savepoint { savepoint: now });
        proof {
            assert(store.savepoints@ =~= seq![Savepoint { savepoint: now }]);
        }
        return CloseOutcome::Seeded;
    }
    let watermark = store.savepoints[0].savepoint;
    if now > watermark && now - watermark > interval {
        let entries = calculate_exchange_rates(&store.swaps, watermark);
        let ghost spec_entries = spec_rates(
            swaps_of_rows(rows_after(old(store).swaps@, watermark)),
        );
        let ghost old_rates = store.rates@;
        let ghost old_len = store.rates@.len() as int;
        let mut i: usize = 0;
        while i < entries.len()
            invariant
                i <= entries.len(),
                entry_views(entries@) == spec_entries,
                store.swaps == old(store).swaps,
                store.savepoints == old(store).savepoints,
                store.rates@.len() == old_len + i,
                old_rates == old(store).rates@,
                old_len == old_rates.len() as int,
                forall|t: int| 0 <= t < old_len ==> store.rates@[t] == old_rates[t],
                forall|t: int|
                    0 <= t < i ==> (#[trigger] store.rates@[old_len + t])@ == rate_row_of_entry(
                        entries@[t]@,
                        now,
                    ),
            decreases entries.len() - i,
        {
            let row = RatesDbRow {
                timestamp: now,
                floatcode: entries[i].floatcode.clone(),
                fltissuer: entries[i].fltissuer.clone(),
                rate: entries[i].rate,
                volume: entries[i].volume,
            };
            store.rates.push(row);
            i = i + 1;
        }
        let mut fresh: Vec<Savepoint> = Vec::new();
        fresh.push(Savepoint { savepoint: now });
        store.savepoints = fresh;
        proof {
            assert(store.savepoints@ =~= seq![Savepoint { savepoint: now }]);
            assert(spec_entries.len() == entries@.len());
            assert forall|t: int|
                0 <= t < store.rates@.len() implies rate_row_views(store.rates@)[t]
                == (rate_row_views(old_rates) + rate_rows_of(spec_entries, now))[t] by {
                if t < old_len {
                    assert(store.rates@[t] == old_rates[t]);
                } else {
                    let u = t - old_len;
                    assert(store.rates@[old_len + u]@ == rate_row_of_entry(entries@[u]@, now));
                    assert(entry_views(entries@)[u] == entries@[u]@);
                    assert(rate_rows_of(spec_entries, now)[t - old_len] == rate_row_of_entry(
                        spec_entries[t - old_len],
                        now,
                    ));
                }
            }
            assert(rate_row_views(store.rates@) =~= rate_row_views(old_rates) + rate_rows_of(
                spec_entries,
                now,
            ));
            lemma_spec_rates_distinct(swaps_of_rows(rows_after(old(store).swaps@, watermark)));
            assert forall|a: int, b: int|
                0 <= a < b < store.rates@.len() && rate_row_key(#[trigger] store.rates@[a]@)
                    == rate_row_key(#[trigger] store.rates@[b]@) implies store.rates@[a]@.timestamp
                < store.rates@[b]@.timestamp by {
                if b < old_len {
                    assert(store.rates@[a] == old_rates[a] && store.rates@[b] == old_rates[b]);
                    assert(old(store).rates@[a]@.timestamp < old(store).rates@[b]@.timestamp);
                } else if a < old_len {
                    assert(store.rates@[a] == old_rates[a]);
                    assert(old(store).wf());
                    assert(old(store).rates@[a].timestamp <= old(store).savepoints@[0].savepoint);
                    assert(store.rates@[a]@.timestamp <= watermark);
                    let u = b - old_len;
                    assert(store.rates@[old_len + u]@ == rate_row_of_entry(entries@[u]@, now));
                    assert(store.rates@[b]@.timestamp == now);
                } else {
                    let ua = a - old_len;
                    let ub = b - old_len;
                    assert(store.rates@[old_len + ua]@ == rate_row_of_entry(entries@[ua]@, now));
                    assert(store.rates@[old_len + ub]@ == rate_row_of_entry(entries@[ub]@, now));
                    assert(entry_views(entries@)[ua] == entries@[ua]@);
                    assert(entry_views(entries@)[ub] == entries@[ub]@);
                    let ea = spec_entries[ua];
                    let eb = spec_entries[ub];
                    assert(store.rates@[a]@ == rate_row_of_entry(ea, now));
                    assert(store.rates@[b]@ == rate_row_of_entry(eb, now));
                    assert((ea.floatcode, ea.fltissuer) != (eb.floatcode, eb.fltissuer));
                    assert(false);
                }
            }
            assert forall|t: int|
                0 <= t < store.rates@.len() implies (#[trigger] store.rates@[t]).timestamp
                <= now by {
                if t < old_len {
                    assert(store.rates@[t] == old_rates[t]);
                    assert(old(store).rates@[t].timestamp <= old(store).savepoints@[0].savepoint);
                } else {
                    let u = t - old_len;
                    assert(store.rates@[old_len + u]@ == rate_row_of_entry(entries@[u]@, now));
                }
            }
            assert forall|a: int, b: int|
                0 <= a < b < store.rates@.len() implies (#[trigger] store.rates@[a]).timestamp
                <= (#[trigger] store.rates@[b]).timestamp by {
                if b < old_len {
                    assert(store.rates@[a] == old_rates[a] && store.rates@[b] == old_rates[b]);
                    assert(old(store).rates@[a].timestamp <= old(store).rates@[b].timestamp);
                } else {
                    let ub = b - old_len;
                    assert(store.rates@[old_len + ub]@ == rate_row_of_entry(entries@[ub]@, now));
                    if a < old_len {
                        assert(store.rates@[a] == old_rates[a]);
                        assert(old(store).rates@[a].timestamp <= old(
                            store,
                        ).savepoints@[0].savepoint);
                    } else {
                        let ua = a - old_len;
                        assert(store.rates@[old_len + ua]@ == rate_row_of_entry(
                            entries@[ua]@,
                            now,
                        ));
                    }
                }
            }
            assert(store.wf());
        }
        CloseOutcome::Advanced
    } else {
        CloseOutcome::Waited
    }
}

/// Processes one ledger close: refuses to touch anything when more than
/// one savepoint row exists, otherwise extracts and persists the block's
/// swaps and lets the window controller decide whether to aggregate.
pub fn on_close(
    store: &mut RateStore,
    block: &LedgerClose,
    registry: &Registry,
    interval: u64,
) -> (r: CloseOutcome)
    requires
        old(store).wf(),
    ensures
        final(store).wf(),
        (r == CloseOutcome::ConsistencyFault) <==> old(store).savepoints@.len() > 1,
        old(store).savepoints@.len() > 1 ==> *final(store) == *old(store),
        old(store).savepoints@.len() <= 1 ==> swap_row_views(final(store).swaps@)
            == swap_row_views(old(store).swaps@) + stamped_views(
            spec_block_swaps(*registry, *block),
            block.timestamp,
        ),
        old(store).savepoints@.len() == 0 ==> r == CloseOutcome::Seeded && final(store).savepoints@ == seq![Savepoint { savepoint: block.timestamp }] && final(store).rates
            == old(store).rates,
        old(store).savepoints@.len() == 1 && window_elapsed(
            block.timestamp,
            old(store).savepoints@[0].savepoint,
            interval,
        ) ==> r == CloseOutcome::Advanced && final(store).savepoints@ == seq![
            Savepoint { savepoint: block.timestamp },
        ] && rate_row_views(final(store).rates@) == rate_row_views(old(store).rates@)
            + rate_rows_of(
            spec_rates(
                swaps_of_rows(
                    rows_after(final(store).swaps@, old(store).savepoints@[0].savepoint),
                ),
            ),
            block.timestamp,
        ),
        old(store).savepoints@.len() == 1 && !window_elapsed(
            block.timestamp,
            old(store).savepoints@[0].savepoint,
            interval,
        ) ==> r == CloseOutcome::Waited && final(store).rates == old(store).rates
            && final(store).savepoints == old(store).savepoints,
{
    if store.savepoints.len() > 1 {
        return CloseOutcome::ConsistencyFault;
    }
    let new_swaps = extract_swaps(block, registry);
    save_swaps(store, &new_swaps, block.timestamp);
    proof {
        lemma_rows_of_swaps_views(new_swaps@, block.timestamp);
        assert(swap_row_views(store.swaps@) =~= swap_row_views(old(store).swaps@) + swap_row_views(
            rows_of_swaps(new_swaps@, block.timestamp),
        ));
    }
    save_rates(store, block.timestamp, interval)
}

} // verus!
