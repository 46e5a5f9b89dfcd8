//! The historical reconciliation query.
//!
//! A caller hands over, per asset, a sorted transaction timeline and a
//! later "unrealized" date. The asset's rate series before that date is
//! swept once, in ascending order, assigning each transaction the rate
//! record just behind it; the series' last record prices the unrealized
//! position. An asset whose series starts after its first transaction is
//! reported failed without disturbing the rest of the batch; ordering
//! violations are rejected before the series is ever consulted.

use vstd::prelude::*;

use crate::api::{lemma_matched_ascending, matched_rows};
use crate::store::{rows_ascending, RatesDbRow};
use crate::shared::{iso_datetime_seconds, normalize_issuer, parse_timestamp, spec_normalize_issuer,
    ExchangeRateError};
use crate::text::make_string;

verus! {

/// One asset of a history request.
pub struct HistoryAsset {
    pub asset_code: String,
    pub asset_issuer: Option<String>,
}

/// An asset whose issuer has been normalized and made mandatory.
#[derive(Debug, PartialEq, Eq)]
pub struct ValidatedHistoryAsset {
    pub asset_code: String,
    pub asset_issuer: String,
}

impl Clone for ValidatedHistoryAsset {
    fn clone(&self) -> (r: Self)
        ensures
            r == *self,
    {
        ValidatedHistoryAsset {
            asset_code: self.asset_code.clone(),
            asset_issuer: self.asset_issuer.clone(),
        }
    }
}

impl HistoryAsset {
    /// Normalizes the issuer; a non-native asset without one is refused.
    pub fn validate(self) -> (r: Result<ValidatedHistoryAsset, ExchangeRateError>)
        ensures
            r is Ok <==> spec_normalize_issuer(self.asset_code@, self.asset_issuer) is Some,
            r is Ok ==> r->Ok_0.asset_code@ == self.asset_code@ && Some(r->Ok_0.asset_issuer@)
                == spec_normalize_issuer(self.asset_code@, self.asset_issuer),
            r is Err ==> r->Err_0 == ExchangeRateError::MissingIssuer(self.asset_code),
    {
        match normalize_issuer(&self.asset_code, &self.asset_issuer) {
            Some(issuer) => Ok(
                ValidatedHistoryAsset { asset_code: self.asset_code, asset_issuer: issuer },
            ),
            None => Err(ExchangeRateError::MissingIssuer(self.asset_code)),
        }
    }
}

/// One asset's timeline in a history request.
pub struct HistoryRequestTransactions {
    pub asset: HistoryAsset,
    /// The transaction dates, ISO-8601 texts, strictly ascending.
    pub transaction_dates: Vec<String>,
    /// The date of the unrealized position, later than every transaction.
    pub unrealized_date: String,
}

/// A history request: one or more asset timelines.
pub struct HistoryRequest {
    pub assets: Vec<HistoryRequestTransactions>,
}

/// One asset's timeline, validated and parsed.
pub struct HistoryTransactionsTimestamps {
    pub asset: ValidatedHistoryAsset,
    pub transaction_timestamps: Vec<i64>,
    pub unrealized_timestamp: i64,
}

/// The rate assigned to one transaction: the record just behind it.
#[derive(Debug, PartialEq, Eq)]
pub struct TransactionExchangeRate {
    /// The transaction's own time.
    pub transaction_timestamp: i64,
    /// The time of the rate record that prices it.
    pub rate_timestamp: u64,
    /// That record's fixed-point rate.
    pub rate: u128,
}

/// A successfully reconciled asset.
#[derive(Debug, PartialEq, Eq)]
pub struct SuccessfulAsset {
    pub asset: ValidatedHistoryAsset,
    pub transaction_rates: Vec<TransactionExchangeRate>,
    pub unrealized_rate: TransactionExchangeRate,
}

/// An asset whose timeline could not be priced.
#[derive(Debug, PartialEq, Eq)]
pub struct FailedAsset {
    pub asset: ValidatedHistoryAsset,
    pub error: String,
}

/// One asset's outcome: priced, or failed without aborting the batch.
pub type AssetHistoryResult = Result<SuccessfulAsset, FailedAsset>;

/// Whether every date text of the sequence parses.
pub open spec fn all_dates_parse(dates: Seq<String>) -> bool {
    forall|i: int| 0 <= i < dates.len() ==> iso_datetime_seconds((#[trigger] dates[i])@) is Some
}

/// The parsed timestamps of a date sequence.
pub open spec fn parsed_dates(dates: Seq<String>) -> Seq<i64> {
    dates.map_values(|d: String| iso_datetime_seconds(d@)->0)
}

/// Strictly ascending timestamps.
pub open spec fn strictly_increasing(ts: Seq<i64>) -> bool {
    forall|i: int, j: int| 0 <= i < j < ts.len() ==> ts[i] < ts[j]
}

/// Whether one asset timeline passes validation.
pub open spec fn asset_ok(a: HistoryRequestTransactions) -> bool {
    &&& a.transaction_dates@.len() > 0
    &&& spec_normalize_issuer(a.asset.asset_code@, a.asset.asset_issuer) is Some
    &&& iso_datetime_seconds(a.unrealized_date@) is Some
    &&& all_dates_parse(a.transaction_dates@)
    &&& strictly_increasing(parsed_dates(a.transaction_dates@))
    &&& parsed_dates(a.transaction_dates@).last() < iso_datetime_seconds(a.unrealized_date@)->0
}

/// The error an invalid timeline is rejected with, in the order the
/// checks run: empty dates, missing issuer, unparsable dates, and last
/// the ordering of the dates against each other and the unrealized date.
pub open spec fn spec_asset_error(a: HistoryRequestTransactions) -> ExchangeRateError {
    if a.transaction_dates@.len() == 0 {
        ExchangeRateError::EmptyTransactions(a.asset.asset_code)
    } else if !(spec_normalize_issuer(a.asset.asset_code@, a.asset.asset_issuer) is Some) {
        ExchangeRateError::MissingIssuer(a.asset.asset_code)
    } else if !(iso_datetime_seconds(a.unrealized_date@) is Some) {
        ExchangeRateError::InvalidDate
    } else if !all_dates_parse(a.transaction_dates@) {
        ExchangeRateError::InvalidDate
    } else {
        ExchangeRateError::InvalidDateOrder
    }
}

/// Validates one asset timeline: dates present and parsable, issuer
/// normalized, the timeline strictly ascending and wholly before the
/// unrealized date. The ordering check needs no stored data, so an
/// ordering violation is rejected before any series is read.
pub fn validate_asset(asset: &HistoryRequestTransactions) -> (r: Result<
    HistoryTransactionsTimestamps,
    ExchangeRateError,
>)
    ensures
        r is Ok <==> asset_ok(*asset),
        r is Err ==> r->Err_0 == spec_asset_error(*asset),
        r is Ok ==> {
            let v = r->Ok_0;
            &&& v.asset.asset_code@ == asset.asset.asset_code@
            &&& Some(v.asset.asset_issuer@) == spec_normalize_issuer(
                asset.asset.asset_code@,
                asset.asset.asset_issuer,
            )
            &&& v.transaction_timestamps@ == parsed_dates(asset.transaction_dates@)
            &&& Some(v.unrealized_timestamp) == iso_datetime_seconds(asset.unrealized_date@)
        },
{
    if asset.transaction_dates.len() == 0 {
        return Err(ExchangeRateError::EmptyTransactions(asset.asset.asset_code.clone()));
    }
    let valid_identifier = match normalize_issuer(
        &asset.asset.asset_code,
        &asset.asset.asset_issuer,
    ) {
        Some(issuer) => ValidatedHistoryAsset {
            asset_code: asset.asset.asset_code.clone(),
            asset_issuer: issuer,
        },
        None => {
            return Err(ExchangeRateError::MissingIssuer(asset.asset.asset_code.clone()));
        },
    };
    let unrealized_timestamp = match parse_timestamp(&asset.unrealized_date) {
        Ok(ts) => ts,
        Err(e) => {
            return Err(e);
        },
    };
    let mut transaction_timestamps: Vec<i64> = Vec::new();
    let mut i: usize = 0;
    proof {
        assert(asset.transaction_dates@.take(0) =~= Seq::<String>::empty());
        assert(transaction_timestamps@ =~= parsed_dates(asset.transaction_dates@.take(0)));
    }
    while i < asset.transaction_dates.len()
        invariant
            i <= asset.transaction_dates@.len(),
            asset.transaction_dates@.len() > 0,
            spec_normalize_issuer(asset.asset.asset_code@, asset.asset.asset_issuer) is Some,
            iso_datetime_seconds(asset.unrealized_date@) is Some,
            transaction_timestamps@ == parsed_dates(asset.transaction_dates@.take(i as int)),
            forall|t: int|
                0 <= t < i ==> iso_datetime_seconds(
                    (#[trigger] asset.transaction_dates@[t])@,
                ) is Some,
        decreases asset.transaction_dates@.len() - i,
    {
        let ts = match parse_timestamp(&asset.transaction_dates[i]) {
            Ok(ts) => ts,
            Err(e) => {
                proof {
                    assert(!all_dates_parse(asset.transaction_dates@));
                }
                return Err(e);
            },
        };
        transaction_timestamps.push(ts);
        proof {
            assert(transaction_timestamps@ =~= parsed_dates(
                asset.transaction_dates@.take(i + 1),
            ));
        }
        i = i + 1;
    }
    proof {
        assert(asset.transaction_dates@.take(asset.transaction_dates@.len() as int)
            =~= asset.transaction_dates@);
    }
    let mut j: usize = 1;
    while j < transaction_timestamps.len()
        invariant
            1 <= j,
            j <= transaction_timestamps@.len() || transaction_timestamps@.len() == 0,
            transaction_timestamps@ == parsed_dates(asset.transaction_dates@),
            asset.transaction_dates@.len() > 0,
            spec_normalize_issuer(asset.asset.asset_code@, asset.asset.asset_issuer) is Some,
            iso_datetime_seconds(asset.unrealized_date@) is Some,
            all_dates_parse(asset.transaction_dates@),
            forall|a: int, b: int|
                0 <= a < b < j && b < transaction_timestamps@.len()
                    ==> transaction_timestamps@[a] < transaction_timestamps@[b],
        decreases transaction_timestamps@.len() - j,
    {
        if transaction_timestamps[j - 1] >= transaction_timestamps[j] {
            proof {
                assert(!strictly_increasing(parsed_dates(asset.transaction_dates@)));
                assert(spec_asset_error(*asset) == ExchangeRateError::InvalidDateOrder);
            }
            return Err(ExchangeRateError::InvalidDateOrder);
        }
        j = j + 1;
    }
    if unrealized_timestamp <= transaction_timestamps[transaction_timestamps.len() - 1] {
        return Err(ExchangeRateError::InvalidDateOrder);
    }
    Ok(
        HistoryTransactionsTimestamps {
            asset: valid_identifier,
            transaction_timestamps,
            unrealized_timestamp,
        },
    )
}

/// Whether a validated timeline is the faithful image of a raw one: the
/// same asset with its issuer normalized, and every date parsed.
pub open spec fn validated_matches(
    v: HistoryTransactionsTimestamps,
    a: HistoryRequestTransactions,
) -> bool {
    &&& v.asset.asset_code@ == a.asset.asset_code@
    &&& Some(v.asset.asset_issuer@) == spec_normalize_issuer(
        a.asset.asset_code@,
        a.asset.asset_issuer,
    )
    &&& v.transaction_timestamps@ == parsed_dates(a.transaction_dates@)
    &&& Some(v.unrealized_timestamp) == iso_datetime_seconds(a.unrealized_date@)
}

/// Validates a whole history request: it must name at least one asset,
/// and every timeline must validate; the first failure rejects the
/// request.
pub fn validate_request(request: &HistoryRequest) -> (r: Result<
    Vec<HistoryTransactionsTimestamps>,
    ExchangeRateError,
>)
    ensures
        r is Ok <==> request.assets@.len() > 0 && (forall|i: int|
            0 <= i < request.assets@.len() ==> asset_ok(#[trigger] request.assets@[i])),
        request.assets@.len() == 0 ==> r is Err && r->Err_0 == ExchangeRateError::EmptyRequest,
        r is Err && request.assets@.len() > 0 ==> exists|i: int|
            0 <= i < request.assets@.len() && !asset_ok(#[trigger] request.assets@[i])
                && (forall|j: int| 0 <= j < i ==> asset_ok(#[trigger] request.assets@[j]))
                && r->Err_0 == spec_asset_error(request.assets@[i]),
        r is Ok ==> r->Ok_0@.len() == request.assets@.len(),
        r is Ok ==> forall|i: int|
            0 <= i < r->Ok_0@.len() ==> validated_matches(
                #[trigger] r->Ok_0@[i],
                request.assets@[i],
            ),
{
    if request.assets.len() == 0 {
        return Err(ExchangeRateError::EmptyRequest);
    }
    let mut validated: Vec<HistoryTransactionsTimestamps> = Vec::new();
    let mut i: usize = 0;
    while i < request.assets.len()
        invariant
            i <= request.assets@.len(),
            validated@.len() == i,
            forall|t: int| 0 <= t < i ==> asset_ok(#[trigger] request.assets@[t]),
            forall|t: int|
                0 <= t < i ==> validated_matches(#[trigger] validated@[t], request.assets@[t]),
        decreases request.assets@.len() - i,
    {
        let v = match validate_asset(&request.assets[i]) {
            Ok(v) => v,
            Err(e) => {
                return Err(e);
            },
        };
        validated.push(v);
        i = i + 1;
    }
    Ok(validated)
}

/// The last series row at or before a time.
pub open spec fn last_at_or_before(series: Seq<RatesDbRow>, t: i64) -> RatesDbRow
    decreases series.len(),
{
    if series.len() == 0 {
        series[0]
    } else if series.last().timestamp as int <= t as int {
        series.last()
    } else {
        last_at_or_before(series.drop_last(), t)
    }
}

/// In an ascending series, a cursor that has just swept past a time
/// points one row beyond the last row at or before it.
pub proof fn lemma_last_at_or_before_idx(series: Seq<RatesDbRow>, t: i64, idx: int)
    requires
        rows_ascending(series),
        1 <= idx <= series.len(),
        series[idx - 1].timestamp as int <= t as int,
        idx < series.len() ==> series[idx].timestamp as int > t as int,
    ensures
        last_at_or_before(series, t) == series[idx - 1],
    decreases series.len(),
{
    if series.last().timestamp as int <= t as int {
        if idx < series.len() {
            assert(series[idx].timestamp <= series[series.len() - 1].timestamp);
            assert(false);
        }
    } else {
        assert(idx < series.len()) by {
            if idx == series.len() {
                assert(series[idx - 1].timestamp as int <= t as int);
                assert(false);
            }
        }
        assert(rows_ascending(series.drop_last())) by {
            assert(forall|a: int|
                0 <= a < series.len() - 1 ==> series.drop_last()[a] == series[a]);
        }
        lemma_last_at_or_before_idx(series.drop_last(), t, idx);
    }
}

/// Sweeps the transaction timeline once, in ascending order, assigning
/// each transaction the series row just behind it.
pub fn build_transaction_rates(
    transaction_timestamps: &Vec<i64>,
    db_rows: &Vec<RatesDbRow>,
) -> (r: Vec<TransactionExchangeRate>)
    requires
        rows_ascending(db_rows@),
        db_rows@.len() > 0,
        transaction_timestamps@.len() > 0,
        strictly_increasing(transaction_timestamps@),
        db_rows@[0].timestamp as int <= transaction_timestamps@[0],
    ensures
        r@.len() == transaction_timestamps@.len(),
        forall|i: int|
            0 <= i < r@.len() ==> #[trigger] r@[i] == (TransactionExchangeRate {
                transaction_timestamp: transaction_timestamps@[i],
                rate_timestamp: last_at_or_before(
                    db_rows@,
                    transaction_timestamps@[i],
                ).timestamp,
                rate: last_at_or_before(db_rows@, transaction_timestamps@[i]).rate,
            }),
{
    let mut out: Vec<TransactionExchangeRate> = Vec::new();
    let mut idx: usize = 0;
    let mut ti: usize = 0;
    while ti < transaction_timestamps.len()
        invariant
            rows_ascending(db_rows@),
            db_rows@.len() > 0,
            transaction_timestamps@.len() > 0,
            strictly_increasing(transaction_timestamps@),
            db_rows@[0].timestamp as int <= transaction_timestamps@[0],
            ti <= transaction_timestamps@.len(),
            idx <= db_rows@.len(),
            out@.len() == ti,
            ti == 0 ==> idx == 0,
            ti > 0 ==> 1 <= idx && db_rows@[idx - 1].timestamp as int
                <= transaction_timestamps@[ti - 1] && (idx < db_rows@.len()
                ==> db_rows@[idx as int].timestamp as int > transaction_timestamps@[ti - 1]),
            forall|k: int|
                0 <= k < ti ==> #[trigger] out@[k] == (TransactionExchangeRate {
                    transaction_timestamp: transaction_timestamps@[k],
                    rate_timestamp: last_at_or_before(
                        db_rows@,
                        transaction_timestamps@[k],
                    ).timestamp,
                    rate: last_at_or_before(db_rows@, transaction_timestamps@[k]).rate,
                }),
        decreases transaction_timestamps@.len() - ti,
    {
        let t_cur: i64 = transaction_timestamps[ti];
        proof {
            assert(transaction_timestamps@[0] <= t_cur as int);
            assert(db_rows@[0].timestamp as int >= 0);
            assert(t_cur >= 0);
        }
        while idx < db_rows.len() && db_rows[idx].timestamp <= (t_cur as u64)
            invariant
                rows_ascending(db_rows@),
                db_rows@.len() > 0,
                t_cur >= 0,
                idx <= db_rows@.len(),
                idx > 0 ==> db_rows@[idx - 1].timestamp as int <= t_cur as int,
            decreases db_rows@.len() - idx,
        {
            idx = idx + 1;
        }
        proof {
            if idx == 0 {
                assert(db_rows@[0].timestamp as int <= transaction_timestamps@[0]);
                assert(db_rows@[0].timestamp <= t_cur as u64);
                assert(false);
            }
            lemma_last_at_or_before_idx(db_rows@, t_cur, idx as int);
        }
        out.push(
            TransactionExchangeRate {
                transaction_timestamp: t_cur,
                rate_timestamp: db_rows[idx - 1].timestamp,
                rate: db_rows[idx - 1].rate,
            },
        );
        ti = ti + 1;
    }
    out
}

/// Whether one reconciled outcome is the right answer for one raw
/// timeline, against the given rate series.
pub open spec fn asset_outcome_matches(
    outcome: AssetHistoryResult,
    a: HistoryRequestTransactions,
    rates: Seq<RatesDbRow>,
) -> bool {
    let series = matched_rows(
        rates,
        a.asset.asset_code@,
        spec_normalize_issuer(a.asset.asset_code@, a.asset.asset_issuer),
        iso_datetime_seconds(a.unrealized_date@),
        0,
    );
    let ts = parsed_dates(a.transaction_dates@);
    &&& (outcome is Ok <==> series.len() > 0 && series[0].timestamp as int <= ts[0])
    &&& match outcome {
        Ok(ok) => {
            &&& ok.asset.asset_code@ == a.asset.asset_code@
            &&& Some(ok.asset.asset_issuer@) == spec_normalize_issuer(
                a.asset.asset_code@,
                a.asset.asset_issuer,
            )
            &&& ok.transaction_rates@.len() == ts.len()
            &&& forall|j: int|
                0 <= j < ts.len() ==> #[trigger] ok.transaction_rates@[j]
                    == (TransactionExchangeRate {
                    transaction_timestamp: ts[j],
                    rate_timestamp: last_at_or_before(series, ts[j]).timestamp,
                    rate: last_at_or_before(series, ts[j]).rate,
                })
            &&& ok.unrealized_rate == (TransactionExchangeRate {
                transaction_timestamp: iso_datetime_seconds(a.unrealized_date@)->0,
                rate_timestamp: series.last().timestamp,
                rate: series.last().rate,
            })
        },
        Err(failed) => {
            &&& failed.asset.asset_code@ == a.asset.asset_code@
            &&& Some(failed.asset.asset_issuer@) == spec_normalize_issuer(
                a.asset.asset_code@,
                a.asset.asset_issuer,
            )
        },
    }
}

/// Reconciles one validated timeline against the rate series: reads the
/// asset's series before the unrealized date, fails the asset — without
/// aborting anything — when the series is empty or starts after the
/// first transaction, and otherwise sweeps the timeline once.
pub fn process_asset(asset: &HistoryTransactionsTimestamps, rates: &Vec<RatesDbRow>) -> (r: Result<
    SuccessfulAsset,
    FailedAsset,
>)
    requires
        rows_ascending(rates@),
        asset.transaction_timestamps@.len() > 0,
        strictly_increasing(asset.transaction_timestamps@),
        asset.transaction_timestamps@.last() < asset.unrealized_timestamp,
    ensures
        ({
            let series = matched_rows(
                rates@,
                asset.asset.asset_code@,
                Some(asset.asset.asset_issuer@),
                Some(asset.unrealized_timestamp),
                0,
            );
            &&& (r is Ok <==> series.len() > 0 && series[0].timestamp as int
                <= asset.transaction_timestamps@[0])
            &&& (r is Err ==> r->Err_0.asset == asset.asset)
            &&& (r is Ok ==> {
                let ok = r->Ok_0;
                &&& ok.asset == asset.asset
                &&& ok.transaction_rates@.len() == asset.transaction_timestamps@.len()
                &&& forall|j: int|
                    0 <= j < asset.transaction_timestamps@.len()
                        ==> #[trigger] ok.transaction_rates@[j] == (TransactionExchangeRate {
                        transaction_timestamp: asset.transaction_timestamps@[j],
                        rate_timestamp: last_at_or_before(
                            series,
                            asset.transaction_timestamps@[j],
                        ).timestamp,
                        rate: last_at_or_before(
                            series,
                            asset.transaction_timestamps@[j],
                        ).rate,
                    })
                &&& ok.unrealized_rate == (TransactionExchangeRate {
                    transaction_timestamp: asset.unrealized_timestamp,
                    rate_timestamp: series.last().timestamp,
                    rate: series.last().rate,
                })
            })
        }),
{
    let ghost series = matched_rows(
        rates@,
        asset.asset.asset_code@,
        Some(asset.asset.asset_issuer@),
        Some(asset.unrealized_timestamp),
        0,
    );
    let params = crate::api::ValidatedRequest {
        asset_code: asset.asset.asset_code.clone(),
        asset_issuer: Some(asset.asset.asset_issuer.clone()),
        timestamp: Some(asset.unrealized_timestamp),
    };
    let no_savepoints: Vec<crate::store::Savepoint> = Vec::new();
    let db_rows = match crate::api::query_database(&params, rates, &no_savepoints) {
        Ok(rows) => rows,
        Err(_) => {
            proof {
                assert(false);
            }
            Vec::new()
        },
    };
    proof {
        assert(db_rows@ == series);
    }
    if db_rows.len() == 0 {
        return Err(
            FailedAsset {
                asset: asset.asset.clone(),
                error: make_string("no exchange rates found before the unrealized date"),
            },
        );
    }
    let t_first: i64 = asset.transaction_timestamps[0];
    let starts_too_late: bool = if t_first < 0 {
        true
    } else {
        db_rows[0].timestamp > (t_first as u64)
    };
    if starts_too_late {
        return Err(
            FailedAsset {
                asset: asset.asset.clone(),
                error: make_string("no exchange rates prior to the earliest transaction date"),
            },
        );
    }
    proof {
        lemma_matched_ascending(
            rates@,
            asset.asset.asset_code@,
            Some(asset.asset.asset_issuer@),
            Some(asset.unrealized_timestamp),
            0,
        );
    }
    let transaction_rates = build_transaction_rates(&asset.transaction_timestamps, &db_rows);
    let last = &db_rows[db_rows.len() - 1];
    let unrealized_rate = TransactionExchangeRate {
        transaction_timestamp: asset.unrealized_timestamp,
        rate_timestamp: last.timestamp,
        rate: last.rate,
    };
    Ok(SuccessfulAsset { asset: asset.asset.clone(), transaction_rates, unrealized_rate })
}

/// Answers a whole history request: validates every timeline — any
/// validation failure, the ordering violation included, rejects the
/// request before the series is read — then reconciles the timelines one
/// by one, keeping per-asset failures inside the batch.
pub fn handle_request(request: &HistoryRequest, rates: &Vec<RatesDbRow>) -> (r: Result<
    Vec<AssetHistoryResult>,
    ExchangeRateError,
>)
    requires
        rows_ascending(rates@),
    ensures
        r is Ok <==> request.assets@.len() > 0 && (forall|i: int|
            0 <= i < request.assets@.len() ==> asset_ok(#[trigger] request.assets@[i])),
        request.assets@.len() == 0 ==> r is Err && r->Err_0 == ExchangeRateError::EmptyRequest,
        r is Err && request.assets@.len() > 0 ==> exists|i: int|
            0 <= i < request.assets@.len() && !asset_ok(#[trigger] request.assets@[i])
                && (forall|j: int| 0 <= j < i ==> asset_ok(#[trigger] request.assets@[j]))
                && r->Err_0 == spec_asset_error(request.assets@[i]),
        r is Ok ==> r->Ok_0@.len() == request.assets@.len(),
        r is Ok ==> forall|i: int|
            0 <= i < r->Ok_0@.len() ==> asset_outcome_matches(
                #[trigger] r->Ok_0@[i],
                request.assets@[i],
                rates@,
            ),
{
    let validated = match validate_request(request) {
        Ok(v) => v,
        Err(e) => {
            return Err(e);
        },
    };
    let mut out: Vec<AssetHistoryResult> = Vec::new();
    let mut i: usize = 0;
    while i < validated.len()
        invariant
            rows_ascending(rates@),
            i <= validated@.len(),
            validated@.len() == request.assets@.len(),
            out@.len() == i,
            forall|t: int| 0 <= t < request.assets@.len() ==> asset_ok(
                #[trigger] request.assets@[t],
            ),
            forall|t: int|
                0 <= t < validated@.len() ==> validated_matches(
                    #[trigger] validated@[t],
                    request.assets@[t],
                ),
            forall|t: int|
                0 <= t < i ==> asset_outcome_matches(
                    #[trigger] out@[t],
                    request.assets@[t],
                    rates@,
                ),
        decreases validated@.len() - i,
    {
        let v = &validated[i];
        proof {
            assert(validated_matches(validated@[i as int], request.assets@[i as int]));
            assert(asset_ok(request.assets@[i as int]));
            assert(v.transaction_timestamps@ == parsed_dates(
                request.assets@[i as int].transaction_dates@,
            ));
            assert(v.transaction_timestamps@.len() > 0);
        }
        let outcome = process_asset(v, rates);
        proof {
            assert(asset_outcome_matches(outcome, request.assets@[i as int], rates@));
        }
        out.push(outcome);
        i = i + 1;
    }
    Ok(out)
}

} // verus!
