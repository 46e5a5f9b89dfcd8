//! The point-in-time rate lookup.
//!
//! A request names an asset code, an optional issuer and an optional "as
//! of" date. With a date, the answer is — per distinct issuer — the
//! record with the greatest timestamp strictly before it. Without one,
//! it is the record at the current watermark. An unparsable date is
//! rejected as such, never silently treated as missing, and an empty
//! answer is a lookup failure, never an empty success.

use vstd::prelude::*;

use crate::shared::{iso_datetime_seconds, normalize_issuer, parse_timestamp, spec_normalize_issuer,
    ExchangeRateError};
use crate::store::{rows_ascending, RatesDbRow, Savepoint};
use crate::text::{make_string, string_eq};

verus! {

/// A rate lookup request, as the caller sends it.
pub struct ExchangeRateRequest {
    pub asset_code: String,
    /// Optional issuer; without it every issuer of the code is answered.
    pub asset_issuer: Option<String>,
    /// Optional "as of" date, an ISO-8601 date-time text.
    pub date: Option<String>,
}

/// A plain echo request; answered outside the library.
pub struct CatRequest {
    pub text: String,
}

/// A validated lookup request: the issuer normalized, the date parsed.
pub struct ValidatedRequest {
    pub asset_code: String,
    pub asset_issuer: Option<String>,
    /// Seconds since the Unix epoch; `None` asks for the rates at the
    /// current watermark.
    pub timestamp: Option<i64>,
}

/// Whether a request's date text is present but unparsable.
pub open spec fn date_invalid(request: ExchangeRateRequest) -> bool {
    request.date is Some && iso_datetime_seconds(request.date->0@) is None
}

/// Validates a lookup request: parses the date, if any, and normalizes
/// the issuer; a present but unparsable date is rejected.
pub fn validate_request(request: &ExchangeRateRequest) -> (r: Result<
    ValidatedRequest,
    ExchangeRateError,
>)
    ensures
        r is Err <==> date_invalid(*request),
        r is Err ==> r->Err_0 == ExchangeRateError::InvalidDate,
        r is Ok ==> {
            let v = r->Ok_0;
            &&& v.asset_code@ == request.asset_code@
            &&& match v.asset_issuer {
                Some(s) => Some(s@) == spec_normalize_issuer(
                    request.asset_code@,
                    request.asset_issuer,
                ),
                None => spec_normalize_issuer(request.asset_code@, request.asset_issuer) is None,
            }
            &&& match request.date {
                Some(d) => v.timestamp == iso_datetime_seconds(d@),
                None => v.timestamp is None,
            }
        },
{
    let timestamp: Option<i64> = match &request.date {
        Some(date_str) => Some(parse_timestamp(date_str)?),
        None => None,
    };
    let asset_issuer = normalize_issuer(&request.asset_code, &request.asset_issuer);
    Ok(ValidatedRequest { asset_code: request.asset_code.clone(), asset_issuer, timestamp })
}

/// Whether a rate row answers a validated request: the code matches, the
/// issuer matches when one was asked for, and the row lies strictly
/// before the "as of" time — or exactly at the watermark when no time
/// was given.
pub open spec fn row_matches(
    row: RatesDbRow,
    code: Seq<char>,
    issuer: Option<Seq<char>>,
    asof: Option<i64>,
    watermark: u64,
) -> bool {
    &&& row.floatcode@ == code
    &&& match issuer {
        Some(s) => row.fltissuer@ == s,
        None => true,
    }
    &&& match asof {
        Some(t) => (row.timestamp as int) < t as int,
        None => row.timestamp == watermark,
    }
}

/// The rows that answer a request, in series order.
pub open spec fn matched_rows(
    rows: Seq<RatesDbRow>,
    code: Seq<char>,
    issuer: Option<Seq<char>>,
    asof: Option<i64>,
    watermark: u64,
) -> Seq<RatesDbRow>
    decreases rows.len(),
{
    if rows.len() == 0 {
        Seq::empty()
    } else {
        let prev = matched_rows(rows.drop_last(), code, issuer, asof, watermark);
        if row_matches(rows.last(), code, issuer, asof, watermark) {
            prev.push(rows.last())
        } else {
            prev
        }
    }
}

/// The distinct issuers of a row sequence, in first-occurrence order.
pub open spec fn issuers_of(rows: Seq<RatesDbRow>) -> Seq<Seq<char>>
    decreases rows.len(),
{
    if rows.len() == 0 {
        Seq::empty()
    } else {
        let prev = issuers_of(rows.drop_last());
        if prev.contains(rows.last().fltissuer@) {
            prev
        } else {
            prev.push(rows.last().fltissuer@)
        }
    }
}

/// The last row of the sequence carrying this issuer.
pub open spec fn last_with_issuer(rows: Seq<RatesDbRow>, issuer: Seq<char>) -> RatesDbRow
    decreases rows.len(),
{
    if rows.len() == 0 {
        rows[0]
    } else if rows.last().fltissuer@ == issuer {
        rows.last()
    } else {
        last_with_issuer(rows.drop_last(), issuer)
    }
}

/// Per distinct issuer, the last — under an ascending series the most
/// recent — of the rows, in first-occurrence order of the issuers.
pub open spec fn select_latest(rows: Seq<RatesDbRow>) -> Seq<RatesDbRow> {
    issuers_of(rows).map_values(|iss: Seq<char>| last_with_issuer(rows, iss))
}

/// The issuer list of a row sequence is duplicate-free.
pub proof fn lemma_issuers_distinct(rows: Seq<RatesDbRow>)
    ensures
        forall|i: int, j: int|
            0 <= i < j < issuers_of(rows).len() ==> issuers_of(rows)[i] != issuers_of(rows)[j],
    decreases rows.len(),
{
    if rows.len() > 0 {
        lemma_issuers_distinct(rows.drop_last());
        let prev = issuers_of(rows.drop_last());
        let iss = rows.last().fltissuer@;
        if !prev.contains(iss) {
            let all = issuers_of(rows);
            assert(all == prev.push(iss));
            assert forall|i: int, j: int| 0 <= i < j < all.len() implies all[i] != all[j] by {
                if j < prev.len() {
                    assert(prev[i] == all[i] && prev[j] == all[j]);
                } else {
                    assert(all[j] == iss);
                    assert(all[i] == prev[i]);
                    if all[i] == iss {
                        assert(prev.contains(iss));
                    }
                }
            }
        }
    }
}

/// In an ascending series, the last row of an issuer carries that
/// issuer's greatest timestamp.
pub proof fn lemma_last_is_latest(rows: Seq<RatesDbRow>, issuer: Seq<char>, i: int)
    requires
        rows_ascending(rows),
        0 <= i < rows.len(),
        rows[i].fltissuer@ == issuer,
    ensures
        last_with_issuer(rows, issuer).fltissuer@ == issuer,
        rows[i].timestamp <= last_with_issuer(rows, issuer).timestamp,
        exists|j: int|
            0 <= j < rows.len() && rows[j] == last_with_issuer(rows, issuer),
    decreases rows.len(),
{
    if rows.last().fltissuer@ == issuer {
        assert(rows[rows.len() - 1] == last_with_issuer(rows, issuer));
    } else {
        assert(i < rows.len() - 1);
        assert(rows_ascending(rows.drop_last())) by {
            assert(forall|t: int|
                0 <= t < rows.len() - 1 ==> rows.drop_last()[t] == rows[t]);
        }
        lemma_last_is_latest(rows.drop_last(), issuer, i);
        let j = choose|j: int|
            0 <= j < rows.drop_last().len() && rows.drop_last()[j] == last_with_issuer(
                rows.drop_last(),
                issuer,
            );
        assert(rows[j] == last_with_issuer(rows, issuer));
    }
}

/// A filtered subsequence of an ascending series is ascending.
pub proof fn lemma_matched_ascending(
    rows: Seq<RatesDbRow>,
    code: Seq<char>,
    issuer: Option<Seq<char>>,
    asof: Option<i64>,
    watermark: u64,
)
    requires
        rows_ascending(rows),
    ensures
        rows_ascending(matched_rows(rows, code, issuer, asof, watermark)),
        forall|i: int|
            0 <= i < matched_rows(rows, code, issuer, asof, watermark).len() ==> row_matches(
                #[trigger] matched_rows(rows, code, issuer, asof, watermark)[i],
                code,
                issuer,
                asof,
                watermark,
            ),
    decreases rows.len(),
{
    if rows.len() > 0 {
        assert(rows_ascending(rows.drop_last())) by {
            assert(forall|t: int|
                0 <= t < rows.len() - 1 ==> rows.drop_last()[t] == rows[t]);
        }
        lemma_matched_ascending(rows.drop_last(), code, issuer, asof, watermark);
        let prev = matched_rows(rows.drop_last(), code, issuer, asof, watermark);
        lemma_matched_members(rows.drop_last(), code, issuer, asof, watermark);
        if row_matches(rows.last(), code, issuer, asof, watermark) {
            let all = prev.push(rows.last());
            assert forall|i: int, j: int|
                0 <= i < j < all.len() implies (#[trigger] all[i]).timestamp
                <= (#[trigger] all[j]).timestamp by {
                if j < prev.len() {
                    assert(all[i] == prev[i] && all[j] == prev[j]);
                } else {
                    let t = choose|t: int|
                        0 <= t < rows.drop_last().len() && rows.drop_last()[t] == prev[i];
                    assert(rows[t] == prev[i]);
                    assert(rows[t].timestamp <= rows[rows.len() - 1].timestamp);
                }
            }
        }
    }
}

/// Every matched row appears in the underlying series.
pub proof fn lemma_matched_members(
    rows: Seq<RatesDbRow>,
    code: Seq<char>,
    issuer: Option<Seq<char>>,
    asof: Option<i64>,
    watermark: u64,
)
    ensures
        forall|i: int|
            0 <= i < matched_rows(rows, code, issuer, asof, watermark).len() ==> exists|t: int|
                0 <= t < rows.len() && rows[t] == #[trigger] matched_rows(
                    rows,
                    code,
                    issuer,
                    asof,
                    watermark,
                )[i],
    decreases rows.len(),
{
    if rows.len() > 0 {
        lemma_matched_members(rows.drop_last(), code, issuer, asof, watermark);
        let prev = matched_rows(rows.drop_last(), code, issuer, asof, watermark);
        let all = matched_rows(rows, code, issuer, asof, watermark);
        assert forall|i: int| 0 <= i < all.len() implies exists|t: int|
            0 <= t < rows.len() && rows[t] == #[trigger] all[i] by {
            if i < prev.len() {
                assert(all[i] == prev[i]);
                let t = choose|t: int|
                    0 <= t < rows.drop_last().len() && rows.drop_last()[t] == prev[i];
                assert(rows[t] == all[i]);
            } else {
                assert(all[i] == rows[rows.len() - 1]);
            }
        }
    }
}

/// The view of an optional issuer text.
pub open spec fn opt_text(o: Option<String>) -> Option<Seq<char>> {
    match o {
        Some(s) => Some(s@),
        None => None,
    }
}

/// The "as of" bound a request asks for, once parsed.
pub open spec fn req_asof(request: ExchangeRateRequest) -> Option<i64> {
    match request.date {
        Some(d) => iso_datetime_seconds(d@),
        None => None,
    }
}

/// Every issuer of the issuer list has a witness row.
pub proof fn lemma_issuers_witness(rows: Seq<RatesDbRow>, k: int)
    requires
        0 <= k < issuers_of(rows).len(),
    ensures
        exists|i: int|
            0 <= i < rows.len() && (#[trigger] rows[i]).fltissuer@ == issuers_of(rows)[k],
    decreases rows.len(),
{
    if rows.len() > 0 {
        let prev = issuers_of(rows.drop_last());
        if k < prev.len() {
            lemma_issuers_witness(rows.drop_last(), k);
            let i = choose|i: int|
                0 <= i < rows.drop_last().len() && (#[trigger] rows.drop_last()[i]).fltissuer@
                    == prev[k];
            assert(rows[i].fltissuer@ == issuers_of(rows)[k]);
        } else {
            assert(issuers_of(rows)[k] == rows.last().fltissuer@);
            assert(rows[rows.len() - 1].fltissuer@ == issuers_of(rows)[k]);
        }
    }
}

/// Whether a row passes the time test of a request.
fn time_ok(row: &RatesDbRow, asof: &Option<i64>, watermark: u64) -> (r: bool)
    ensures
        r == match *asof {
            Some(t) => (row.timestamp as int) < t as int,
            None => row.timestamp == watermark,
        },
{
    match asof {
        Some(t) => {
            if *t > 0 {
                row.timestamp < (*t as u64)
            } else {
                false
            }
        },
        None => row.timestamp == watermark,
    }
}

/// Reads the rate series for a validated request: the rows of the
/// requested asset strictly before the "as of" time, or at the current
/// watermark when no time was given — in which case a store without a
/// watermark has nothing to answer from.
pub fn query_database(
    params: &ValidatedRequest,
    rates: &Vec<RatesDbRow>,
    savepoints: &Vec<Savepoint>,
) -> (r: Result<Vec<RatesDbRow>, ExchangeRateError>)
    ensures
        r is Err <==> params.timestamp is None && savepoints@.len() == 0,
        r is Err ==> ({
            &&& r->Err_0 matches ExchangeRateError::NotFound(s) && s@ == "timestamp"@
        }),
        r is Ok ==> r->Ok_0@ == matched_rows(
            rates@,
            params.asset_code@,
            opt_text(params.asset_issuer),
            params.timestamp,
            if params.timestamp is None {
                savepoints@[0].savepoint
            } else {
                0
            },
        ),
{
    let watermark: u64 = match &params.timestamp {
        Some(_) => 0,
        None => {
            if savepoints.len() == 0 {
                return Err(ExchangeRateError::NotFound(make_string("timestamp")));
            }
            savepoints[0].savepoint
        },
    };
    let mut out: Vec<RatesDbRow> = Vec::new();
    let ghost iss = opt_text(params.asset_issuer);
    let mut i: usize = 0;
    proof {
        assert(rates@.take(0) =~= Seq::<RatesDbRow>::empty());
        assert(out@ =~= matched_rows(rates@.take(0), params.asset_code@, iss, params.timestamp,
            watermark));
    }
    while i < rates.len()
        invariant
            i <= rates.len(),
            iss == opt_text(params.asset_issuer),
            out@ == matched_rows(
                rates@.take(i as int),
                params.asset_code@,
                iss,
                params.timestamp,
                watermark,
            ),
        decreases rates.len() - i,
    {
        proof {
            assert(rates@.take(i + 1).drop_last() =~= rates@.take(i as int));
            assert(rates@.take(i + 1).last() == rates@[i as int]);
        }
        let row = &rates[i];
        let code_ok = string_eq(&row.floatcode, &params.asset_code);
        let issuer_ok = match &params.asset_issuer {
            Some(s) => string_eq(&row.fltissuer, s),
            None => true,
        };
        if code_ok && issuer_ok && time_ok(row, &params.timestamp, watermark) {
            proof {
                assert(row_matches(rates@[i as int], params.asset_code@, iss, params.timestamp,
                    watermark));
            }
            out.push(row.clone());
        } else {
            proof {
                assert(!row_matches(rates@[i as int], params.asset_code@, iss, params.timestamp,
                    watermark));
            }
        }
        i = i + 1;
    }
    proof {
        assert(rates@.take(rates@.len() as int) =~= rates@);
    }
    Ok(out)
}

/// Keeps, per distinct issuer, only the most recent of the matched rows;
/// an empty match is a lookup failure, never an empty success.
pub fn process_results(results: Vec<RatesDbRow>) -> (r: Result<
    Vec<RatesDbRow>,
    ExchangeRateError,
>)
    ensures
        r is Err <==> results@.len() == 0,
        r is Err ==> ({
            &&& r->Err_0 matches ExchangeRateError::NotFound(s) && s@ == "exchange rate"@
        }),
        r is Ok ==> r->Ok_0@ == select_latest(results@),
{
    if results.len() == 0 {
        return Err(ExchangeRateError::NotFound(make_string("exchange rate")));
    }
    let mut out: Vec<RatesDbRow> = Vec::new();
    let mut i: usize = 0;
    proof {
        assert(results@.take(0) =~= Seq::<RatesDbRow>::empty());
    }
    while i < results.len()
        invariant
            i <= results.len(),
            out@.len() == issuers_of(results@.take(i as int)).len(),
            forall|k: int|
                0 <= k < out@.len() ==> (#[trigger] out@[k]).fltissuer@ == issuers_of(
                    results@.take(i as int),
                )[k],
            forall|k: int|
                0 <= k < out@.len() ==> #[trigger] out@[k] == last_with_issuer(
                    results@.take(i as int),
                    issuers_of(results@.take(i as int))[k],
                ),
        decreases results.len() - i,
    {
        let ghost pre = results@.take(i as int);
        let ghost post = results@.take(i + 1);
        proof {
            assert(post.drop_last() =~= pre);
            assert(post.last() == results@[i as int]);
            lemma_issuers_distinct(pre);
        }
        let row = &results[i];
        let mut j: usize = 0;
        let mut found: bool = false;
        let mut found_at: usize = 0;
        while j < out.len()
            invariant
                j <= out.len(),
                !found ==> forall|t: int|
                    0 <= t < j ==> (#[trigger] out@[t]).fltissuer@ != row.fltissuer@,
                found ==> found_at < out@.len() && out@[found_at as int].fltissuer@
                    == row.fltissuer@,
                row == results@[i as int],
            decreases out.len() - j,
        {
            if !found && string_eq(&out[j].fltissuer, &row.fltissuer) {
                found = true;
                found_at = j;
            }
            j = j + 1;
        }
        proof {
            if found {
                assert(issuers_of(pre)[found_at as int] == results@[i as int].fltissuer@);
                assert(issuers_of(pre).contains(results@[i as int].fltissuer@));
                assert(issuers_of(post) == issuers_of(pre));
            } else {
                if issuers_of(pre).contains(results@[i as int].fltissuer@) {
                    let t = choose|t: int|
                        0 <= t < issuers_of(pre).len()
                            && issuers_of(pre)[t] == results@[i as int].fltissuer@;
                    assert(out@[t].fltissuer@ == results@[i as int].fltissuer@);
                    assert(false);
                }
                assert(issuers_of(post) == issuers_of(pre).push(results@[i as int].fltissuer@));
            }
        }
        if found {
            out.set(found_at, row.clone());
            proof {
                assert forall|k: int|
                    0 <= k < out@.len() implies #[trigger] out@[k] == last_with_issuer(
                    post,
                    issuers_of(post)[k],
                ) && out@[k].fltissuer@ == issuers_of(post)[k] by {
                    if k == found_at as int {
                        assert(out@[k] == results@[i as int]);
                    } else {
                        assert(issuers_of(pre)[k] != issuers_of(pre)[found_at as int]);
                        assert(last_with_issuer(post, issuers_of(post)[k]) == last_with_issuer(
                            pre,
                            issuers_of(pre)[k],
                        ));
                    }
                }
            }
        } else {
            out.push(row.clone());
            proof {
                assert forall|k: int|
                    0 <= k < out@.len() implies #[trigger] out@[k] == last_with_issuer(
                    post,
                    issuers_of(post)[k],
                ) && out@[k].fltissuer@ == issuers_of(post)[k] by {
                    if k == out@.len() - 1 {
                        assert(out@[k] == results@[i as int]);
                        assert(issuers_of(post)[k] == results@[i as int].fltissuer@);
                    } else {
                        assert(out@[k].fltissuer@ == issuers_of(pre)[k]);
                        assert(!issuers_of(pre).contains(results@[i as int].fltissuer@));
                        assert(issuers_of(pre).contains(issuers_of(pre)[k]));
                        assert(issuers_of(pre)[k] != results@[i as int].fltissuer@);
                        assert(last_with_issuer(post, issuers_of(post)[k]) == last_with_issuer(
                            pre,
                            issuers_of(pre)[k],
                        ));
                    }
                }
            }
        }
        i = i + 1;
    }
    proof {
        assert(results@.take(results@.len() as int) =~= results@);
        assert(out@ =~= select_latest(results@));
    }
    Ok(out)
}

/// Answers one rate lookup against the persisted series and watermark:
/// validates the request, reads the matching rows and keeps the most
/// recent per distinct issuer.
pub fn handle_request(
    request: &ExchangeRateRequest,
    rates: &Vec<RatesDbRow>,
    savepoints: &Vec<Savepoint>,
) -> (r: Result<Vec<RatesDbRow>, ExchangeRateError>)
    requires
        rows_ascending(rates@),
    ensures
        (r is Err && r->Err_0 == ExchangeRateError::InvalidDate) <==> date_invalid(*request),
        !date_invalid(*request) && request.date is None && savepoints@.len() == 0 ==> ({
            &&& r is Err
            &&& r->Err_0 matches ExchangeRateError::NotFound(s) && s@ == "timestamp"@
        }),
        !date_invalid(*request) && !(request.date is None && savepoints@.len() == 0) ==> {
            let m = matched_rows(
                rates@,
                request.asset_code@,
                spec_normalize_issuer(request.asset_code@, request.asset_issuer),
                req_asof(*request),
                if request.date is None {
                    savepoints@[0].savepoint
                } else {
                    0
                },
            );
            &&& (m.len() == 0 ==> ({
                &&& r is Err
                &&& r->Err_0 matches ExchangeRateError::NotFound(s) && s@ == "exchange rate"@
            }))
            &&& (m.len() > 0 ==> r is Ok && r->Ok_0@ == select_latest(m))
            &&& (r is Ok ==> forall|k: int, t: int|
                0 <= k < r->Ok_0@.len() && 0 <= t < m.len() && (#[trigger] m[t]).fltissuer@ == (
                #[trigger] r->Ok_0@[k]).fltissuer@ ==> m[t].timestamp <= r->Ok_0@[k].timestamp)
        },
{
    let validated = validate_request(request)?;
    let ghost m = matched_rows(
        rates@,
        request.asset_code@,
        spec_normalize_issuer(request.asset_code@, request.asset_issuer),
        req_asof(*request),
        if request.date is None {
            savepoints@[0].savepoint
        } else {
            0
        },
    );
    let db_results = query_database(&validated, rates, savepoints)?;
    proof {
        assert(db_results@ == m);
    }
    let selected = process_results(db_results)?;
    proof {
        lemma_matched_ascending(
            rates@,
            request.asset_code@,
            spec_normalize_issuer(request.asset_code@, request.asset_issuer),
            req_asof(*request),
            if request.date is None {
                savepoints@[0].savepoint
            } else {
                0
            },
        );
        assert forall|k: int, t: int|
            0 <= k < selected@.len() && 0 <= t < m.len() && (#[trigger] m[t]).fltissuer@ == (
            #[trigger] selected@[k]).fltissuer@ implies m[t].timestamp
            <= selected@[k].timestamp by {
            assert(selected@[k] == last_with_issuer(m, issuers_of(m)[k]));
            lemma_issuers_witness(m, k);
            let w = choose|w: int|
                0 <= w < m.len() && (#[trigger] m[w]).fltissuer@ == issuers_of(m)[k];
            lemma_last_is_latest(m, issuers_of(m)[k], w);
            assert(selected@[k].fltissuer@ == issuers_of(m)[k]);
            lemma_last_is_latest(m, m[t].fltissuer@, t);
            assert(last_with_issuer(m, m[t].fltissuer@) == last_with_issuer(m, issuers_of(m)[k]));
        }
    }
    Ok(selected)
}

/// One asset's full rate series, in series order.
pub struct RateSeries {
    pub floatcode: String,
    pub fltissuer: String,
    pub rows: Vec<RatesDbRow>,
}

/// The asset key of a rate row.
pub open spec fn key_of_row(row: RatesDbRow) -> (Seq<char>, Seq<char>) {
    (row.floatcode@, row.fltissuer@)
}

/// The distinct asset keys of a row sequence, in first-occurrence order.
pub open spec fn row_keys_of(rows: Seq<RatesDbRow>) -> Seq<(Seq<char>, Seq<char>)>
    decreases rows.len(),
{
    if rows.len() == 0 {
        Seq::empty()
    } else {
        let prev = row_keys_of(rows.drop_last());
        if prev.contains(key_of_row(rows.last())) {
            prev
        } else {
            prev.push(key_of_row(rows.last()))
        }
    }
}

/// The rows of one asset, in series order.
pub open spec fn rows_with_key(rows: Seq<RatesDbRow>, key: (Seq<char>, Seq<char>)) -> Seq<
    RatesDbRow,
>
    decreases rows.len(),
{
    if rows.len() == 0 {
        Seq::empty()
    } else {
        let prev = rows_with_key(rows.drop_last(), key);
        if key_of_row(rows.last()) == key {
            prev.push(rows.last())
        } else {
            prev
        }
    }
}

/// Collects the distinct asset keys of the series, as owned texts, in
/// first-occurrence order.
fn collect_row_keys(rates: &Vec<RatesDbRow>) -> (r: Vec<(String, String)>)
    ensures
        r@.len() == row_keys_of(rates@).len(),
        forall|k: int|
            0 <= k < r@.len() ==> ((#[trigger] r@[k]).0@, r@[k].1@) == row_keys_of(rates@)[k],
{
    let mut keys: Vec<(String, String)> = Vec::new();
    let mut i: usize = 0;
    proof {
        assert(rates@.take(0) =~= Seq::<RatesDbRow>::empty());
    }
    while i < rates.len()
        invariant
            i <= rates.len(),
            keys@.len() == row_keys_of(rates@.take(i as int)).len(),
            forall|k: int|
                0 <= k < keys@.len() ==> ((#[trigger] keys@[k]).0@, keys@[k].1@) == row_keys_of(
                    rates@.take(i as int),
                )[k],
        decreases rates.len() - i,
    {
        let ghost pre = rates@.take(i as int);
        let ghost post = rates@.take(i + 1);
        proof {
            assert(post.drop_last() =~= pre);
            assert(post.last() == rates@[i as int]);
        }
        let row = &rates[i];
        let mut j: usize = 0;
        let mut found: bool = false;
        while j < keys.len()
            invariant
                j <= keys.len(),
                !found ==> forall|t: int|
                    0 <= t < j ==> ((#[trigger] keys@[t]).0@, keys@[t].1@) != (row.floatcode@,
                    row.fltissuer@),
                found ==> exists|t: int|
                    0 <= t < keys@.len() && ((#[trigger] keys@[t]).0@, keys@[t].1@) == (
                    row.floatcode@, row.fltissuer@),
                row == &rates@[i as int],
            decreases keys.len() - j,
        {
            if !found && string_eq(&keys[j].0, &row.floatcode) && string_eq(
                &keys[j].1,
                &row.fltissuer,
            ) {
                found = true;
            }
            j = j + 1;
        }
        proof {
            if found {
                let t = choose|t: int|
                    0 <= t < keys@.len() && ((#[trigger] keys@[t]).0@, keys@[t].1@) == (
                    rates@[i as int].floatcode@, rates@[i as int].fltissuer@);
                assert(row_keys_of(pre)[t] == key_of_row(rates@[i as int]));
                assert(row_keys_of(pre).contains(key_of_row(rates@[i as int])));
                assert(row_keys_of(post) == row_keys_of(pre));
            } else {
                if row_keys_of(pre).contains(key_of_row(rates@[i as int])) {
                    let t = choose|t: int|
                        0 <= t < row_keys_of(pre).len() && row_keys_of(pre)[t] == key_of_row(
                            rates@[i as int],
                        );
                    assert(((keys@[t]).0@, keys@[t].1@) == key_of_row(rates@[i as int]));
                    assert(false);
                }
                assert(row_keys_of(post) == row_keys_of(pre).push(key_of_row(rates@[i as int])));
            }
        }
        if !found {
            keys.push((row.floatcode.clone(), row.fltissuer.clone()));
        }
        i = i + 1;
    }
    proof {
        assert(rates@.take(rates@.len() as int) =~= rates@);
    }
    keys
}

/// Collects one asset's rows, in series order.
fn collect_series(rates: &Vec<RatesDbRow>, code: &String, issuer: &String) -> (r: Vec<RatesDbRow>)
    ensures
        r@ == rows_with_key(rates@, (code@, issuer@)),
{
    let mut out: Vec<RatesDbRow> = Vec::new();
    let mut i: usize = 0;
    proof {
        assert(rates@.take(0) =~= Seq::<RatesDbRow>::empty());
    }
    while i < rates.len()
        invariant
            i <= rates.len(),
            out@ == rows_with_key(rates@.take(i as int), (code@, issuer@)),
        decreases rates.len() - i,
    {
        proof {
            assert(rates@.take(i + 1).drop_last() =~= rates@.take(i as int));
            assert(rates@.take(i + 1).last() == rates@[i as int]);
        }
        let row = &rates[i];
        if string_eq(&row.floatcode, code) && string_eq(&row.fltissuer, issuer) {
            out.push(row.clone());
        }
        i = i + 1;
    }
    proof {
        assert(rates@.take(rates@.len() as int) =~= rates@);
    }
    out
}

/// Groups the whole rate series by asset: one group per distinct asset
/// in first-occurrence order, each holding that asset's rows in series
/// order — never a blended row across issuers.
pub fn get_all_exchange_rates(rates: &Vec<RatesDbRow>) -> (r: Vec<RateSeries>)
    ensures
        r@.len() == row_keys_of(rates@).len(),
        forall|k: int|
            0 <= k < r@.len() ==> ((#[trigger] r@[k]).floatcode@, r@[k].fltissuer@) == row_keys_of(
                rates@,
            )[k] && r@[k].rows@ == rows_with_key(rates@, row_keys_of(rates@)[k]),
{
    let keys = collect_row_keys(rates);
    let mut out: Vec<RateSeries> = Vec::new();
    let mut k: usize = 0;
    while k < keys.len()
        invariant
            k <= keys.len(),
            keys@.len() == row_keys_of(rates@).len(),
            forall|t: int|
                0 <= t < keys@.len() ==> ((#[trigger] keys@[t]).0@, keys@[t].1@) == row_keys_of(
                    rates@,
                )[t],
            out@.len() == k,
            forall|t: int|
                0 <= t < k ==> ((#[trigger] out@[t]).floatcode@, out@[t].fltissuer@)
                    == row_keys_of(rates@)[t] && out@[t].rows@ == rows_with_key(
                    rates@,
                    row_keys_of(rates@)[t],
                ),
        decreases keys.len() - k,
    {
        let rows = collect_series(rates, &keys[k].0, &keys[k].1);
        out.push(
            RateSeries { floatcode: keys[k].0.clone(), fltissuer: keys[k].1.clone(), rows },
        );
        k = k + 1;
    }
    out
}

} // verus!
