//! Pieces shared by the query endpoints: the error taxonomy, issuer
//! normalization and timestamp parsing.

use vstd::prelude::*;

use crate::text::{make_string, string_eq};

verus! {

/// Everything that can go wrong while answering a rate query.
#[derive(Debug, PartialEq, Eq)]
pub enum ExchangeRateError {
    /// The backing row store failed; only raised by unverified callers.
    DatabaseError,
    /// A history entry carried no transaction dates; holds the asset code.
    EmptyTransactions(String),
    /// A history request carried no assets at all.
    EmptyRequest,
    /// A caller-supplied timestamp did not parse as an ISO-8601 date-time.
    InvalidDate,
    /// Transaction dates out of order, or not earlier than the unrealized
    /// date.
    InvalidDateOrder,
    /// A non-native asset came without an issuer; holds the asset code.
    MissingIssuer(String),
    /// No qualifying data; holds a short description of what was missing.
    NotFound(String),
}

/// The seconds since the Unix epoch denoted by an ISO-8601 date-time
/// string, or `None` when the text does not parse. The value depends on
/// the text alone.
pub uninterp spec fn iso_datetime_seconds(s: Seq<char>) -> Option<i64>;

/// Relies on `time::PrimitiveDateTime::parse` with the ISO-8601 format
/// description, `PrimitiveDateTime::assume_utc` and
/// `OffsetDateTime::unix_timestamp`: together they map a date-time string
/// to its Unix timestamp, depending on the text alone.
#[verifier::external_body]
fn parse_iso_datetime(date_str: &String) -> (r: Option<i64>)
    ensures
        r == iso_datetime_seconds(date_str@),
{
    time::PrimitiveDateTime::parse(
        date_str,
        &time::format_description::well_known::Iso8601::DEFAULT,
    )
        .ok()
        .map(|dt| dt.assume_utc().unix_timestamp())
}

/// Turns a caller-supplied date-time string into a Unix timestamp,
/// rejecting text that does not parse.
pub fn parse_timestamp(date_str: &String) -> (r: Result<i64, ExchangeRateError>)
    ensures
        r is Ok <==> iso_datetime_seconds(date_str@) is Some,
        r is Ok ==> Some(r->Ok_0) == iso_datetime_seconds(date_str@),
        r is Err ==> r->Err_0 == ExchangeRateError::InvalidDate,
{
    match parse_iso_datetime(date_str) {
        Some(ts) => Ok(ts),
        None => Err(ExchangeRateError::InvalidDate),
    }
}

/// The issuer a request is normalized to: the native asset code always
/// maps to the fixed native issuer, any other code keeps the issuer the
/// caller supplied.
pub open spec fn spec_normalize_issuer(code: Seq<char>, issuer: Option<String>) -> Option<
    Seq<char>,
> {
    if code == "XLM"@ {
        Some("Native"@)
    } else {
        match issuer {
            Some(s) => Some(s@),
            None => None,
        }
    }
}

/// Normalizes the issuer of a requested asset: non-native tokens named
/// like the native asset are not allowed, so the native code forces the
/// native issuer.
pub fn normalize_issuer(asset_code: &String, asset_issuer: &Option<String>) -> (r: Option<String>)
    ensures
        match r {
            Some(s) => Some(s@) == spec_normalize_issuer(asset_code@, *asset_issuer),
            None => spec_normalize_issuer(asset_code@, *asset_issuer) is None,
        },
{
    if string_eq(asset_code, &make_string("XLM")) {
        Some(make_string("Native"))
    } else {
        match asset_issuer {
            Some(s) => Some(s.clone()),
            None => None,
        }
    }
}

} // verus!
