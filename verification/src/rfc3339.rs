//! RFC 3339 rendering and parsing of store timestamps.
//!
//! Timestamps are carried as microseconds since the Unix epoch.  The
//! rendering and parsing themselves are done by chrono; this module only
//! names their results so that the cursor codec can reason about them.

use vstd::prelude::*;

verus! {

/// Upper bound on store timestamps: 9999-12-31T23:59:59.999999 UTC, in
/// microseconds since the Unix epoch.  Up to this bound chrono renders a
/// four-digit year, which its RFC 3339 parser accepts back.
pub const MAX_TS_MICROS: i64 = 253_402_300_799_999_999;

/// chrono's RFC 3339 rendering of the instant `t` microseconds after the
/// Unix epoch; a function of `t` alone.
pub uninterp spec fn rfc3339_of(t: i64) -> Seq<char>;

/// What parsing a text as an RFC 3339 instant yields, in microseconds
/// since the Unix epoch; a function of the text alone.
pub uninterp spec fn rfc3339_parse(s: Seq<char>) -> Option<i64>;

/// Relies on chrono's `DateTime::<Utc>::from_timestamp_micros`, defined for
/// every timestamp up to `MAX_TS_MICROS`, and `DateTime::to_rfc3339`, which
/// for years up to 9999 writes only digits and the punctuation `-T:.+`
/// (never `|`) and round-trips through `DateTime::parse_from_rfc3339`.
#[verifier::external_body]
pub(crate) fn format_rfc3339_micros(t: i64) -> (r: String)
    requires
        0 <= t <= MAX_TS_MICROS,
    ensures
        r@ == rfc3339_of(t),
        r@.len() >= 1,
        forall|i: int| 0 <= i < r@.len() ==> r@[i] != '|',
        rfc3339_parse(r@) == Some(t),
{
    let dt = chrono::DateTime::<chrono::Utc>::from_timestamp_micros(t).unwrap();
    dt.to_rfc3339()
}

/// Relies on chrono's `DateTime::parse_from_rfc3339`, whose outcome depends
/// on the text alone, and `DateTime::timestamp_micros` to read the parsed
/// instant out as a plain value.
#[verifier::external_body]
pub(crate) fn parse_rfc3339_micros(s: &str) -> (r: Option<i64>)
    ensures
        r == rfc3339_parse(s@),
{
    match chrono::DateTime::parse_from_rfc3339(s) {
        Ok(dt) => Some(dt.timestamp_micros()),
        Err(_) => None,
    }
}

} // verus!
