//! Time, taken from the `chrono` crate behind a trusted boundary.

use vstd::prelude::*;
use crate::strutil::plain;

verus! {

/// The Unix timestamp an RFC 3339 string denotes, if it parses. The result
/// of `chrono::DateTime::parse_from_rfc3339` depends on the characters
/// alone, so the name stands for it.
pub uninterp spec fn rfc3339_epoch_of(s: Seq<char>) -> Option<i64>;

/// Relies on chrono::DateTime::parse_from_rfc3339 followed by timestamp:
/// parsing is a function of the input characters alone.
#[verifier::external_body]
pub fn parse_rfc3339_epoch(s: &str) -> (r: Option<i64>)
    ensures
        r == rfc3339_epoch_of(s@),
{
    match chrono::DateTime::parse_from_rfc3339(s) {
        Ok(dt) => Some(dt.timestamp()),
        Err(_) => None,
    }
}

/// Relies on chrono::Utc::now for the wall clock. Nothing is assumed of the
/// value it returns.
#[verifier::external_body]
pub fn now_unix_seconds() -> i64 {
    chrono::Utc::now().timestamp()
}

/// Relies on chrono's RFC 3339 rendering of the wall clock: the rendering
/// uses digits and the separators `-:T+.Z` only, all of them printable
/// ASCII, none a quote or a backslash.
#[verifier::external_body]
pub fn now_rfc3339() -> (r: String)
    ensures
        plain(r@),
{
    chrono::Utc::now().to_rfc3339()
}

} // verus!
