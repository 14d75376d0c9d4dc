//! Timestamps on catalog entries are RFC 3339 strings. Ranking duplicate
//! entries needs the instant a timestamp denotes; parsing is delegated to
//! chrono, and an entry whose timestamp does not parse counts as the
//! earliest possible instant, so it loses every tie against a parsable one.

use vstd::prelude::*;

verus! {

/// The instant denoted by the RFC 3339 string `s`, in milliseconds since the
/// Unix epoch, or nothing when `s` is not a valid RFC 3339 date-and-time.
/// The result depends on the characters of `s` alone.
pub uninterp spec fn rfc3339_millis(s: Seq<char>) -> Option<i64>;

/// Relies on chrono's `DateTime::parse_from_rfc3339` and
/// `DateTime::timestamp_millis`: parsing accepts exactly the valid RFC 3339
/// date-and-time strings, and both calls are functions of the string alone.
#[verifier::external_body]
pub fn parse_rfc3339_millis(s: &str) -> (r: Option<i64>)
    ensures
        r == rfc3339_millis(s@),
{
    match chrono::DateTime::parse_from_rfc3339(s) {
        Ok(dt) => Some(dt.timestamp_millis()),
        Err(_) => None,
    }
}

/// Strict order on parsed timestamps: an unparsable timestamp comes before
/// every parsable one, and parsable ones compare by their instant.
pub open spec fn ts_lt(a: Option<i64>, b: Option<i64>) -> bool {
    match (a, b) {
        (Option::None, Option::Some(_)) => true,
        (Option::Some(x), Option::Some(y)) => x < y,
        _ => false,
    }
}

/// Compare two parsed timestamps under `ts_lt`.
pub fn ts_lt_exec(a: &Option<i64>, b: &Option<i64>) -> (r: bool)
    ensures
        r == ts_lt(*a, *b),
{
    match (a, b) {
        (Option::None, Option::Some(_)) => true,
        (Option::Some(x), Option::Some(y)) => *x < *y,
        _ => false,
    }
}

/// `ts_lt` is a strict total order: irreflexive, asymmetric, transitive,
/// and two timestamps neither of which comes before the other are equal.
pub proof fn lemma_ts_lt_strict_total(a: Option<i64>, b: Option<i64>, c: Option<i64>)
    ensures
        !ts_lt(a, a),
        ts_lt(a, b) ==> !ts_lt(b, a),
        ts_lt(a, b) && ts_lt(b, c) ==> ts_lt(a, c),
        !ts_lt(a, b) && !ts_lt(b, a) ==> a == b,
{
}

} // verus!
