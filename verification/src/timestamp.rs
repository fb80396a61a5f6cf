use vstd::prelude::*;

use crate::model::opt_view;

verus! {

/// What chrono makes of an RFC 3339 timestamp: parsed with
/// `DateTime::parse_from_rfc3339`, converted to UTC, and written back with
/// whole seconds and a `Z` suffix; `None` when it does not parse.
pub uninterp spec fn rfc3339_utc_seconds(text: Seq<char>) -> Option<Seq<char>>;

/// `chrono::DateTime::parse_from_rfc3339` followed by `to_utc()` and
/// `to_rfc3339_opts(SecondsFormat::Secs, true)`. The contract names the
/// result (`rfc3339_utc_seconds`); chrono's parser is not restated.
#[verifier::external_body]
fn chrono_utc_seconds(value: &str) -> (r: Option<String>)
    ensures
        opt_view(r) == rfc3339_utc_seconds(value@),
{
    match chrono::DateTime::parse_from_rfc3339(value) {
        Ok(parsed) => Some(parsed.to_utc().to_rfc3339_opts(chrono::SecondsFormat::Secs, true)),
        Err(_) => None,
    }
}

/// A timestamp is canonical when chrono's UTC, whole-second rendering of it
/// is the timestamp itself.
pub open spec fn is_canonical_timestamp(value: Seq<char>) -> bool {
    rfc3339_utc_seconds(value) == Some(value)
}

/// The timestamp itself when it is canonical UTC RFC 3339 with whole seconds.
pub fn canonical_timestamp(value: &str) -> (r: Option<String>)
    ensures
        r is Some <==> is_canonical_timestamp(value@),
        r matches Some(c) ==> c@ == value@,
{
    match chrono_utc_seconds(value) {
        Some(c) => {
            if crate::text::str_eq(c.as_str(), value) {
                Some(c)
            } else {
                None
            }
        },
        None => None,
    }
}

} // verus!
