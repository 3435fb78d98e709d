//! RFC 3339 rendering of event timestamps (epoch microseconds).

use vstd::prelude::*;

verus! {

/// The RFC 3339 text chrono renders for the UTC instant `micros`
/// microseconds after the epoch, when chrono can represent that instant.
pub uninterp spec fn chrono_rfc3339_of_micros(micros: i64) -> Option<Seq<char>>;

/// chrono's `DateTime::<Utc>::from_timestamp_micros(micros)` rendered with
/// `DateTime::to_rfc3339`. The result is a function of `micros` alone; the
/// epoch itself is always representable.
#[verifier::external_body]
fn rfc3339_of_micros(micros: i64) -> (r: Option<String>)
    ensures
        crate::text::opt_view(r) == chrono_rfc3339_of_micros(micros),
        micros == 0 ==> r is Some,
{
    chrono::DateTime::<chrono::Utc>::from_timestamp_micros(micros).map(|d| d.to_rfc3339())
}

/// The epoch microseconds of an RFC 3339 timestamp text, as chrono reads it.
pub uninterp spec fn chrono_micros_of_rfc3339(text: Seq<char>) -> Option<i64>;

/// chrono's `DateTime::parse_from_rfc3339(text)` as `timestamp_micros`;
/// `None` when the text is no RFC 3339 timestamp. The result is a function of
/// the text alone: the offset is in the text.
#[verifier::external_body]
pub(crate) fn rfc3339_micros(text: &str) -> (r: Option<i64>)
    ensures
        r == chrono_micros_of_rfc3339(text@),
{
    chrono::DateTime::parse_from_rfc3339(text).ok().map(|d| d.timestamp_micros())
}

/// Epoch microseconds as an RFC 3339 timestamp; an instant chrono cannot
/// represent renders as the epoch.
pub open spec fn rfc3339_text(micros: i64) -> Seq<char> {
    match chrono_rfc3339_of_micros(micros) {
        Some(s) => s,
        None => chrono_rfc3339_of_micros(0).unwrap(),
    }
}

/// Format epoch microseconds as an RFC 3339 timestamp (the epoch when out of
/// range).
pub fn micros_to_rfc3339(micros: i64) -> (r: String)
    ensures
        r@ == rfc3339_text(micros),
{
    match rfc3339_of_micros(micros) {
        Some(s) => s,
        None => match rfc3339_of_micros(0) {
            Some(s) => s,
            None => String::new(),
        },
    }
}

} // verus!
