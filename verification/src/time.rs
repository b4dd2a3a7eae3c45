//! Fixed ISO-8601 UTC timestamp formatting for the wire; the calendar
//! arithmetic itself is done by chrono.

use vstd::prelude::*;

verus! {

/// The ISO-8601 UTC text of a Unix timestamp. The text depends on the
/// timestamp alone: never on locale, platform or clock.
pub uninterp spec fn iso_of(t: i64) -> Seq<char>;

/// The first second this core formats: 0000-01-01T00:00:00 UTC, the
/// earliest instant the fixed four-digit-year form can render.
pub const MIN_WIRE_TS: i64 = -62167219200;

/// The last second this core formats: 9999-12-31T23:59:59 UTC.
pub const MAX_WIRE_TS: i64 = 253402300799;

/// Relies on chrono's `DateTime::from_timestamp`, which is `Some` for every
/// second in the admitted range, and `to_rfc3339_opts` with UTC `Z` and
/// whole seconds, which renders years 0 through 9999 as fixed four digits:
/// fixed ISO-8601 text, a function of the timestamp alone.
#[verifier::external_body]
pub fn format_utc(t: i64) -> (r: String)
    requires
        MIN_WIRE_TS <= t <= MAX_WIRE_TS,
    ensures
        r@ == iso_of(t),
{
    let dt = chrono::DateTime::<chrono::Utc>::from_timestamp(t, 0).unwrap();
    dt.to_rfc3339_opts(chrono::SecondsFormat::Secs, true)
}

} // verus!
