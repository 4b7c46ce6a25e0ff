//! Calendar rendering of stored timestamps. Responses carry each
//! timestamp shifted to a fixed offset east of UTC, in RFC 3339 form.

use vstd::prelude::*;

use crate::db::store::TS_MAX;

verus! {

/// The RFC 3339 rendering of a timestamp at a fixed offset (in seconds)
/// east of UTC, as chrono's formatter writes it. Deterministic in the
/// timestamp and the offset.
pub uninterp spec fn rfc3339_of(secs: int, offset_secs: int) -> Seq<char>;

/// Relies on chrono: builds the date and time at the given offset east of
/// UTC and renders it in RFC 3339 form. Total on the store's timestamp
/// range and on offsets of less than a day.
#[verifier::external_body]
pub(crate) fn format_rfc3339(secs: i64, offset_secs: i32) -> (r: String)
    requires
        0 <= secs <= TS_MAX,
        -86399 <= offset_secs <= 86399,
    ensures
        r@ == rfc3339_of(secs as int, offset_secs as int),
{
    let utc = chrono::DateTime::from_timestamp(secs, 0).expect("timestamp in range");
    let offset = chrono::FixedOffset::east_opt(offset_secs).expect("offset in range");
    utc.with_timezone(&offset).to_rfc3339()
}

} // verus!
