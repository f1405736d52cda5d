use vstd::prelude::*;
use chrono::TimeZone;
use crate::text::all_digits;
use crate::text::dec_val;
use crate::text::parse_u64;

verus! {

/// Offset in milliseconds between the identifier epoch and the Unix epoch.
pub const EPOCH_OFFSET_MS: u64 = 1420070400000;

/// The millisecond Unix timestamp encoded in the high bits of an identifier.
pub open spec fn spec_snowflake_millis(id: u64) -> int {
    (id >> 22) + 1420070400000
}

/// Extracts the creation timestamp, in milliseconds, from an identifier.
pub fn snowflake_millis(id: u64) -> (ms: u64)
    ensures
        ms == spec_snowflake_millis(id),
        ms <= 0x3FF_FFFF_FFFF + 1420070400000,
{
    proof {
        assert(id >> 22 <= 0x3FF_FFFF_FFFFu64) by (bit_vector);
    }
    let hi = id >> 22;
    hi + EPOCH_OFFSET_MS
}

/// The "Month Year" rendering of a millisecond Unix timestamp, in UTC, with
/// the full English month name and the 4-digit year.
pub uninterp spec fn month_year_of(ms: u64) -> Seq<char>;

/// Relies on chrono: `Utc.timestamp_millis_opt(ms as i64)` is a single
/// in-range date-time for every `ms` the callers pass (chrono accepts
/// millisecond timestamps far beyond the bound below), and
/// `format("%B %Y")` renders its full English month name and year, a value
/// that depends on the timestamp alone.
#[verifier::external_body]
fn format_month_year(ms: u64) -> (r: String)
    requires
        ms <= 0x3FF_FFFF_FFFF + 1420070400000,
    ensures
        r@ == month_year_of(ms),
{
    let dt = chrono::Utc.timestamp_millis_opt(ms as i64).unwrap();
    dt.format("%B %Y").to_string()
}

/// The month/year creation string encoded in an identifier.
pub open spec fn spec_snowflake_month_year(id: u64) -> Seq<char> {
    month_year_of(((id >> 22) + 1420070400000) as u64)
}

/// Derives the "Month Year" creation string from a decimal identifier
/// string; `None` when the text is not an unsigned 64-bit decimal number.
pub fn parse_snowflake_to_timestamp(snowflake: &str) -> (r: Option<String>)
    ensures
        match r {
            Some(t) => snowflake@.len() > 0 && all_digits(snowflake@) && dec_val(snowflake@)
                <= u64::MAX && t@ == spec_snowflake_month_year(dec_val(snowflake@) as u64),
            None => snowflake@.len() == 0 || !all_digits(snowflake@) || dec_val(snowflake@)
                > u64::MAX,
        },
{
    match parse_u64(snowflake) {
        None => None,
        Some(id) => {
            let ms = snowflake_millis(id);
            Some(format_month_year(ms))
        },
    }
}

} // verus!
