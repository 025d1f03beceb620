//! The clock and the calendar. Instants are nanoseconds since the Unix epoch.

use vstd::prelude::*;

verus! {

/// The first instant of the year -9999.
pub const FIRST_INSTANT: i128 = -377_705_116_800_000_000_000;

/// The last instant of the year 9999.
pub const LAST_INSTANT: i128 = 253_402_300_799_999_999_999;

/// Nanoseconds in a second.
pub const SECOND: i128 = 1_000_000_000;

/// Whether `nanos` lies in the years -9999 to 9999.
pub open spec fn is_instant(nanos: int) -> bool {
    FIRST_INSTANT <= nanos <= LAST_INSTANT
}

/// Whether `nanos` has a date and a time of day `offset` seconds east of UTC.
pub open spec fn has_local_time(nanos: i128, offset: i32) -> bool {
    &&& is_instant(nanos as int)
    &&& -93_599 <= offset <= 93_599
    &&& is_instant(nanos + offset * SECOND)
}

/// Whether `nanos` has a date and a time of day `offset` seconds east of UTC.
pub fn is_local_time(nanos: i128, offset: i32) -> (r: bool)
    ensures
        r == has_local_time(nanos, offset),
{
    if !(FIRST_INSTANT <= nanos && nanos <= LAST_INSTANT && -93_599 <= offset && offset <= 93_599) {
        return false;
    }
    let local: i128 = nanos + (offset as i128) * SECOND;
    FIRST_INSTANT <= local && local <= LAST_INSTANT
}

/// `time::OffsetDateTime::now_utc`, in nanoseconds since the Unix epoch. Of the instant it is
/// only claimed that it lies in the years that the `time` crate knows.
#[verifier::external_body]
pub(crate) fn now_utc() -> (r: i128)
    ensures
        is_instant(r as int),
{
    time::OffsetDateTime::now_utc().unix_timestamp_nanos()
}

/// A date as year, month and day.
pub const DATE_PATTERN: &'static str = "[year]-[month]-[day]";

/// A date and the time of day to the minute.
pub const MINUTE_PATTERN: &'static str = "[year]-[month]-[day] [hour]:[minute]";

/// The instant `nanos`, `offset` seconds east of UTC, in the form of `pattern`.
pub uninterp spec fn time_text(nanos: i128, offset: i32, pattern: Seq<char>) -> Seq<char>;

/// `time::OffsetDateTime::format` of the instant `nanos`, moved to the offset with `to_offset`,
/// by the format description that `time::format_description::parse_borrowed` makes of `pattern`.
/// The text is named, not described.
#[verifier::external_body]
pub(crate) fn format_time(nanos: i128, offset: i32, pattern: &str) -> (r: String)
    requires
        has_local_time(nanos, offset),
        pattern@ == DATE_PATTERN@ || pattern@ == MINUTE_PATTERN@,
    ensures
        r@ == time_text(nanos, offset, pattern@),
{
    let at = time::OffsetDateTime::from_unix_timestamp_nanos(nanos).unwrap();
    let local = at.to_offset(time::UtcOffset::from_whole_seconds(offset).unwrap());
    let items = time::format_description::parse_borrowed::<1>(pattern).unwrap();
    local.format(&items).unwrap()
}

/// An instant lies between the first second of the year -9999 and the last of the year 9999; a
/// local time is one that stays there when it is moved by an offset of less than 26 hours.
pub proof fn law_instants_have_four_digit_years(nanos: i128, offset: i32)
    ensures
        is_instant(nanos as int) <==> -377_705_116_800 * 1_000_000_000 <= nanos < 253_402_300_800
            * 1_000_000_000,
        has_local_time(nanos, offset) <==> is_instant(nanos as int) && -26 * 3600 < offset < 26
            * 3600 && is_instant(nanos + offset * 1_000_000_000),
{
}

} // verus!
