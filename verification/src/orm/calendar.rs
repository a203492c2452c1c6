//! How far calendar, clock and decimal numbers reach.

use vstd::prelude::*;

verus! {

/// Whether the calendar has a day of the number, counted from January 1 of the year 1 on, which is
/// day 1: the years from -262143 to 262142 are there.
pub open spec fn in_calendar(day: int) -> bool {
    -95_746_129 <= day <= 95_745_399
}

/// Whether the calendar has the day of a point in time, given by its seconds since January 1, 1970.
pub open spec fn on_calendar_day(seconds: int) -> bool {
    in_calendar(seconds / 86_400 + 719_163)
}

/// Whether a day has a time of so many seconds since midnight and nanoseconds behind them. The last
/// second of a minute may be a leap second, which has twice as many.
pub open spec fn in_day(seconds: int, nanos: int) -> bool {
    &&& 0 <= seconds < 86_400
    &&& 0 <= nanos < if seconds % 60 == 59 {
        2_000_000_000int
    } else {
        1_000_000_000int
    }
}

/// Whether a decimal number has room for the digits, 96 bits of them, and for the places behind the
/// point.
pub open spec fn in_decimal(mantissa: int, scale: int) -> bool {
    &&& -0xffff_ffff_ffff_ffff_ffff_ffff <= mantissa <= 0xffff_ffff_ffff_ffff_ffff_ffff
    &&& 0 <= scale <= 28
}

/// A date of the calendar.
#[verifier::external_type_specification]
#[verifier::external_body]
pub struct ExNaiveDate(chrono::NaiveDate);

/// A date and a time of day.
#[verifier::external_type_specification]
#[verifier::external_body]
pub struct ExNaiveDateTime(chrono::NaiveDateTime);

/// A time of day.
#[verifier::external_type_specification]
#[verifier::external_body]
pub struct ExNaiveTime(chrono::NaiveTime);

/// `chrono::NaiveDate::from_num_days_from_ce_opt` gives a date for exactly the days of the
/// calendar. Nothing is said about the date beyond that it is there.
pub assume_specification[ chrono::NaiveDate::from_num_days_from_ce_opt ](days: i32) -> (res: Option<
    chrono::NaiveDate,
>)
    ensures
        res is Some <==> in_calendar(days as int),
;

/// `chrono::NaiveTime::from_num_seconds_from_midnight_opt` gives a time for exactly the seconds and
/// nanoseconds of a day. Nothing is said about the time beyond that it is there.
pub assume_specification[ chrono::NaiveTime::from_num_seconds_from_midnight_opt ](
    secs: u32,
    nano: u32,
) -> (res: Option<chrono::NaiveTime>)
    ensures
        res is Some <==> in_day(secs as int, nano as int),
;

/// `chrono::DateTime::from_timestamp` gives a point in time for exactly the seconds of which the
/// calendar has the day, if the second has no more than its nanoseconds. Nothing is said about the
/// point in time beyond that it is there.
#[verifier::external_body]
pub(crate) fn moment_at(secs: i64, nsecs: u32) -> (res: Option<chrono::NaiveDateTime>)
    requires
        nsecs < 1_000_000_000,
    ensures
        res is Some <==> on_calendar_day(secs as int),
{
    chrono::DateTime::from_timestamp(secs, nsecs).map(|moment| moment.naive_utc())
}

/// `rust_decimal::Decimal::try_from_i128_with_scale` gives a number for exactly the digits and
/// places that it has room for.
#[verifier::external_body]
pub(crate) fn has_decimal(mantissa: i128, scale: u32) -> (res: bool)
    ensures
        res == in_decimal(mantissa as int, scale as int),
{
    rust_decimal::Decimal::try_from_i128_with_scale(mantissa, scale).is_ok()
}

} // verus!
