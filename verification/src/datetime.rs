use vstd::prelude::*;

use chrono::{NaiveDate, NaiveDateTime};

verus! {

#[verifier::external_type_specification]
#[verifier::external_body]
pub struct ExNaiveDate(NaiveDate);

#[verifier::external_type_specification]
#[verifier::external_body]
pub struct ExNaiveDateTime(NaiveDateTime);

/// A calendar date and a time of day, as a FATX directory entry records
/// them.
#[derive(Clone, Copy, Debug, PartialEq, Eq, Structural)]
pub struct CivilDateTime {
    pub year: i32,
    pub month: u32,
    pub day: u32,
    pub hour: u32,
    pub minute: u32,
    pub second: u32,
}

/// Leap years of the proleptic Gregorian calendar.
pub open spec fn is_leap_year(y: int) -> bool {
    y % 4 == 0 && (y % 100 != 0 || y % 400 == 0)
}

/// The number of days of month `m` in year `y`.
pub open spec fn days_in_month(y: int, m: int) -> int {
    if m == 2 {
        if is_leap_year(y) {
            29
        } else {
            28
        }
    } else if m == 4 || m == 6 || m == 9 || m == 11 {
        30
    } else {
        31
    }
}

/// The dates that `chrono::NaiveDate` can hold: a real day of the
/// proleptic Gregorian calendar in a year from -262143 to 262142.
pub open spec fn spec_valid_date(year: i32, month: u32, day: u32) -> bool {
    &&& -262143 <= year <= 262142
    &&& 1 <= month <= 12
    &&& 1 <= day <= days_in_month(year as int, month as int)
}

/// A time of day with whole seconds.
pub open spec fn spec_valid_time(hour: u32, minute: u32, second: u32) -> bool {
    hour < 24 && minute < 60 && second < 60
}

/// `chrono::NaiveDate::from_ymd_opt`: a date exactly when the year, month
/// and day name a day that the type can hold.
#[verifier::external_body]
fn naive_date_from_ymd(year: i32, month: u32, day: u32) -> (r: Option<NaiveDate>)
    ensures
        r is Some <==> spec_valid_date(year, month, day),
{
    NaiveDate::from_ymd_opt(year, month, day)
}

/// `chrono::NaiveDate::and_hms_opt`: a date and time exactly when the hour,
/// minute and second name a time of day (no leap second). What value it
/// holds is not stated: the caller keeps the parts it passed.
#[verifier::external_body]
fn naive_date_and_hms(date: &NaiveDate, hour: u32, minute: u32, second: u32) -> (r: Option<
    NaiveDateTime,
>)
    ensures
        r is Some <==> spec_valid_time(hour, minute, second),
{
    date.and_hms_opt(hour, minute, second)
}

/// The moment used for a FATX date that is not a real date and time:
/// 2000-01-01 00:00:00.
pub open spec fn spec_fallback_datetime() -> CivilDateTime {
    CivilDateTime { year: 2000, month: 1, day: 1, hour: 0, minute: 0, second: 0 }
}

/// The moment a FATX timestamp stands for: the timestamp itself when it is a
/// valid date and time, else the fallback.
pub open spec fn spec_fatx_datetime(dt: CivilDateTime) -> CivilDateTime {
    if spec_valid_date(dt.year, dt.month, dt.day) && spec_valid_time(dt.hour, dt.minute, dt.second) {
        dt
    } else {
        spec_fallback_datetime()
    }
}

/// The moment that a FATX timestamp is shown as: the timestamp when chrono
/// accepts it as a date and a time of day, else 2000-01-01 00:00:00.
pub fn fatx_datetime_to_civil(dt: CivilDateTime) -> (r: CivilDateTime)
    ensures
        r == spec_fatx_datetime(dt),
        spec_valid_date(r.year, r.month, r.day),
        spec_valid_time(r.hour, r.minute, r.second),
        spec_valid_date(dt.year, dt.month, dt.day) && spec_valid_time(dt.hour, dt.minute, dt.second)
            ==> r == dt,
        !(spec_valid_date(dt.year, dt.month, dt.day) && spec_valid_time(dt.hour, dt.minute, dt.second))
            ==> (r.year == 2000 && r.month == 1 && r.day == 1 && r.hour == 0 && r.minute == 0
            && r.second == 0),
{
    if let Some(date) = naive_date_from_ymd(dt.year, dt.month, dt.day) {
        if let Some(_moment) = naive_date_and_hms(&date, dt.hour, dt.minute, dt.second) {
            return dt;
        }
    }
    CivilDateTime { year: 2000, month: 1, day: 1, hour: 0, minute: 0, second: 0 }
}

} // verus!

verus! {

/// A FATX timestamp is shown as it is when it is a real date and time of
/// day, and as 2000-01-01 00:00:00 otherwise; what is shown is always a real
/// date and time.
pub proof fn lemma_fatx_datetime_shown(dt: CivilDateTime)
    ensures
        spec_valid_date(dt.year, dt.month, dt.day) && spec_valid_time(dt.hour, dt.minute, dt.second)
            ==> spec_fatx_datetime(dt) == dt,
        !(spec_valid_date(dt.year, dt.month, dt.day) && spec_valid_time(dt.hour, dt.minute, dt.second))
            ==> ({
            let r = spec_fatx_datetime(dt);
            r.year == 2000 && r.month == 1 && r.day == 1 && r.hour == 0 && r.minute == 0 && r.second == 0
        }),
        spec_valid_date(spec_fatx_datetime(dt).year, spec_fatx_datetime(dt).month, spec_fatx_datetime(dt).day),
        spec_valid_time(spec_fatx_datetime(dt).hour, spec_fatx_datetime(dt).minute, spec_fatx_datetime(dt).second),
{
}

} // verus!
