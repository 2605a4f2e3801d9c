use chrono::NaiveDate;
use ulbox360::datetime::{fatx_datetime_to_civil, CivilDateTime};

fn dt(year: i32, month: u32, day: u32, hour: u32, minute: u32, second: u32) -> CivilDateTime {
    CivilDateTime { year, month, day, hour, minute, second }
}

fn fallback() -> CivilDateTime {
    dt(2000, 1, 1, 0, 0, 0)
}

#[test]
fn valid_timestamp_is_kept() {
    let d = dt(2009, 11, 17, 13, 45, 30);
    assert_eq!(fatx_datetime_to_civil(d), d);
}

#[test]
fn leap_day_handling() {
    assert_eq!(fatx_datetime_to_civil(dt(2000, 2, 29, 0, 0, 0)), dt(2000, 2, 29, 0, 0, 0));
    assert_eq!(fatx_datetime_to_civil(dt(2004, 2, 29, 1, 2, 3)), dt(2004, 2, 29, 1, 2, 3));
    assert_eq!(fatx_datetime_to_civil(dt(2001, 2, 29, 0, 0, 0)), fallback());
    assert_eq!(fatx_datetime_to_civil(dt(1900, 2, 29, 0, 0, 0)), fallback());
}

#[test]
fn invalid_parts_fall_back_to_2000() {
    assert_eq!(fatx_datetime_to_civil(dt(2010, 13, 1, 0, 0, 0)), fallback());
    assert_eq!(fatx_datetime_to_civil(dt(2010, 0, 1, 0, 0, 0)), fallback());
    assert_eq!(fatx_datetime_to_civil(dt(2010, 4, 31, 0, 0, 0)), fallback());
    assert_eq!(fatx_datetime_to_civil(dt(2010, 4, 0, 0, 0, 0)), fallback());
    assert_eq!(fatx_datetime_to_civil(dt(2010, 4, 1, 24, 0, 0)), fallback());
    assert_eq!(fatx_datetime_to_civil(dt(2010, 4, 1, 0, 60, 0)), fallback());
    assert_eq!(fatx_datetime_to_civil(dt(2010, 4, 1, 0, 0, 60)), fallback());
}

#[test]
fn year_range_limits() {
    assert_eq!(fatx_datetime_to_civil(dt(262142, 12, 31, 23, 59, 59)), dt(262142, 12, 31, 23, 59, 59));
    assert_eq!(fatx_datetime_to_civil(dt(262143, 1, 1, 0, 0, 0)), fallback());
    assert_eq!(fatx_datetime_to_civil(dt(-262143, 1, 1, 0, 0, 0)), dt(-262143, 1, 1, 0, 0, 0));
    assert_eq!(fatx_datetime_to_civil(dt(-262144, 12, 31, 0, 0, 0)), fallback());
}

#[test]
fn result_always_accepted_by_chrono() {
    for (y, m, d, h, mi, s) in [(2001, 2, 29, 0, 0, 0), (2020, 6, 15, 8, 30, 0), (1999, 12, 31, 25, 0, 0)] {
        let r = fatx_datetime_to_civil(dt(y, m, d, h, mi, s));
        let date = NaiveDate::from_ymd_opt(r.year, r.month, r.day).unwrap();
        assert!(date.and_hms_opt(r.hour, r.minute, r.second).is_some());
        let expected_valid = NaiveDate::from_ymd_opt(y, m, d).and_then(|x| x.and_hms_opt(h, mi, s)).is_some();
        assert_eq!(r == dt(y, m, d, h, mi, s), expected_valid);
    }
}

#[test]
fn date_validity_agrees_with_chrono_on_a_grid() {
    for y in [-262143, -4, -1, 0, 1, 1900, 1970, 2000, 2001, 2004, 2100, 2400, 262142] {
        for m in 0..=13u32 {
            for d in 0..=32u32 {
                let input = dt(y, m, d, 12, 0, 0);
                let accepted = NaiveDate::from_ymd_opt(y, m, d).is_some();
                let r = fatx_datetime_to_civil(input);
                assert_eq!(r == input, accepted, "{}-{}-{}", y, m, d);
                if !accepted {
                    assert_eq!(r, fallback());
                }
            }
        }
    }
}
