use phpick::calendar::{days_to_ymd, today_utc};

#[test]
fn epoch_date_conversion() {
    assert_eq!(days_to_ymd(0), (1970, 1, 1));
    assert_eq!(days_to_ymd(31), (1970, 2, 1));
    assert_eq!(days_to_ymd(365), (1971, 1, 1));
    // 2000-02-29 — leap-year edge case.
    assert_eq!(days_to_ymd(11_016), (2000, 2, 29));
    assert_eq!(days_to_ymd(19_461), (2023, 4, 14));
}

#[test]
fn days_before_the_epoch() {
    assert_eq!(days_to_ymd(-1), (1969, 12, 31));
    assert_eq!(days_to_ymd(-719_468), (0, 3, 1));
    assert_eq!(days_to_ymd(-719_469), (0, 2, 29));
    assert_eq!(days_to_ymd(-719_528), (0, 1, 1));
    assert_eq!(days_to_ymd(-719_529), (-1, 12, 31));
}

#[test]
fn century_years_are_not_leap_unless_divisible_by_400() {
    // 1900-02-28 is followed by 1900-03-01.
    assert_eq!(days_to_ymd(-25_509), (1900, 2, 28));
    assert_eq!(days_to_ymd(-25_508), (1900, 3, 1));
    // 2100-02-28 is followed by 2100-03-01.
    assert_eq!(days_to_ymd(47_540), (2100, 2, 28));
    assert_eq!(days_to_ymd(47_541), (2100, 3, 1));
}

#[test]
fn every_day_of_a_leap_cycle_converts_back() {
    // Walk four centuries day by day; each date follows the previous one.
    let mut prev = days_to_ymd(-1);
    for n in 0..146_097i64 {
        let cur = days_to_ymd(n);
        let (py, pm, pd) = prev;
        let next_day = (py, pm, pd + 1);
        let next_month = (py, pm + 1, 1);
        let next_year = (py + 1, 1, 1);
        assert!(cur == next_day || cur == next_month || cur == next_year, "{prev:?} -> {cur:?}");
        prev = cur;
    }
    assert_eq!(prev, (2369, 12, 31));
}

#[test]
fn day_stamp_format() {
    assert_eq!(today_utc(0), "1970-01-01");
    assert_eq!(today_utc(86_399), "1970-01-01");
    assert_eq!(today_utc(86_400), "1970-01-02");
    assert_eq!(today_utc(1_681_430_400), "2023-04-14");
    assert_eq!(today_utc(951_782_400), "2000-02-29");
}

#[test]
fn day_stamp_of_a_negative_signed_instant() {
    // A count of seconds at or past 2^63 reads as negative.
    let s = today_utc(u64::MAX);
    assert_eq!(s, "1969-12-31");
}
