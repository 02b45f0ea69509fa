//! Proleptic Gregorian calendar: turning a count of days since 1970-01-01
//! into a calendar date, and the day stamp written from it.
use vstd::prelude::*;

use crate::decimal::{decimal, lemma_decimal, push_padded, push_signed_padded, signed_padded, zero_pad};
use crate::text::{lemma_trim_unchanged, string_from_chars, trim_spec};

verus! {

/// A leap year of the proleptic Gregorian calendar.
pub open spec fn is_leap_year(y: int) -> bool {
    y % 4 == 0 && (y % 100 != 0 || y % 400 == 0)
}

/// Number of days in month `m` (1 = January) of year `y`.
pub open spec fn days_in_month(y: int, m: int) -> int {
    if m == 2 {
        if is_leap_year(y) { 29 } else { 28 }
    } else if m == 4 || m == 6 || m == 9 || m == 11 {
        30
    } else {
        31
    }
}

/// Number of days in the months of year `y` before month `m`.
pub open spec fn days_before_month(y: int, m: int) -> int
    decreases m,
{
    if m <= 1 {
        0
    } else {
        days_before_month(y, m - 1) + days_in_month(y, m - 1)
    }
}

/// Number of days from 0000-01-01 to `y`-01-01: 365 per year, plus one for
/// each leap year in `[0, y)` (counted negatively for `y < 0`).
pub open spec fn days_before_year(y: int) -> int {
    365 * y + (y + 3) / 4 - (y + 99) / 100 + (y + 399) / 400
}

/// `(y, m, d)` names a day of the calendar.
pub open spec fn valid_date(y: int, m: int, d: int) -> bool {
    1 <= m <= 12 && 1 <= d <= days_in_month(y, m)
}

/// The number of days from 1970-01-01 to the date `(y, m, d)`.
pub open spec fn epoch_day(y: int, m: int, d: int) -> int {
    days_before_year(y) + days_before_month(y, m) + d - 1 - days_before_year(1970)
}

/// The date that lies `n` days after 1970-01-01 (before it, for `n < 0`).
pub open spec fn date_of_day(n: int) -> (int, int, int) {
    choose|y: int, m: int, d: int| valid_date(y, m, d) && epoch_day(y, m, d) == n
}

/// The inputs on which the conversion's arithmetic stays within `i64`.
pub open spec fn day_count_in_range(days: i64) -> bool {
    i64::MIN + 146_096 - 719_468 <= days <= i64::MAX - 719_468
}

/// Each year has 365 days, 366 in a leap year.
pub proof fn lemma_year_length(y: int)
    ensures
        days_before_year(y + 1) - days_before_year(y) == if is_leap_year(y) { 366int } else { 365int },
{
    assert(((y + 1) + 3) / 4 - (y + 3) / 4 == if y % 4 == 0 { 1int } else { 0int });
    assert(((y + 1) + 99) / 100 - (y + 99) / 100 == if y % 100 == 0 { 1int } else { 0int });
    assert(((y + 1) + 399) / 400 - (y + 399) / 400 == if y % 400 == 0 { 1int } else { 0int });
}

pub proof fn lemma_days_before_month(y: int)
    ensures
        days_before_month(y, 1) == 0,
        days_before_month(y, 2) == 31,
        days_before_month(y, 3) == 59 + (if is_leap_year(y) { 1int } else { 0int }),
        days_before_month(y, 4) == 90 + (if is_leap_year(y) { 1int } else { 0int }),
        days_before_month(y, 5) == 120 + (if is_leap_year(y) { 1int } else { 0int }),
        days_before_month(y, 6) == 151 + (if is_leap_year(y) { 1int } else { 0int }),
        days_before_month(y, 7) == 181 + (if is_leap_year(y) { 1int } else { 0int }),
        days_before_month(y, 8) == 212 + (if is_leap_year(y) { 1int } else { 0int }),
        days_before_month(y, 9) == 243 + (if is_leap_year(y) { 1int } else { 0int }),
        days_before_month(y, 10) == 273 + (if is_leap_year(y) { 1int } else { 0int }),
        days_before_month(y, 11) == 304 + (if is_leap_year(y) { 1int } else { 0int }),
        days_before_month(y, 12) == 334 + (if is_leap_year(y) { 1int } else { 0int }),
        days_before_month(y, 13) == 365 + (if is_leap_year(y) { 1int } else { 0int }),
{
    reveal_with_fuel(days_before_month, 13);
}

/// Days from 0000-03-01 to `Y`-03-01.
spec fn march_days(y: int) -> int {
    365 * y + y / 4 - y / 100 + y / 400
}

/// Days from the start of an era (a 400-year cycle starting on March 1st)
/// to March 1st of its `t`-th year.
spec fn era_year_start(t: int) -> int {
    365 * t + t / 4 - t / 100
}

#[verifier::spinoff_prover]
proof fn lemma_march_offset(y: int)
    ensures
        days_before_year(y) + days_before_month(y, 3) == 60 + march_days(y),
{
    lemma_days_before_month(y);
    assert((y + 3) / 4 == y / 4 + (if y % 4 != 0 { 1int } else { 0int }));
    assert((y + 99) / 100 == y / 100 + (if y % 100 != 0 { 1int } else { 0int }));
    assert((y + 399) / 400 == y / 400 + (if y % 400 != 0 { 1int } else { 0int }));
    if y % 400 == 0 {
        assert(y % 100 == 0 && y % 4 == 0);
    } else if y % 100 == 0 {
        assert(y % 4 == 0);
    }
}

proof fn lemma_era_split(era: int, t: int)
    requires
        0 <= t < 400,
    ensures
        march_days(400 * era + t) == 146097 * era + era_year_start(t),
{
    assert((400 * era + t) / 4 == 100 * era + t / 4);
    assert((400 * era + t) / 100 == 4 * era + t / 100);
    assert((400 * era + t) / 400 == era);
}

/// The year of an era that holds its day `doe`, found as the conversion finds it.
proof fn lemma_year_of_era(doe: int)
    requires
        0 <= doe <= 146096,
    ensures
        ({
            let t = (doe - doe / 1460 + doe / 36524 - doe / 146096) / 365;
            &&& 0 <= t <= 399
            &&& era_year_start(t) <= doe
            &&& doe - era_year_start(t) <= 364 + (if is_leap_year(t + 1) { 1int } else { 0int })
        }),
{
    let t = (doe - doe / 1460 + doe / 36524 - doe / 146096) / 365;
    assert(0 <= t <= 399);
    assert(era_year_start(t) <= doe);
    assert(doe - era_year_start(t) <= 364 + (if is_leap_year(t + 1) { 1int } else { 0int }));
}

/// The month and day of the `doy`-th day (from 0) of the year that starts
/// on March 1st of year `y`, found as the conversion finds them.
proof fn lemma_month_of_year(y: int, doy: int)
    requires
        0 <= doy <= 364 + (if is_leap_year(y + 1) { 1int } else { 0int }),
    ensures
        ({
            let mp = (5 * doy + 2) / 153;
            let d = doy - (153 * mp + 2) / 5 + 1;
            let m = if mp < 10 { mp + 3 } else { mp - 9 };
            let yy = if m <= 2 { y + 1 } else { y };
            &&& 0 <= mp <= 11
            &&& valid_date(yy, m, d)
            &&& days_before_year(yy) + days_before_month(yy, m) + d - 1
                == days_before_year(y) + days_before_month(y, 3) + doy
        }),
{
    let mp = (5 * doy + 2) / 153;
    let d = doy - (153 * mp + 2) / 5 + 1;
    assert(153 * mp <= 5 * doy + 2 < 153 * mp + 153);
    assert(0 <= mp <= 11);
    assert((153 * mp + 2) / 5 <= doy);
    assert(doy < (153 * (mp + 1) + 2) / 5);
    lemma_days_before_month(y);
    lemma_days_before_month(y + 1);
    lemma_year_length(y);
    if mp == 0 {
    } else if mp == 1 {
    } else if mp == 2 {
    } else if mp == 3 {
    } else if mp == 4 {
    } else if mp == 5 {
    } else if mp == 6 {
    } else if mp == 7 {
    } else if mp == 8 {
    } else if mp == 9 {
    } else if mp == 10 {
    } else {
    }
}

/// A date falls within its year: between the first day of its year and the
/// first day of the next.
proof fn lemma_date_within_year(y: int, m: int, d: int)
    requires
        valid_date(y, m, d),
    ensures
        days_before_year(y) <= days_before_year(y) + days_before_month(y, m) + d - 1 < days_before_year(y + 1),
        days_before_month(y, m) + d - 1 < days_before_month(y, m + 1),
{
    lemma_days_before_month(y);
    lemma_year_length(y);
}

/// The first days of years grow with the year.
proof fn lemma_days_before_year_monotone(a: int, b: int)
    requires
        a <= b,
    ensures
        days_before_year(a) <= days_before_year(b),
    decreases b - a,
{
    if a < b {
        lemma_days_before_year_monotone(a, b - 1);
        lemma_year_length(b - 1);
    }
}

/// The first days of months grow with the month.
proof fn lemma_days_before_month_monotone(y: int, a: int, b: int)
    requires
        1 <= a <= b <= 13,
    ensures
        days_before_month(y, a) <= days_before_month(y, b),
{
    lemma_days_before_month(y);
}

/// Two dates that lie the same number of days after 1970-01-01 are the same date.
pub proof fn lemma_epoch_day_injective(y1: int, m1: int, d1: int, y2: int, m2: int, d2: int)
    requires
        valid_date(y1, m1, d1),
        valid_date(y2, m2, d2),
        epoch_day(y1, m1, d1) == epoch_day(y2, m2, d2),
    ensures
        y1 == y2,
        m1 == m2,
        d1 == d2,
{
    lemma_date_within_year(y1, m1, d1);
    lemma_date_within_year(y2, m2, d2);
    if y1 < y2 {
        lemma_days_before_year_monotone(y1 + 1, y2);
    } else if y2 < y1 {
        lemma_days_before_year_monotone(y2 + 1, y1);
    }
    assert(y1 == y2);
    if m1 < m2 {
        lemma_days_before_month_monotone(y1, m1 + 1, m2);
    } else if m2 < m1 {
        lemma_days_before_month_monotone(y1, m2 + 1, m1);
    }
}

/// The date of the day that lies `epoch_day(y, m, d)` days after 1970-01-01 is `(y, m, d)`.
pub proof fn lemma_date_of_epoch_day(y: int, m: int, d: int)
    requires
        valid_date(y, m, d),
    ensures
        date_of_day(epoch_day(y, m, d)) == (y, m, d),
{
    let n = epoch_day(y, m, d);
    assert(valid_date(y, m, d) && epoch_day(y, m, d) == n);
    let (y2, m2, d2) = date_of_day(n);
    lemma_epoch_day_injective(y, m, d, y2, m2, d2);
}

/// Converts a count of days since 1970-01-01 into `(year, month, day)` of the
/// proleptic Gregorian calendar. The year is cut to 32 bits as `as i32` cuts it.
pub fn days_to_ymd(days: i64) -> (r: (i32, u32, u32))
    requires
        day_count_in_range(days),
    ensures
        r.0 == date_of_day(days as int).0 as i32,
        r.1 == date_of_day(days as int).1,
        r.2 == date_of_day(days as int).2,
{
    let z: i64 = days + 719_468;
    let era: i64 = (if z >= 0 { z } else { z - 146_096 }) / 146_097;
    assert(era * 146_097 <= z < era * 146_097 + 146_097);
    let doe: u64 = (z - era * 146_097) as u64;
    let yoe: u64 = (doe - doe / 1460 + doe / 36524 - doe / 146_096) / 365;
    proof {
        lemma_year_of_era(doe as int);
    }
    let y: i64 = yoe as i64 + era * 400;
    let doy: u64 = doe - (365 * yoe + yoe / 4 - yoe / 100);
    let mp: u64 = (5 * doy + 2) / 153;
    let d: u32 = (doy - (153 * mp + 2) / 5 + 1) as u32;
    let m: u32 = (if mp < 10 { mp + 3 } else { mp - 9 }) as u32;
    let y: i64 = if m <= 2 { y + 1 } else { y };
    proof {
        lemma_conversion(days as int, era as int, yoe as int, doy as int);
    }
    (y as i32, m, d)
}

/// Whole 400-year cycles do not change which years are leap years.
proof fn lemma_leap_shift(era: int, x: int)
    ensures
        is_leap_year(400 * era + x) == is_leap_year(x),
{
    assert((400 * era + x) % 4 == x % 4) by (nonlinear_arith);
    assert((400 * era + x) % 100 == x % 100) by (nonlinear_arith);
    assert((400 * era + x) % 400 == x % 400) by (nonlinear_arith);
}

/// The arithmetic of `days_to_ymd`, on mathematical integers.
proof fn lemma_conversion(days: int, era: int, yoe: int, doy: int)
    requires
        0 <= yoe <= 399,
        0 <= doy <= 364 + (if is_leap_year(yoe + 1) { 1int } else { 0int }),
        days + 719_468 == era * 146_097 + era_year_start(yoe) + doy,
    ensures
        ({
            let mp = (5 * doy + 2) / 153;
            let d = doy - (153 * mp + 2) / 5 + 1;
            let m = if mp < 10 { mp + 3 } else { mp - 9 };
            let y = if m <= 2 { yoe + era * 400 + 1 } else { yoe + era * 400 };
            &&& valid_date(y, m, d)
            &&& epoch_day(y, m, d) == days
            &&& date_of_day(days) == (y, m, d)
        }),
{
    let big_y = 400 * era + yoe;
    lemma_leap_shift(era, yoe + 1);
    assert(big_y + 1 == 400 * era + (yoe + 1));
    lemma_month_of_year(big_y, doy);
    lemma_era_split(era, yoe);
    lemma_march_offset(big_y);
    assert(days_before_year(1970) == 719_528);
    let mp = (5 * doy + 2) / 153;
    let d = doy - (153 * mp + 2) / 5 + 1;
    let m = if mp < 10 { mp + 3 } else { mp - 9 };
    let y = if m <= 2 { yoe + era * 400 + 1 } else { yoe + era * 400 };
    assert(valid_date(y, m, d));
    assert(epoch_day(y, m, d) == days);
    lemma_date_of_epoch_day(y, m, d);
}

/// Every count of days names a date: `date_of_day(n)` is a valid date, and it
/// lies `n` days after 1970-01-01.
pub proof fn lemma_date_of_day_valid(n: int)
    ensures
        valid_date(date_of_day(n).0, date_of_day(n).1, date_of_day(n).2),
        epoch_day(date_of_day(n).0, date_of_day(n).1, date_of_day(n).2) == n,
{
    let z = n + 719_468;
    let era = z / 146_097;
    let doe = z - era * 146_097;
    assert(0 <= doe <= 146_096);
    lemma_year_of_era(doe);
    let yoe = (doe - doe / 1460 + doe / 36524 - doe / 146096) / 365;
    let doy = doe - era_year_start(yoe);
    lemma_conversion(n, era, yoe, doy);
}

/// The day after `(y, m, d)`: the next day of the month, else the first of
/// the next month, else New Year's Day of the next year.
pub open spec fn next_date(y: int, m: int, d: int) -> (int, int, int) {
    if d < days_in_month(y, m) {
        (y, m, d + 1)
    } else if m < 12 {
        (y, m + 1, 1)
    } else {
        (y + 1, 1, 1)
    }
}

/// One day later is the next calendar date: `date_of_day(n + 1)` is the day
/// after `date_of_day(n)`.
pub proof fn lemma_next_day(n: int)
    ensures
        date_of_day(n + 1) == next_date(date_of_day(n).0, date_of_day(n).1, date_of_day(n).2),
{
    lemma_date_of_day_valid(n);
    let (y, m, d) = date_of_day(n);
    let (y2, m2, d2) = next_date(y, m, d);
    lemma_days_before_month(y);
    lemma_year_length(y);
    if d < days_in_month(y, m) {
    } else if m < 12 {
        assert(days_before_month(y, m + 1) == days_before_month(y, m) + days_in_month(y, m));
    } else {
        assert(m == 12 && d == 31);
    }
    assert(valid_date(y2, m2, d2));
    assert(epoch_day(y2, m2, d2) == n + 1);
    lemma_date_of_epoch_day(y2, m2, d2);
}

/// Whole days since 1970-01-01 of the instant `secs` seconds after it, the
/// seconds read as a signed 64-bit count (`secs as i64`) and divided by the
/// length of a day, rounding down (`i64::div_euclid`).
pub open spec fn day_of_instant(secs: u64) -> int {
    (secs as i64) as int / 86_400
}

/// The day stamp `YYYY-MM-DD` of the instant `secs` seconds after
/// 1970-01-01T00:00:00Z, written as `format!("{y:04}-{m:02}-{d:02}")` writes it.
pub open spec fn day_stamp(secs: u64) -> Seq<char> {
    let (y, m, d) = date_of_day(day_of_instant(secs));
    signed_padded((y as i32) as int, 4) + seq!['-'] + zero_pad(decimal(m as nat), 2) + seq!['-']
        + zero_pad(decimal(d as nat), 2)
}

/// A day stamp has no surrounding whitespace: it begins with a digit or `-`
/// and ends with a digit, so trimming leaves it as it is.
pub proof fn lemma_day_stamp_trimmed(secs: u64)
    ensures
        trim_spec(day_stamp(secs)) == day_stamp(secs),
{
    let (y, m, d) = date_of_day(day_of_instant(secs));
    let yi = (y as i32) as int;
    let ys = signed_padded(yi, 4);
    let ms = zero_pad(decimal(m as nat), 2);
    let ds = zero_pad(decimal(d as nat), 2);
    let s = day_stamp(secs);
    assert(s == ys + seq!['-'] + ms + seq!['-'] + ds);
    if yi < 0 {
        assert(ys[0] == '-');
    } else {
        lemma_decimal(yi as nat);
        let dy = decimal(yi as nat);
        if dy.len() < 4 {
            assert(ys[0] == '0');
        } else {
            assert(ys[0] == dy[0]);
        }
    }
    assert(ys.len() > 0);
    assert(s[0] == ys[0]);
    lemma_decimal(d as nat);
    let dd = decimal(d as nat);
    assert(dd[dd.len() - 1] >= '0' && dd[dd.len() - 1] <= '9');
    assert(ds.last() == dd.last());
    assert(s.last() == ds.last());
    lemma_trim_unchanged(s);
}

/// `x.div_euclid(86_400)` for a signed count of seconds.
fn whole_days(x: i64) -> (r: i64)
    ensures
        r == x as int / 86_400,
{
    let q: i64 = x / 86_400;
    if q * 86_400 > x {
        q - 1
    } else {
        q
    }
}

/// The UTC day, `YYYY-MM-DD`, of the instant `secs` seconds after the Unix epoch.
pub fn today_utc(secs: u64) -> (r: String)
    ensures
        r@ == day_stamp(secs),
{
    let s: i64 = secs as i64;
    let days = whole_days(s);
    assert(day_count_in_range(days));
    let (y, m, d) = days_to_ymd(days);
    let mut out: Vec<char> = Vec::new();
    push_signed_padded(y, 4, &mut out);
    out.push('-');
    push_padded(m, 2, &mut out);
    out.push('-');
    push_padded(d, 2, &mut out);
    string_from_chars(out.as_slice())
}

} // verus!
