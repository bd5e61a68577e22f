//! Julian Day Number to calendar date, for the on-screen clock.
//!
//! Days before the Gregorian reform (Julian Day 2 299 161, 15 October 1582)
//! are named in the proleptic Julian calendar, later days in the Gregorian
//! calendar. Years are astronomical: the year before 1 is 0.

use vstd::prelude::*;
use vstd::arithmetic::div_mod::{
    lemma_div_is_ordered, lemma_fundamental_div_mod, lemma_fundamental_div_mod_converse,
    lemma_mod_bound, lemma_mod_pos_bound,
};

verus! {

/// The first Julian Day Number that is named in the Gregorian calendar.
pub const GREGORIAN_REFORM_DAY: i64 = 2299161;

/// Whether `year` is a leap year of the Julian calendar.
pub open spec fn is_julian_leap_year(year: int) -> bool {
    year % 4 == 0
}

/// Whether `year` is a leap year of the Gregorian calendar.
pub open spec fn is_gregorian_leap_year(year: int) -> bool {
    year % 4 == 0 && (year % 100 != 0 || year % 400 == 0)
}

/// The number of days of `month` (1 = January) in a year that is a leap
/// year exactly when `leap`.
pub open spec fn days_in_month(month: int, leap: bool) -> int {
    if month == 2 {
        if leap { 29 } else { 28 }
    } else if month == 4 || month == 6 || month == 9 || month == 11 {
        30
    } else {
        31
    }
}

/// `day` of `month` names a day of a year that is a leap year exactly when
/// `leap`.
pub open spec fn is_valid_date(month: int, day: int, leap: bool) -> bool {
    1 <= month <= 12 && 1 <= day <= days_in_month(month, leap)
}

/// The year counted from March: January and February belong to the year
/// before, so that the leap day is the last day of its year.
pub open spec fn march_year(year: int, month: int) -> int {
    if month <= 2 { year - 1 } else { year }
}

/// The month counted from March: 0 for March up to 11 for February.
pub open spec fn march_month(month: int) -> int {
    if month <= 2 { month + 9 } else { month - 3 }
}

/// The days from 1 March to the first of the month `k` months after March.
pub open spec fn days_before_march_month(k: int) -> int {
    if k <= 0 { 0 }
    else if k == 1 { 31 }
    else if k == 2 { 61 }
    else if k == 3 { 92 }
    else if k == 4 { 122 }
    else if k == 5 { 153 }
    else if k == 6 { 184 }
    else if k == 7 { 214 }
    else if k == 8 { 245 }
    else if k == 9 { 275 }
    else if k == 10 { 306 }
    else { 337 }
}

/// The Julian Day Number of `year`-`month`-`day` in the proleptic Julian
/// calendar: 365 days a year and one more every fourth year.
pub open spec fn julian_calendar_day(year: int, month: int, day: int) -> int {
    let y = march_year(year, month);
    365 * y + y / 4 + days_before_march_month(march_month(month)) + day + 1721117
}

/// The Julian Day Number of `year`-`month`-`day` in the proleptic Gregorian
/// calendar: as the Julian, less the leap days of the century years that
/// 400 does not divide.
pub open spec fn gregorian_calendar_day(year: int, month: int, day: int) -> int {
    let y = march_year(year, month);
    365 * y + y / 4 - y / 100 + y / 400 + days_before_march_month(march_month(month)) + day
        + 1721119
}

/// `year`-`month`-`day` is the calendar date of the day numbered
/// `day_number`: in the Julian calendar before the Gregorian reform, in the
/// Gregorian from the reform on.
pub open spec fn is_calendar_date_of(day_number: int, year: int, month: int, day: int) -> bool {
    if day_number < GREGORIAN_REFORM_DAY {
        &&& is_valid_date(month, day, is_julian_leap_year(year))
        &&& julian_calendar_day(year, month, day) == day_number
    } else {
        &&& is_valid_date(month, day, is_gregorian_leap_year(year))
        &&& gregorian_calendar_day(year, month, day) == day_number
    }
}

/// `year1`-`month1`-`day1` comes strictly before `year2`-`month2`-`day2`
/// in (year, month, day) order.
pub open spec fn is_date_before(
    year1: int,
    month1: int,
    day1: int,
    year2: int,
    month2: int,
    day2: int,
) -> bool {
    ||| year1 < year2
    ||| year1 == year2 && month1 < month2
    ||| year1 == year2 && month1 == month2 && day1 < day2
}

/// The date after `year`-`month`-`day` in a year that is a leap year
/// exactly when `leap`: the next day of the month, else the first of the
/// next month, else New Year's Day of the next year.
pub open spec fn following_date(year: int, month: int, day: int, leap: bool) -> (int, int, int) {
    if day < days_in_month(month, leap) {
        (year, month, day + 1)
    } else if month < 12 {
        (year, month + 1, 1)
    } else {
        (year + 1, 1, 1)
    }
}

/// The calendar month in which the day `r` of the decoding falls, from the
/// month number `e` that the decoding computes (4 for March up to 15 for
/// February).
spec fn month_of_decoded(e: int) -> int {
    if e < 14 { e - 1 } else { e - 13 }
}

/// The month and day decoding: `r` counts days so that 1 March is 123 and
/// the leap day, when there is one, is 488.
proof fn lemma_month_decode(r: int)
    requires
        123 <= r <= 488,
    ensures
        4 <= (10000 * r) / 306001 <= 15,
        ({
            let e = (10000 * r) / 306001;
            let f = (306001 * e) / 10000;
            &&& f == days_before_march_month(e - 4) + 122
            &&& march_month(month_of_decoded(e)) == e - 4
            &&& 1 <= r - f <= days_in_month(month_of_decoded(e), r == 488)
        }),
{
    let e = (10000 * r) / 306001;
    lemma_fundamental_div_mod(10000 * r, 306001);
    lemma_mod_pos_bound(10000 * r, 306001);
    assert(4 <= e <= 15);
    let f = (306001 * e) / 10000;
    lemma_fundamental_div_mod(306001 * e, 10000);
    lemma_mod_pos_bound(306001 * e, 10000);
    if e == 4 { assert(f == 122); }
    else if e == 5 { assert(f == 153); }
    else if e == 6 { assert(f == 183); }
    else if e == 7 { assert(f == 214); }
    else if e == 8 { assert(f == 244); }
    else if e == 9 { assert(f == 275); }
    else if e == 10 { assert(f == 306); }
    else if e == 11 { assert(f == 336); }
    else if e == 12 { assert(f == 367); }
    else if e == 13 { assert(f == 397); }
    else if e == 14 { assert(f == 428); }
    else { assert(f == 459); }
}

/// The year decoding: `c` counts Julian years from 4716 BC, `b - d` the days
/// of the day `b` within its year counted so that 1 March is 123.
proof fn lemma_year_decode(b: int)
    ensures
        ({
            let c = (100 * b - 12210) / 36525;
            let d = (36525 * c) / 100;
            &&& d == 365 * c + c / 4
            &&& 123 <= b - d <= 488
            &&& b - d == 488 ==> c % 4 == 3
        }),
{
    let c = (100 * b - 12210) / 36525;
    let d = (36525 * c) / 100;
    lemma_fundamental_div_mod(100 * b - 12210, 36525);
    lemma_mod_bound(100 * b - 12210, 36525);
    lemma_fundamental_div_mod(c, 4);
    lemma_mod_bound(c, 4);
    lemma_fundamental_div_mod_converse(36525 * c, 100, 365 * c + c / 4, 25 * (c % 4));
}

/// `n` divided by `k`, rounded towards minus infinity.
fn floor_div(n: i128, k: i128) -> (q: i128)
    requires
        k > 0,
        n > i128::MIN,
    ensures
        q == n / k,
{
    if n >= 0 {
        n / k
    } else {
        let m: i128 = -(n + 1);
        let t: i128 = m / k;
        proof {
            let mi = m as int;
            let ki = k as int;
            lemma_fundamental_div_mod(mi, ki);
            lemma_mod_pos_bound(mi, ki);
            let q = -(mi / ki) - 1;
            let rem = ki - mi % ki - 1;
            assert(n == q * ki + rem) by (nonlinear_arith)
                requires
                    mi == ki * (mi / ki) + mi % ki,
                    n == -mi - 1,
                    q == -(mi / ki) - 1,
                    rem == ki - mi % ki - 1,
            ;
            lemma_fundamental_div_mod_converse(n as int, ki, q, rem);
        }
        -t - 1
    }
}

/// The Julian Day Number of the last day of February that ends the
/// March-based Julian year `y`.
spec fn julian_year_end(y: int) -> int {
    365 * (y + 1) + (y + 1) / 4 + 1721117
}

/// A valid Julian date lies in its March-based year, whose last day is the
/// leap day when there is one.
proof fn lemma_julian_date_in_year(year: int, month: int, day: int)
    requires
        is_valid_date(month, day, is_julian_leap_year(year)),
    ensures
        ({
            let y = march_year(year, month);
            let n = julian_calendar_day(year, month, day);
            &&& julian_year_end(y - 1) + 1 <= n <= julian_year_end(y)
            &&& (month == 2 && day == 29) ==> n == julian_year_end(y)
        }),
{
    let y = march_year(year, month);
    lemma_fundamental_div_mod(y, 4);
    lemma_mod_bound(y, 4);
    lemma_fundamental_div_mod(y + 1, 4);
    lemma_mod_bound(y + 1, 4);
    lemma_fundamental_div_mod(year, 4);
    lemma_mod_bound(year, 4);
}

/// The ends of March-based Julian years grow with the year.
proof fn lemma_julian_year_end_grows(y1: int, y2: int)
    requires
        y1 < y2,
    ensures
        julian_year_end(y1) + 365 <= julian_year_end(y2),
{
    lemma_div_is_ordered(y1 + 1, y2 + 1, 4);
}

/// The largest day number, in size, that the decoding takes: beyond what an
/// `i64` day number and its Gregorian shift reach.
spec fn decode_bound() -> int {
    100_000_000_000_000_000_000
}

/// The date in the proleptic Julian calendar of the day numbered
/// `day_number`, as (year, month, day).
fn julian_date_of(day_number: i128) -> (date: (i128, i128, i128))
    requires
        -decode_bound() <= day_number <= decode_bound(),
    ensures
        is_valid_date(date.1 as int, date.2 as int, is_julian_leap_year(date.0 as int)),
        julian_calendar_day(date.0 as int, date.1 as int, date.2 as int) == day_number,
        -1_000_000_000_000_000_000 <= date.0 <= 1_000_000_000_000_000_000,
{
    let b: i128 = day_number + 1524;
    proof {
        lemma_fundamental_div_mod(100 * b - 12210, 36525);
        lemma_mod_bound(100 * b - 12210, 36525);
    }
    let c: i128 = floor_div(100 * b - 12210, 36525);
    let d: i128 = floor_div(36525 * c, 100);
    let r: i128 = b - d;
    proof {
        lemma_year_decode(b as int);
        lemma_month_decode(r as int);
    }
    let e: i128 = (10000 * r) / 306001;
    let day: i128 = r - (306001 * e) / 10000;
    let month: i128 = if e < 14 { e - 1 } else { e - 13 };
    let year: i128 = if month > 2 { c - 4716 } else { c - 4715 };
    proof {
        lemma_fundamental_div_mod(c as int, 4);
        lemma_mod_bound(c as int, 4);
        lemma_fundamental_div_mod_converse(c - 4716, 4, c / 4 - 1179, (c as int) % 4);
        assert(march_year(year as int, month as int) == c - 4716);
        lemma_fundamental_div_mod(c - 4716, 4);
        lemma_mod_bound(c - 4716, 4);
    }
    (year, month, day)
}

/// The day number that the Gregorian correction `alpha` turns into the
/// Julian-calendar day number naming the same date: the correction's
/// century lies where the Julian decoding puts the date.
proof fn lemma_gregorian_shift(z: int, alpha: int, a: int, year: int, month: int, day: int)
    requires
        z >= GREGORIAN_REFORM_DAY,
        alpha == (4 * z - 7468865) / 146097,
        a == z + 1 + alpha - alpha / 4,
        is_valid_date(month, day, is_julian_leap_year(year)),
        julian_calendar_day(year, month, day) == a,
    ensures
        is_valid_date(month, day, is_gregorian_leap_year(year)),
        gregorian_calendar_day(year, month, day) == z,
{
    let y = march_year(year, month);
    let c = alpha + 4;
    lemma_fundamental_div_mod(4 * z - 7468865, 146097);
    lemma_mod_bound(4 * z - 7468865, 146097);
    lemma_fundamental_div_mod(alpha, 4);
    lemma_mod_bound(alpha, 4);
    // a lies in the Julian centuries from March-year 100c to 100c + 99
    assert(julian_year_end(100 * c - 1) == 36525 * c + 1721117) by {
        lemma_fundamental_div_mod_converse(100 * c, 4, 25 * c, 0);
    }
    assert(julian_year_end(100 * c + 99) == 36525 * c + 36525 + 1721117) by {
        lemma_fundamental_div_mod_converse(100 * c + 100, 4, 25 * c + 25, 0);
    }
    assert(julian_year_end(100 * c - 1) + 1 <= a);
    assert(a <= julian_year_end(100 * c + 99) - 1 || (alpha % 4 == 3 && a
        == julian_year_end(100 * c + 99)));
    lemma_julian_date_in_year(year, month, day);
    if y < 100 * c {
        lemma_julian_year_end_grows(y, 100 * c - 1);
        assert(false);
    }
    if y > 100 * c + 99 {
        lemma_julian_year_end_grows(100 * c + 99, y - 1);
        assert(false);
    }
    assert(y / 100 == c) by {
        lemma_fundamental_div_mod_converse(y, 100, c, y - 100 * c);
    }
    assert(y / 400 == c / 4) by {
        lemma_fundamental_div_mod(c, 4);
        lemma_mod_bound(c, 4);
        lemma_fundamental_div_mod_converse(y, 400, c / 4, y - 400 * (c / 4));
    }
    assert(c / 4 == alpha / 4 + 1) by {
        lemma_fundamental_div_mod_converse(c, 4, alpha / 4 + 1, alpha % 4);
    }
    if month == 2 && day == 29 {
        lemma_fundamental_div_mod(year, 100);
        lemma_mod_bound(year, 100);
        lemma_fundamental_div_mod(year, 400);
        lemma_mod_bound(year, 400);
        if year % 100 == 0 {
            assert(y == 100 * c + 99);
            assert(alpha % 4 == 3);
            lemma_fundamental_div_mod_converse(year, 400, (c + 1) / 4, 0);
        }
    }
}

/// The calendar date of the day numbered `day_number`, as (year, month,
/// day): in the proleptic Julian calendar before the Gregorian reform of
/// 15 October 1582 (Julian Day 2 299 161), in the Gregorian calendar from
/// then on. The day number counts whole days from noon, 1 January 4713 BC
/// (Julian), which is day 0.
pub fn date_from_julian_day(day_number: i64) -> (date: (i64, u32, u32))
    ensures
        is_calendar_date_of(day_number as int, date.0 as int, date.1 as int, date.2 as int),
{
    let z: i128 = day_number as i128;
    let a: i128 = if day_number < GREGORIAN_REFORM_DAY {
        z
    } else {
        let alpha: i128 = floor_div(4 * z - 7468865, 146097);
        proof {
            lemma_fundamental_div_mod(4 * z - 7468865, 146097);
            lemma_mod_bound(4 * z - 7468865, 146097);
        }
        z + 1 + alpha - alpha / 4
    };
    let (year, month, day) = julian_date_of(a);
    proof {
        if day_number >= GREGORIAN_REFORM_DAY {
            let alpha = (4 * z - 7468865) / 146097;
            lemma_gregorian_shift(z as int, alpha, a as int, year as int, month as int, day as int);
        }
    }
    (year as i64, month as u32, day as u32)
}

/// The Julian Day Number of the last day of February that ends the
/// March-based Gregorian year `y`.
spec fn gregorian_year_end(y: int) -> int {
    365 * (y + 1) + (y + 1) / 4 - (y + 1) / 100 + (y + 1) / 400 + 1721119
}

/// A valid Gregorian date lies in its March-based year, whose last day is
/// the leap day when there is one.
proof fn lemma_gregorian_date_in_year(year: int, month: int, day: int)
    requires
        is_valid_date(month, day, is_gregorian_leap_year(year)),
    ensures
        ({
            let y = march_year(year, month);
            let n = gregorian_calendar_day(year, month, day);
            &&& gregorian_year_end(y - 1) + 1 <= n <= gregorian_year_end(y)
        }),
{
    let y = march_year(year, month);
    lemma_div_step(y, 4);
    lemma_div_step(y, 100);
    lemma_div_step(y, 400);
    let x = y + 1;
    lemma_fundamental_div_mod(x, 100);
    lemma_mod_bound(x, 100);
    if x % 100 == 0 {
        lemma_fundamental_div_mod_converse(x, 4, 25 * (x / 100), 0);
    }
    lemma_fundamental_div_mod(x, 400);
    lemma_mod_bound(x, 400);
    if x % 400 == 0 {
        lemma_fundamental_div_mod_converse(x, 100, 4 * (x / 400), 0);
    }
}

/// Dividing by `k` goes up by one exactly at the multiples of `k`.
proof fn lemma_div_step(x: int, k: int)
    requires
        k > 0,
    ensures
        (x + 1) / k - x / k == if (x + 1) % k == 0 { 1int } else { 0int },
{
    lemma_fundamental_div_mod(x, k);
    lemma_mod_bound(x, k);
    let q = x / k;
    let r = x % k;
    assert(x + 1 == (q + 1) * k + (r + 1 - k) && x + 1 == q * k + (r + 1)) by (nonlinear_arith)
        requires
            x == k * q + r,
    ;
    if r == k - 1 {
        lemma_fundamental_div_mod_converse(x + 1, k, q + 1, 0);
    } else {
        lemma_fundamental_div_mod_converse(x + 1, k, q, r + 1);
    }
}

/// The ends of March-based Gregorian years grow with the year.
proof fn lemma_gregorian_year_end_grows(y1: int, y2: int)
    requires
        y1 < y2,
    ensures
        gregorian_year_end(y1) + 365 <= gregorian_year_end(y2),
{
    let q1 = (y1 + 1) / 4;
    let q2 = (y2 + 1) / 4;
    lemma_div_is_ordered(y1 + 1, y2 + 1, 4);
    lemma_fundamental_div_mod(y1 + 1, 4);
    lemma_mod_bound(y1 + 1, 4);
    lemma_fundamental_div_mod(y2 + 1, 4);
    lemma_mod_bound(y2 + 1, 4);
    lemma_fundamental_div_mod(y1 + 1, 100);
    lemma_mod_bound(y1 + 1, 100);
    lemma_fundamental_div_mod(y2 + 1, 100);
    lemma_mod_bound(y2 + 1, 100);
    lemma_div_is_ordered(y1 + 1, y2 + 1, 400);
}

/// Within one March-based year, the offset from its start names at most
/// one valid date.
proof fn lemma_day_of_year_unique(m1: int, d1: int, m2: int, d2: int, leap: bool)
    requires
        is_valid_date(m1, d1, leap),
        is_valid_date(m2, d2, leap),
        days_before_march_month(march_month(m1)) + d1 == days_before_march_month(
            march_month(m2),
        ) + d2,
    ensures
        m1 == m2,
        d1 == d2,
{
}

/// A day number names one calendar date only: the calendar numbering of
/// days is one-to-one, so that the date of a day number is the unique
/// valid date of that number.
pub proof fn lemma_calendar_date_unique(
    day_number: int,
    year1: int,
    month1: int,
    day1: int,
    year2: int,
    month2: int,
    day2: int,
)
    requires
        is_calendar_date_of(day_number, year1, month1, day1),
        is_calendar_date_of(day_number, year2, month2, day2),
    ensures
        year1 == year2,
        month1 == month2,
        day1 == day2,
{
    let y1 = march_year(year1, month1);
    let y2 = march_year(year2, month2);
    if day_number < GREGORIAN_REFORM_DAY {
        lemma_julian_date_in_year(year1, month1, day1);
        lemma_julian_date_in_year(year2, month2, day2);
        if y1 < y2 {
            lemma_julian_year_end_grows(y1, y2 - 1);
        }
        if y2 < y1 {
            lemma_julian_year_end_grows(y2, y1 - 1);
        }
        assert(y1 == y2);
        lemma_day_of_year_unique(month1, day1, month2, day2, is_julian_leap_year(year1));
    } else {
        lemma_gregorian_date_in_year(year1, month1, day1);
        lemma_gregorian_date_in_year(year2, month2, day2);
        if y1 < y2 {
            lemma_gregorian_year_end_grows(y1, y2 - 1);
        }
        if y2 < y1 {
            lemma_gregorian_year_end_grows(y2, y1 - 1);
        }
        assert(y1 == y2);
        lemma_day_of_year_unique(month1, day1, month2, day2, is_gregorian_leap_year(year1));
    }
}

/// Counted from March, the months of a year follow one another: the month
/// of a date comes before the month of a later date in the same
/// March-based year, or that year itself comes first.
proof fn lemma_march_order(year1: int, month1: int, day1: int, year2: int, month2: int, day2: int)
    requires
        1 <= month1 <= 12,
        1 <= month2 <= 12,
        is_date_before(year1, month1, day1, year2, month2, day2),
    ensures
        ({
            let y1 = march_year(year1, month1);
            let y2 = march_year(year2, month2);
            let k1 = march_month(month1);
            let k2 = march_month(month2);
            ||| y1 < y2
            ||| y1 == y2 && k1 < k2
            ||| y1 == y2 && k1 == k2 && month1 == month2 && day1 < day2
        }),
{
}

/// Within one March-based year, a date of an earlier month has a smaller
/// offset from the year's start than any date of a later month.
proof fn lemma_earlier_month_offset(m1: int, d1: int, m2: int, d2: int, leap1: bool, leap2: bool)
    requires
        is_valid_date(m1, d1, leap1),
        is_valid_date(m2, d2, leap2),
        march_month(m1) < march_month(m2),
    ensures
        days_before_march_month(march_month(m1)) + d1 < days_before_march_month(
            march_month(m2),
        ) + d2,
{
}

/// The Julian calendar numbers later dates with larger day numbers.
proof fn lemma_julian_day_increasing(
    year1: int,
    month1: int,
    day1: int,
    year2: int,
    month2: int,
    day2: int,
)
    requires
        is_valid_date(month1, day1, is_julian_leap_year(year1)),
        is_valid_date(month2, day2, is_julian_leap_year(year2)),
        is_date_before(year1, month1, day1, year2, month2, day2),
    ensures
        julian_calendar_day(year1, month1, day1) < julian_calendar_day(year2, month2, day2),
{
    let y1 = march_year(year1, month1);
    let y2 = march_year(year2, month2);
    lemma_march_order(year1, month1, day1, year2, month2, day2);
    lemma_julian_date_in_year(year1, month1, day1);
    lemma_julian_date_in_year(year2, month2, day2);
    if y1 < y2 {
        if y1 < y2 - 1 {
            lemma_julian_year_end_grows(y1, y2 - 1);
        }
    } else if march_month(month1) < march_month(month2) {
        lemma_earlier_month_offset(
            month1,
            day1,
            month2,
            day2,
            is_julian_leap_year(year1),
            is_julian_leap_year(year2),
        );
    }
}

/// The Gregorian calendar numbers later dates with larger day numbers.
proof fn lemma_gregorian_day_increasing(
    year1: int,
    month1: int,
    day1: int,
    year2: int,
    month2: int,
    day2: int,
)
    requires
        is_valid_date(month1, day1, is_gregorian_leap_year(year1)),
        is_valid_date(month2, day2, is_gregorian_leap_year(year2)),
        is_date_before(year1, month1, day1, year2, month2, day2),
    ensures
        gregorian_calendar_day(year1, month1, day1) < gregorian_calendar_day(year2, month2, day2),
{
    let y1 = march_year(year1, month1);
    let y2 = march_year(year2, month2);
    lemma_march_order(year1, month1, day1, year2, month2, day2);
    lemma_gregorian_date_in_year(year1, month1, day1);
    lemma_gregorian_date_in_year(year2, month2, day2);
    if y1 < y2 {
        if y1 < y2 - 1 {
            lemma_gregorian_year_end_grows(y1, y2 - 1);
        }
    } else if march_month(month1) < march_month(month2) {
        lemma_earlier_month_offset(
            month1,
            day1,
            month2,
            day2,
            is_gregorian_leap_year(year1),
            is_gregorian_leap_year(year2),
        );
    }
}

/// The last Julian date is 4 October 1582 and the first Gregorian date is
/// 15 October 1582, the day after it.
pub proof fn lemma_reform_dates()
    ensures
        is_calendar_date_of(GREGORIAN_REFORM_DAY - 1, 1582, 10, 4),
        is_calendar_date_of(GREGORIAN_REFORM_DAY as int, 1582, 10, 15),
{
}

/// Later day numbers name later dates: the calendar date grows with the
/// day number, across the Gregorian reform too.
pub proof fn lemma_calendar_date_increasing(
    day_number1: int,
    year1: int,
    month1: int,
    day1: int,
    day_number2: int,
    year2: int,
    month2: int,
    day2: int,
)
    requires
        is_calendar_date_of(day_number1, year1, month1, day1),
        is_calendar_date_of(day_number2, year2, month2, day2),
        day_number1 < day_number2,
    ensures
        is_date_before(year1, month1, day1, year2, month2, day2),
{
    let r = GREGORIAN_REFORM_DAY as int;
    if day_number2 < r {
        if !is_date_before(year1, month1, day1, year2, month2, day2) {
            if is_date_before(year2, month2, day2, year1, month1, day1) {
                lemma_julian_day_increasing(year2, month2, day2, year1, month1, day1);
            }
        }
    } else if day_number1 >= r {
        if !is_date_before(year1, month1, day1, year2, month2, day2) {
            if is_date_before(year2, month2, day2, year1, month1, day1) {
                lemma_gregorian_day_increasing(year2, month2, day2, year1, month1, day1);
            }
        }
    } else {
        // the Julian date is at most 1582-10-04, the Gregorian at least 1582-10-15
        lemma_reform_dates();
        if is_date_before(1582, 10, 4, year1, month1, day1) {
            lemma_julian_day_increasing(1582, 10, 4, year1, month1, day1);
        }
        if is_date_before(year2, month2, day2, 1582, 10, 15) {
            lemma_gregorian_day_increasing(year2, month2, day2, 1582, 10, 15);
        }
    }
}

/// The last day of February ends the March-based Julian year.
proof fn lemma_julian_february_end(year: int)
    ensures
        julian_calendar_day(year, 2, days_in_month(2, is_julian_leap_year(year)))
            == julian_year_end(year - 1),
{
    lemma_div_step(year - 1, 4);
    lemma_fundamental_div_mod(year, 4);
    lemma_mod_bound(year, 4);
}

/// The last day of February ends the March-based Gregorian year.
proof fn lemma_gregorian_february_end(year: int)
    ensures
        gregorian_calendar_day(year, 2, days_in_month(2, is_gregorian_leap_year(year)))
            == gregorian_year_end(year - 1),
{
    lemma_div_step(year - 1, 4);
    lemma_div_step(year - 1, 100);
    lemma_div_step(year - 1, 400);
    lemma_fundamental_div_mod(year, 100);
    lemma_mod_bound(year, 100);
    if year % 100 == 0 {
        lemma_fundamental_div_mod_converse(year, 4, 25 * (year / 100), 0);
    }
    lemma_fundamental_div_mod(year, 400);
    lemma_mod_bound(year, 400);
    if year % 400 == 0 {
        lemma_fundamental_div_mod_converse(year, 100, 4 * (year / 400), 0);
    }
}

/// Day number `n + 1` names the day after the date of `n`, in the same
/// calendar; the one exception is the reform, where 4 October 1582
/// (Julian) is followed by 15 October 1582 (Gregorian).
pub proof fn lemma_calendar_next_day(day_number: int, year: int, month: int, day: int)
    requires
        is_calendar_date_of(day_number, year, month, day),
        day_number + 1 != GREGORIAN_REFORM_DAY,
    ensures
        ({
            let leap = if day_number < GREGORIAN_REFORM_DAY {
                is_julian_leap_year(year)
            } else {
                is_gregorian_leap_year(year)
            };
            let next = following_date(year, month, day, leap);
            is_calendar_date_of(day_number + 1, next.0, next.1, next.2)
        }),
{
    if day_number < GREGORIAN_REFORM_DAY {
        if day == days_in_month(month, is_julian_leap_year(year)) && month == 2 {
            lemma_julian_february_end(year);
        }
    } else {
        if day == days_in_month(month, is_gregorian_leap_year(year)) && month == 2 {
            lemma_gregorian_february_end(year);
        }
    }
}

} // verus!
