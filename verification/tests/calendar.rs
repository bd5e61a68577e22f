use solarsim::calendar::{date_from_julian_day, GREGORIAN_REFORM_DAY};

#[test]
fn j2000_is_new_year_2000() {
    assert_eq!(date_from_julian_day(2451545), (2000, 1, 1));
    assert_eq!(date_from_julian_day(2451544), (1999, 12, 31));
}

#[test]
fn unix_epoch() {
    assert_eq!(date_from_julian_day(2440588), (1970, 1, 1));
}

#[test]
fn reform_skips_ten_days() {
    assert_eq!(GREGORIAN_REFORM_DAY, 2299161);
    assert_eq!(date_from_julian_day(2299160), (1582, 10, 4));
    assert_eq!(date_from_julian_day(2299161), (1582, 10, 15));
}

#[test]
fn day_zero_is_the_julian_epoch() {
    assert_eq!(date_from_julian_day(0), (-4712, 1, 1));
    assert_eq!(date_from_julian_day(-1), (-4713, 12, 31));
}

#[test]
fn year_one_and_year_zero() {
    assert_eq!(date_from_julian_day(1721424), (1, 1, 1));
    assert_eq!(date_from_julian_day(1721423), (0, 12, 31));
}

#[test]
fn gregorian_leap_days() {
    // 2000 is a leap year, 1900 is not.
    assert_eq!(date_from_julian_day(2451604), (2000, 2, 29));
    assert_eq!(date_from_julian_day(2451605), (2000, 3, 1));
    assert_eq!(date_from_julian_day(2415079), (1900, 2, 28));
    assert_eq!(date_from_julian_day(2415080), (1900, 3, 1));
}

#[test]
fn julian_century_leap_day() {
    // Before the reform every fourth year is a leap year, 1500 too.
    assert_eq!(date_from_julian_day(2268991), (1500, 2, 28));
    assert_eq!(date_from_julian_day(2268992), (1500, 2, 29));
}

#[test]
fn end_of_2024() {
    assert_eq!(date_from_julian_day(2460676), (2024, 12, 31));
    assert_eq!(date_from_julian_day(2460677), (2025, 1, 1));
}

#[test]
fn consecutive_days_step_through_a_year() {
    // Every day of 2023 is named once, in order.
    let first: i64 = 2459946; // 2023-01-01
    let lengths = [31u32, 28, 31, 30, 31, 30, 31, 31, 30, 31, 30, 31];
    let mut n = first;
    for (i, len) in lengths.iter().enumerate() {
        for d in 1..=*len {
            assert_eq!(date_from_julian_day(n), (2023, i as u32 + 1, d));
            n += 1;
        }
    }
    assert_eq!(date_from_julian_day(n), (2024, 1, 1));
}

#[test]
fn extreme_day_numbers_give_valid_dates() {
    for n in [i64::MIN, i64::MIN + 1, -1_000_000_000_000, 1_000_000_000_000, i64::MAX - 1, i64::MAX] {
        let (_, m, d) = date_from_julian_day(n);
        assert!((1..=12).contains(&m));
        assert!((1..=31).contains(&d));
    }
}

#[test]
fn dates_grow_with_the_day_number() {
    let mut previous = date_from_julian_day(2299100);
    for n in 2299101..2299300 {
        let date = date_from_julian_day(n);
        assert!(date > previous, "{:?} then {:?}", previous, date);
        previous = date;
    }
    let mut previous = date_from_julian_day(-400);
    for n in (-399..3_000_000).step_by(97) {
        let date = date_from_julian_day(n);
        assert!(date > previous, "{:?} then {:?}", previous, date);
        previous = date;
    }
}

#[test]
fn next_day_across_month_and_year_ends() {
    // Julian: 1500 is a leap year, so 28 February is followed by 29 February.
    assert_eq!(date_from_julian_day(2268992 + 1), (1500, 3, 1));
    assert_eq!(date_from_julian_day(1721423 + 1), (1, 1, 1));
    // Gregorian: 1900 is not a leap year.
    assert_eq!(date_from_julian_day(2415079 + 1), (1900, 3, 1));
    assert_eq!(date_from_julian_day(2451544 + 1), (2000, 1, 1));
    assert_eq!(date_from_julian_day(2451604 + 1), (2000, 3, 1));
}
