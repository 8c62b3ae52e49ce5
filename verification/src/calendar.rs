//! Dates of the Gregorian calendar.

use vstd::prelude::*;

verus! {

/// Whether a year has a 29th of February.
pub open spec fn is_leap(y: int) -> bool {
    y % 4 == 0 && (y % 100 != 0 || y % 400 == 0)
}

/// How many days a month has.
pub open spec fn month_len(y: int, m: int) -> int {
    if m == 2 {
        if is_leap(y) {
            29
        } else {
            28
        }
    } else if m == 4 || m == 6 || m == 9 || m == 11 {
        30
    } else {
        31
    }
}

/// Whether there is such a date.
pub open spec fn valid_date(y: int, m: int, d: int) -> bool {
    1 <= m <= 12 && 1 <= d <= month_len(y, m)
}

/// The day after a date.
pub open spec fn next_day(y: int, m: int, d: int) -> (int, int, int) {
    if d < month_len(y, m) {
        (y, m, d + 1)
    } else if m < 12 {
        (y, m + 1, 1)
    } else {
        (y + 1, 1, 1)
    }
}

/// How many days of a year lie before a month.
pub open spec fn days_before_month(y: int, m: int) -> int
    decreases m,
{
    if m <= 1 {
        0
    } else {
        days_before_month(y, m - 1) + month_len(y, m - 1)
    }
}

/// How many days lie between the first of January of the year 1 and that of the year `y`.
pub open spec fn days_before_year(y: int) -> int {
    365 * (y - 1) + (y - 1) / 4 - (y - 1) / 100 + (y - 1) / 400
}

/// The number of a date, counted in days from the first of January 1970.
pub open spec fn day_number(y: int, m: int, d: int) -> int {
    days_before_year(y) - days_before_year(1970) + days_before_month(y, m) + d - 1
}

/// The date with a given number.
pub open spec fn date_of(z: int) -> (int, int, int) {
    choose|t: (int, int, int)| #[trigger]
        valid_date(t.0, t.1, t.2) && day_number(t.0, t.1, t.2) == z
}

/// A date is the one that [`date_of`] gives for its number.
pub proof fn date_of_number(y: int, m: int, d: int)
    requires
        valid_date(y, m, d),
    ensures
        date_of(day_number(y, m, d)) == (y, m, d),
{
    let t = (y, m, d);
    assert(valid_date(t.0, t.1, t.2));
    let u = date_of(day_number(y, m, d));
    dates_have_numbers_of_their_own(u.0, u.1, u.2, y, m, d);
}

/// The days before each month, written out.
proof fn months(y: int)
    ensures
        ({
            let leap: int = if is_leap(y) {
                1
            } else {
                0
            };
            &&& days_before_month(y, 1) == 0
            &&& days_before_month(y, 2) == 31
            &&& days_before_month(y, 3) == 59 + leap
            &&& days_before_month(y, 4) == 90 + leap
            &&& days_before_month(y, 5) == 120 + leap
            &&& days_before_month(y, 6) == 151 + leap
            &&& days_before_month(y, 7) == 181 + leap
            &&& days_before_month(y, 8) == 212 + leap
            &&& days_before_month(y, 9) == 243 + leap
            &&& days_before_month(y, 10) == 273 + leap
            &&& days_before_month(y, 11) == 304 + leap
            &&& days_before_month(y, 12) == 334 + leap
            &&& days_before_month(y, 13) == 365 + leap
        }),
{
    reveal_with_fuel(days_before_month, 14);
}

/// A year has 365 or 366 days.
proof fn year_len(y: int)
    ensures
        days_before_year(y + 1) - days_before_year(y) == 365 + (if is_leap(y) {
            1int
        } else {
            0
        }),
{
}

/// Every fourth year is a leap year, but of the years at the turn of a century only every fourth
/// is one.
pub proof fn leap_years_are_gregorian(y: int, century: int)
    ensures
        y % 4 != 0 ==> !is_leap(y),
        y % 4 == 0 && y % 100 != 0 ==> is_leap(y),
        is_leap(100 * century) <==> century % 4 == 0,
{
    assert((100 * century) % 4 == 0);
    assert((100 * century) % 100 == 0);
    assert((100 * century) % 400 == 100 * (century % 4));
}

/// The lengths of the months.
pub proof fn months_have_their_length(y: int, m: int)
    requires
        1 <= m <= 12,
    ensures
        m == 2 && is_leap(y) ==> month_len(y, m) == 29,
        m == 2 && !is_leap(y) ==> month_len(y, m) == 28,
        m == 4 || m == 6 || m == 9 || m == 11 ==> month_len(y, m) == 30,
        m == 1 || m == 3 || m == 5 || m == 7 || m == 8 || m == 10 || m == 12 ==> month_len(y, m)
            == 31,
        days_before_month(y, m + 1) == days_before_month(y, m) + month_len(y, m),
{
}

/// The calendar repeats itself every 400 years, which have 146097 days.
pub proof fn calendar_repeats_itself(y: int, m: int, d: int)
    requires
        valid_date(y, m, d),
    ensures
        valid_date(y + 400, m, d),
        day_number(y + 400, m, d) == day_number(y, m, d) + 146097,
{
    months(y);
    months(y + 400);
    assert((y + 400) % 4 == y % 4 && (y + 400) % 100 == y % 100 && (y + 400) % 400 == y % 400);
    assert((y + 399) / 4 == (y - 1) / 4 + 100);
    assert((y + 399) / 100 == (y - 1) / 100 + 4);
    assert((y + 399) / 400 == (y - 1) / 400 + 1);
}

/// The first of January 1970 is the day with the number zero.
pub proof fn epoch_is_day_zero()
    ensures
        day_number(1970, 1, 1) == 0,
{
    months(1970);
}

/// Numbers follow one another as the days of the calendar do.
pub proof fn days_follow_one_another(y: int, m: int, d: int)
    requires
        valid_date(y, m, d),
    ensures
        ({
            let (y2, m2, d2) = next_day(y, m, d);
            &&& valid_date(y2, m2, d2)
            &&& day_number(y2, m2, d2) == day_number(y, m, d) + 1
        }),
{
    months(y);
    months(y + 1);
    year_len(y);
}

/// No two dates have the same number.
pub proof fn dates_have_numbers_of_their_own(
    y1: int,
    m1: int,
    d1: int,
    y2: int,
    m2: int,
    d2: int,
)
    requires
        valid_date(y1, m1, d1),
        valid_date(y2, m2, d2),
        day_number(y1, m1, d1) == day_number(y2, m2, d2),
    ensures
        y1 == y2 && m1 == m2 && d1 == d2,
{
    months(y1);
    months(y2);
    year_len(y1);
    year_len(y2);
    if y1 < y2 {
        assert(days_before_year(y1 + 1) <= days_before_year(y2));
    } else if y2 < y1 {
        assert(days_before_year(y2 + 1) <= days_before_year(y1));
    }
}

/// The smaller of two numbers belongs to the earlier date.
pub proof fn numbers_follow_the_dates(y1: int, m1: int, d1: int, y2: int, m2: int, d2: int)
    requires
        valid_date(y1, m1, d1),
        valid_date(y2, m2, d2),
        day_number(y1, m1, d1) < day_number(y2, m2, d2),
    ensures
        y1 < y2 || (y1 == y2 && (m1 < m2 || (m1 == m2 && d1 < d2))),
{
    months(y1);
    months(y2);
    year_len(y2);
    if y2 < y1 {
        assert(days_before_year(y2 + 1) <= days_before_year(y1));
    }
}

/// The years from 1970 to 9999 have 2932897 days.
pub proof fn years_of_four_digits(z: int)
    requires
        0 <= z < 2932897,
    ensures
        1970 <= date_of(z).0 <= 9999,
{
    every_number_has_a_date(z);
    let (y, m, d) = date_of(z);
    months(1970);
    months(10000);
    if z > 0 {
        numbers_follow_the_dates(1970, 1, 1, y, m, d);
    } else {
        dates_have_numbers_of_their_own(1970, 1, 1, y, m, d);
    }
    numbers_follow_the_dates(y, m, d, 10000, 1, 1);
}

proof fn year_of_era(doe: int, yoe: int)
    requires
        0 <= doe < 146097,
        yoe == (doe - doe / 1460 + doe / 36524 - doe / 146096) / 365,
    ensures
        0 <= yoe <= 399,
        365 * yoe + yoe / 4 - yoe / 100 <= doe,
        doe - (365 * yoe + yoe / 4 - yoe / 100) <= 365,
        doe - (365 * yoe + yoe / 4 - yoe / 100) == 365 ==> (yoe + 1) % 4 == 0 && ((yoe + 1) % 100
            != 0 || yoe == 399),
{
}

/// Leap years come round every 400 years.
proof fn leap_year_of_era(era: int, n: int)
    requires
        1 <= n <= 400,
    ensures
        is_leap(400 * era + n) == (n % 4 == 0 && (n % 100 != 0 || n == 400)),
{
    assert((400 * era + n) % 4 == n % 4);
    assert((400 * era + n) % 100 == n % 100);
    assert((400 * era + n) % 400 == n % 400);
}

/// The number of the first of March of the year `400 * era + yoe`.
proof fn first_of_march(era: int, yoe: int)
    requires
        0 <= yoe <= 399,
    ensures
        day_number(400 * era + yoe, 3, 1) == 146097 * era + 365 * yoe + yoe / 4 - yoe / 100
            - 719468,
        is_leap(400 * era + yoe + 1) == ((yoe + 1) % 4 == 0 && ((yoe + 1) % 100 != 0 || yoe
            == 399)),
{
    let y = 400 * era + yoe;
    months(y);
    year_len(y);
    leap_year_of_era(era, yoe + 1);
    assert(day_number(y, 3, 1) == days_before_year(y + 1) - 719468);
    assert(days_before_year(y + 1) == 146097 * era + 365 * yoe + yoe / 4 - yoe / 100) by {
        assert((400 * era + yoe) / 4 == 100 * era + yoe / 4);
        assert((400 * era + yoe) / 100 == 4 * era + yoe / 100);
        assert((400 * era + yoe) / 400 == era);
    }
}

/// The month and the day that lie `doy` days behind the first of March.
proof fn month_of_year(doy: int, mp: int)
    requires
        0 <= doy <= 365,
        mp == (5 * doy + 2) / 153,
    ensures
        0 <= mp <= 11,
        0 <= doy - (153 * mp + 2) / 5,
{
}

/// The date that lies `doy` days behind the first of March of the year `400 * era + yoe`.
proof fn date_behind_march(era: int, yoe: int, doy: int, year: int, m: int, d: int)
    requires
        0 <= yoe <= 399,
        0 <= doy <= 365,
        doy == 365 ==> (yoe + 1) % 4 == 0 && ((yoe + 1) % 100 != 0 || yoe == 399),
        ({
            let mp = (5 * doy + 2) / 153;
            &&& m == (if mp < 10 {
                mp + 3
            } else {
                mp - 9
            })
            &&& d == doy - (153 * mp + 2) / 5 + 1
        }),
        year == 400 * era + yoe + (if m <= 2 {
            1int
        } else {
            0
        }),
    ensures
        valid_date(year, m, d),
        day_number(year, m, d) == 146097 * era + 365 * yoe + yoe / 4 - yoe / 100 + doy - 719468,
{
    let y = 400 * era + yoe;
    first_of_march(era, yoe);
    month_of_year(doy, (5 * doy + 2) / 153);
    months(y);
    months(y + 1);
    year_len(y);
}

/// Every whole number is the number of a date.
pub proof fn every_number_has_a_date(z: int)
    ensures
        ({
            let (y, m, d) = date_of(z);
            valid_date(y, m, d) && day_number(y, m, d) == z
        }),
{
    let days = z + 719468;
    let era = days / 146097;
    let doe = days % 146097;
    let yoe = (doe - doe / 1460 + doe / 36524 - doe / 146096) / 365;
    year_of_era(doe, yoe);
    let doy = doe - (365 * yoe + yoe / 4 - yoe / 100);
    let mp = (5 * doy + 2) / 153;
    let m = if mp < 10 {
        mp + 3
    } else {
        mp - 9
    };
    let year = 400 * era + yoe + (if m <= 2 {
        1int
    } else {
        0
    });
    let t = (year, m, doy - (153 * mp + 2) / 5 + 1);
    date_behind_march(era, yoe, doy, t.0, t.1, t.2);
    assert(valid_date(t.0, t.1, t.2));
}

/// The date with a given number.
pub fn civil_from_days(z: i64) -> (r: (i64, u32, u32))
    requires
        z <= i64::MAX - 719468,
    ensures
        valid_date(r.0 as int, r.1 as int, r.2 as int),
        day_number(r.0 as int, r.1 as int, r.2 as int) == z,
        (r.0 as int, r.1 as int, r.2 as int) == date_of(z as int),
{
    let days: i64 = z + 719468;
    let era: i64 = days.checked_div_euclid(146097).unwrap();
    let doe: i64 = days.checked_rem_euclid(146097).unwrap();
    let yoe: i64 = (doe - doe / 1460 + doe / 36524 - doe / 146096) / 365;
    proof {
        year_of_era(doe as int, yoe as int);
    }
    let y: i64 = yoe + era * 400;
    let doy: i64 = doe - (365 * yoe + yoe / 4 - yoe / 100);
    let mp: i64 = (5 * doy + 2) / 153;
    proof {
        month_of_year(doy as int, mp as int);
    }
    let d: i64 = doy - (153 * mp + 2) / 5 + 1;
    let m: i64 = if mp < 10 {
        mp + 3
    } else {
        mp - 9
    };
    let year: i64 = if m <= 2 {
        y + 1
    } else {
        y
    };
    proof {
        date_behind_march(era as int, yoe as int, doy as int, year as int, m as int, d as int);
        date_of_number(year as int, m as int, d as int);
    }
    (year, m as u32, d as u32)
}

} // verus!
