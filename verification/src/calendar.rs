//! The proleptic Gregorian calendar, counted in days from 1970-01-01.

use vstd::prelude::*;

verus! {

/// Whether the year has a 29 February.
pub open spec fn is_leap(year: int) -> bool {
    year % 4 == 0 && (year % 100 != 0 || year % 400 == 0)
}

/// How many days the year has.
pub open spec fn year_length(year: int) -> int {
    if is_leap(year) {
        366
    } else {
        365
    }
}

/// How many days the month has.
pub open spec fn month_length(year: int, month: int) -> int {
    if month == 2 {
        if is_leap(year) {
            29
        } else {
            28
        }
    } else if month == 4 || month == 6 || month == 9 || month == 11 {
        30
    } else {
        31
    }
}

/// Whether the calendar has the date.
pub open spec fn is_date(year: int, month: int, day: int) -> bool {
    1 <= month <= 12 && 1 <= day <= month_length(year, month)
}

/// How many days lie between 1970-01-01 and 1 January of the year; negative for earlier years.
pub open spec fn days_to_year(year: int) -> int
    decreases
            if year < 1970 {
                1970 - year
            } else {
                year - 1970
            },
{
    if year == 1970 {
        0
    } else if year > 1970 {
        days_to_year(year - 1) + year_length(year - 1)
    } else {
        days_to_year(year + 1) - year_length(year)
    }
}

/// How many days of the year lie before the month.
pub open spec fn days_to_month(year: int, month: int) -> int
    decreases month,
{
    if month <= 1 {
        0
    } else {
        days_to_month(year, month - 1) + month_length(year, month - 1)
    }
}

/// The day on which the date falls, with 1970-01-01 as day 0.
pub open spec fn day_number(year: int, month: int, day: int) -> int {
    days_to_year(year) + days_to_month(year, month) + day - 1
}

/// The leap years among the years 1 to `year`, counted without looking at each.
spec fn leaps_through(year: int) -> int {
    year / 4 - year / 100 + year / 400
}

proof fn leaps_step(year: int)
    ensures
        leaps_through(year) - leaps_through(year - 1) == if is_leap(year) {
            1int
        } else {
            0
        },
{
}

proof fn days_to_year_counts_leaps(year: int)
    ensures
        days_to_year(year) == 365 * (year - 1970) + leaps_through(year - 1) - leaps_through(1969),
    decreases
            if year < 1970 {
                1970 - year
            } else {
                year - 1970
            },
{
    if year > 1970 {
        days_to_year_counts_leaps(year - 1);
        leaps_step(year - 1);
    } else if year < 1970 {
        days_to_year_counts_leaps(year + 1);
        leaps_step(year);
    }
}

/// The day number of a date whose year is taken to start in March: `from_march` counts the months
/// from March, so the leap day is the last of its year.
proof fn day_number_from_march(year: int, month: int, day: int)
    requires
        1 <= month <= 12,
    ensures
        ({
            let march_year = if month > 2 {
                year
            } else {
                year - 1
            };
            let from_march = if month > 2 {
                month - 3
            } else {
                month + 9
            };
            day_number(year, month, day) == 365 * march_year + leaps_through(march_year) + (153
                * from_march + 2) / 5 + day - 1 - 719468
        }),
{
    days_to_year_counts_leaps(year);
    leaps_step(year);
    reveal_with_fuel(days_to_month, 13);
}

proof fn year_holds_its_months(year: int, month: int)
    requires
        1 <= month <= 12,
    ensures
        days_to_month(year, month) + month_length(year, month) <= year_length(year),
        0 <= days_to_month(year, month),
{
    reveal_with_fuel(days_to_month, 13);
}

proof fn days_to_year_grows(a: int, b: int)
    requires
        a <= b,
    ensures
        days_to_year(a) + 365 * (b - a) <= days_to_year(b),
{
    days_to_year_counts_leaps(a);
    days_to_year_counts_leaps(b);
}

proof fn days_to_month_grows(year: int, a: int, b: int)
    requires
        1 <= a < b <= 12,
    ensures
        days_to_month(year, a) + month_length(year, a) <= days_to_month(year, b),
{
    reveal_with_fuel(days_to_month, 13);
}

/// A date comes before another exactly when its day number is the smaller one.
pub proof fn day_numbers_follow_the_calendar(
    year1: int,
    month1: int,
    day1: int,
    year2: int,
    month2: int,
    day2: int,
)
    requires
        is_date(year1, month1, day1),
        is_date(year2, month2, day2),
    ensures
        day_number(year1, month1, day1) < day_number(year2, month2, day2) <==> year1 < year2 || (
        year1 == year2 && (month1 < month2 || (month1 == month2 && day1 < day2))),
{
    year_holds_its_months(year1, month1);
    year_holds_its_months(year2, month2);
    if year1 < year2 {
        days_to_year_step(year1);
        days_to_year_grows(year1 + 1, year2);
    } else if year2 < year1 {
        days_to_year_step(year2);
        days_to_year_grows(year2 + 1, year1);
    } else if month1 < month2 {
        days_to_month_grows(year1, month1, month2);
    } else if month2 < month1 {
        days_to_month_grows(year1, month2, month1);
    }
}

/// A year is followed by the next one as many days later as it has.
pub proof fn days_to_year_step(year: int)
    ensures
        days_to_year(year + 1) == days_to_year(year) + year_length(year),
{
    days_to_year_counts_leaps(year);
    days_to_year_counts_leaps(year + 1);
    leaps_step(year);
}

/// No two dates fall on one day.
pub proof fn one_date_a_day(
    year1: int,
    month1: int,
    day1: int,
    year2: int,
    month2: int,
    day2: int,
)
    requires
        is_date(year1, month1, day1),
        is_date(year2, month2, day2),
        day_number(year1, month1, day1) == day_number(year2, month2, day2),
    ensures
        year1 == year2,
        month1 == month2,
        day1 == day2,
{
    day_numbers_follow_the_calendar(year1, month1, day1, year2, month2, day2);
    day_numbers_follow_the_calendar(year2, month2, day2, year1, month1, day1);
}

/// The date that falls on the day, with 1970-01-01 as day 0: its year, month and day.
pub open spec fn date_on(day: int) -> (int, int, int) {
    choose|date: (int, int, int)|
        is_date(date.0, date.1, date.2) && #[trigger] day_number(date.0, date.1, date.2) == day
}

/// `date_on` gives the date that has the day number, where there is one.
pub proof fn date_on_is_the_date(year: int, month: int, day: int)
    requires
        is_date(year, month, day),
    ensures
        date_on(day_number(year, month, day)) == (year, month, day),
{
    let number = day_number(year, month, day);
    let date = (year, month, day);
    assert(day_number(date.0, date.1, date.2) == number);
    let chosen = date_on(number);
    one_date_a_day(year, month, day, chosen.0, chosen.1, chosen.2);
}

/// The year of an era of 400 years, counted from March, in which the era's day `doe` lies, and the
/// day of that year.
proof fn year_of_era(doe: int, yoe: int, doy: int)
    requires
        0 <= doe < 146_097,
        yoe == (doe - doe / 1460 + doe / 36_524 - doe / 146_096) / 365,
        doy == doe - (365 * yoe + yoe / 4 - yoe / 100),
    ensures
        0 <= yoe < 400,
        0 <= doy <= 365,
        doy == 365 ==> (yoe + 1) % 4 == 0 && ((yoe + 1) % 100 != 0 || yoe + 1 == 400),
{
    let c = if doe == 146_096 {
        3
    } else {
        doe / 36_524
    };
    let s = doe - 36_524 * c;
    let q = s / 1461;
    let t = s - 1461 * q;
    let r = if t == 1460 {
        3
    } else {
        t / 365
    };
    assert(0 <= c <= 3);
    assert(0 <= s <= 36_524 && (s == 36_524 ==> c == 3));
    assert(0 <= q <= 24);
    assert(0 <= t <= 1460 && (q == 24 && t == 1460 ==> c == 3));
    assert(0 <= r <= 3 && 0 <= t - 365 * r <= 365 && (t - 365 * r == 365 ==> t == 1460));
    let over = if 24 * c + q + t >= 1460 {
        1int
    } else {
        0
    };
    assert(doe / 1460 == 25 * c + q + over);
    assert(doe / 36_524 - doe / 146_096 == c);
    assert(doe - doe / 1460 + doe / 36_524 - doe / 146_096 == 365 * (100 * c + 4 * q) + (t - over));
    assert(r == (t - over) / 365);
    assert(yoe == 100 * c + 4 * q + r);
    assert(yoe / 4 == 25 * c + q);
    assert(yoe / 100 == c);
}

/// The month, counted from March, and the day of the month on which the day `doy` of a year that
/// starts in March falls.
proof fn month_of_year(doy: int, mp: int, day: int)
    requires
        0 <= doy <= 365,
        mp == (5 * doy + 2) / 153,
        day == doy - (153 * mp + 2) / 5 + 1,
    ensures
        0 <= mp <= 11,
        1 <= day <= 31,
        mp == 1 || mp == 3 || mp == 6 || mp == 8 ==> day <= 30,
        mp == 11 ==> day <= 29,
        mp == 11 && day == 29 ==> doy == 365,
{
}

/// The date that an era, the year of the era, the day of the year and the month, all counted from
/// March, stand for.
proof fn date_from_era(era: int, yoe: int, doy: int, mp: int, day: int)
    requires
        0 <= yoe < 400,
        0 <= doy <= 365,
        doy == 365 ==> (yoe + 1) % 4 == 0 && ((yoe + 1) % 100 != 0 || yoe + 1 == 400),
        mp == (5 * doy + 2) / 153,
        day == doy - (153 * mp + 2) / 5 + 1,
    ensures
        ({
            let month = if mp < 10 {
                mp + 3
            } else {
                mp - 9
            };
            let year = if month <= 2 {
                yoe + era * 400 + 1
            } else {
                yoe + era * 400
            };
            &&& is_date(year, month, day)
            &&& day_number(year, month, day) == era * 146_097 + (365 * yoe + yoe / 4 - yoe / 100)
                + doy - 719_468
        }),
{
    let month = if mp < 10 {
        mp + 3
    } else {
        mp - 9
    };
    let march_year = yoe + era * 400;
    let year = if month <= 2 {
        march_year + 1
    } else {
        march_year
    };
    month_of_year(doy, mp, day);
    assert(march_year / 4 == 100 * era + yoe / 4);
    assert(march_year / 100 == 4 * era + yoe / 100);
    assert(march_year / 400 == era);
    day_number_from_march(year, month, day);
    if doy == 365 {
        assert((march_year + 1) % 4 == 0);
        if yoe + 1 == 400 {
            assert((march_year + 1) % 400 == 0);
        } else {
            assert((march_year + 1) % 100 == (yoe + 1) % 100);
        }
    }
}

/// Every day has a date, and it is the one that `date_on` gives.
pub proof fn every_day_has_a_date(number: int)
    ensures
        ({
            let (year, month, day) = date_on(number);
            is_date(year, month, day) && day_number(year, month, day) == number
        }),
{
    let era = (number + 719_468) / 146_097;
    let doe = (number + 719_468) % 146_097;
    let yoe = (doe - doe / 1460 + doe / 36_524 - doe / 146_096) / 365;
    let doy = doe - (365 * yoe + yoe / 4 - yoe / 100);
    let mp = (5 * doy + 2) / 153;
    let day = doy - (153 * mp + 2) / 5 + 1;
    let month = if mp < 10 {
        mp + 3
    } else {
        mp - 9
    };
    let year = if month <= 2 {
        yoe + era * 400 + 1
    } else {
        yoe + era * 400
    };
    year_of_era(doe, yoe, doy);
    date_from_era(era, yoe, doy, mp, day);
    date_on_is_the_date(year, month, day);
}

/// The days from 1970-01-01 on, before the year 10000, have a year of four digits.
pub proof fn year_of_four_digits(number: int)
    requires
        0 <= number < 2_932_897,
    ensures
        1970 <= date_on(number).0 <= 9999,
{
    every_day_has_a_date(number);
    let (year, month, day) = date_on(number);
    days_to_year_counts_leaps(10000);
    assert(day_number(10000, 1, 1) == 2_932_897);
    assert(day_number(1970, 1, 1) == 0);
    day_numbers_follow_the_calendar(year, month, day, 10000, 1, 1);
    day_numbers_follow_the_calendar(year, month, day, 1970, 1, 1);
}

/// The date that falls on the day `z`, with 1970-01-01 as day 0: its year, month and day.
pub fn civil_from_days(z: i64) -> (date: (i64, u32, u32))
    requires
        z <= i64::MAX - 719_468,
    ensures
        is_date(date.0 as int, date.1 as int, date.2 as int),
        day_number(date.0 as int, date.1 as int, date.2 as int) == z,
        date_on(z as int) == (date.0 as int, date.1 as int, date.2 as int),
{
    let z: i64 = z + 719_468;
    let era: i64 = (if z >= 0 {
        z
    } else {
        z - 146_096
    }) / 146_097;
    assert(era == z as int / 146_097);
    let doe: u64 = (z - era * 146_097) as u64;
    let yoe: u64 = (doe - doe / 1460 + doe / 36_524 - doe / 146_096) / 365;
    let y: i64 = yoe as i64 + era * 400;
    proof {
        year_of_era(doe as int, yoe as int, doe - (365 * yoe + yoe / 4 - yoe / 100));
    }
    let doy: u64 = doe - (365 * yoe + yoe / 4 - yoe / 100);
    let mp: u64 = (5 * doy + 2) / 153;
    proof {
        month_of_year(doy as int, mp as int, doy - (153 * mp as int + 2) / 5 + 1);
    }
    let d: u32 = (doy - (153 * mp + 2) / 5 + 1) as u32;
    let m: u32 = (if mp < 10 {
        mp + 3
    } else {
        mp - 9
    }) as u32;
    let year: i64 = if m <= 2 {
        y + 1
    } else {
        y
    };
    proof {
        date_from_era(era as int, yoe as int, doy as int, mp as int, d as int);
        date_on_is_the_date(year as int, m as int, d as int);
    }
    (year, m, d)
}

/// There is a 29 February in every fourth year, but of the years that end a century only in every
/// fourth.
pub proof fn leap_days_come_by_the_rule(year: int)
    ensures
        year % 4 != 0 ==> !is_date(year, 2, 29),
        year % 4 == 0 && year % 100 != 0 ==> is_date(year, 2, 29),
        year % 100 == 0 && year % 400 != 0 ==> !is_date(year, 2, 29),
        year % 400 == 0 ==> is_date(year, 2, 29),
        is_date(year, 2, 28) && !is_date(year, 2, 30),
{
}

/// The months but February have the same days every year: April, June, September and November 30 and
/// the others 31.
pub proof fn months_have_their_days(year: int, month: int, day: int)
    requires
        is_date(year, month, day),
    ensures
        1 <= day <= 31,
        1 <= month <= 12,
        month == 4 || month == 6 || month == 9 || month == 11 ==> is_date(year, month, 30)
            && !is_date(year, month, 31),
        month == 1 || month == 3 || month == 5 || month == 7 || month == 8 || month == 10 || month
            == 12 ==> is_date(year, month, 31) && !is_date(year, month, 32),
{
}

/// The days are counted one by one: the next day of a month, the first of the next month after the
/// last, and the first of the next year after 31 December each have the next number.
pub proof fn days_are_counted_one_by_one(year: int, month: int, day: int)
    requires
        is_date(year, month, day),
    ensures
        day_number(1970, 1, 1) == 0,
        is_date(year, month, day + 1) ==> day_number(year, month, day + 1) == day_number(
            year,
            month,
            day,
        ) + 1,
        !is_date(year, month, day + 1) && month < 12 ==> day_number(year, month + 1, 1)
            == day_number(year, month, day) + 1,
        !is_date(year, month, day + 1) && month == 12 ==> day_number(year + 1, 1, 1)
            == day_number(year, month, day) + 1,
{
    days_to_year_step(year);
    if month == 12 {
        reveal_with_fuel(days_to_month, 13);
    }
}

/// 400 years have 97 leap years, whichever they are.
proof fn leaps_of_400_years(year: int)
    ensures
        leaps_through(year + 400) == leaps_through(year) + 97,
        is_leap(year + 400) == is_leap(year),
{
    assert((year + 400) / 4 == year / 4 + 100);
    assert((year + 400) / 100 == year / 100 + 4);
    assert((year + 400) / 400 == year / 400 + 1);
}

/// Two years with as many days in February have as many days before each month.
proof fn months_depend_on_the_leap_day(year1: int, year2: int, month: int)
    requires
        is_leap(year1) == is_leap(year2),
    ensures
        days_to_month(year1, month) == days_to_month(year2, month),
    decreases month,
{
    if month > 1 {
        months_depend_on_the_leap_day(year1, year2, month - 1);
    }
}

/// The calendar repeats itself every 400 years, which have 146097 days.
pub proof fn the_calendar_repeats_itself(year: int, month: int, day: int)
    requires
        is_date(year, month, day),
    ensures
        is_date(year + 400, month, day),
        day_number(year + 400, month, day) == day_number(year, month, day) + 146_097,
{
    leaps_of_400_years(year);
    leaps_of_400_years(year - 1);
    days_to_year_counts_leaps(year);
    days_to_year_counts_leaps(year + 400);
    months_depend_on_the_leap_day(year, year + 400, month);
}

} // verus!
