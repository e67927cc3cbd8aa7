//! Proleptic Gregorian calendar arithmetic.
//!
//! Dates are triples of year, month (1 to 12) and day of the month (from 1);
//! a day number counts days from 1 January 1970, which is day 0, and is
//! negative before it. Weekdays run from 0 (Sunday) to 6 (Saturday).

use crate::arith::{div_floor, lemma_same_remainder, mod_floor};
use vstd::arithmetic::div_mod::{
    lemma_fundamental_div_mod, lemma_fundamental_div_mod_converse, lemma_mod_equivalence,
    lemma_mod_add_multiples_vanish, lemma_mod_bound, lemma_mod_mod, lemma_small_mod,
};
use vstd::prelude::*;

verus! {

/// Largest magnitude of a year whose day numbers this module computes.
pub const YEAR_LIMIT: i64 = 25_000_000_000_000_000;

/// Whether `year` is a leap year: every fourth year, except the centuries
/// that are not multiples of 400.
pub open spec fn is_leap(year: int) -> bool {
    (year % 4 == 0 && year % 100 != 0) || year % 400 == 0
}

/// Number of days in `year`.
pub open spec fn year_length(year: int) -> int {
    if is_leap(year) {
        366
    } else {
        365
    }
}

/// Number of days in `month` of `year`.
pub open spec fn month_length(year: int, month: int) -> int {
    if month == 2 {
        if is_leap(year) {
            29
        } else {
            28
        }
    } else if month == 4 || month == 6 || month == 9 || month == 11 {
        30
    } else {
        31
    }
}

/// Whether `(year, month, day)` names a day of the calendar.
pub open spec fn valid_date(year: int, month: int, day: int) -> bool {
    1 <= month <= 12 && 1 <= day <= month_length(year, month)
}

/// Day number of 1 January of `year`: the lengths of the years between
/// 1970 and `year`, added up from 1970 on and taken off before it.
pub open spec fn days_before_year(year: int) -> int
    decreases
            (if year >= 1970 {
                year - 1970
            } else {
                1970 - year
            }),
{
    if year == 1970 {
        0
    } else if year > 1970 {
        days_before_year(year - 1) + year_length(year - 1)
    } else {
        days_before_year(year + 1) - year_length(year)
    }
}

/// Number of days of `year` that lie before the first of `month`: the
/// lengths of the months that precede it.
pub open spec fn days_before_month(year: int, month: int) -> int
    decreases month,
{
    if month <= 1 {
        0
    } else {
        days_before_month(year, month - 1) + month_length(year, month - 1)
    }
}

/// Day number of `(year, month, day)`: the whole years since 1970, the
/// whole months of `year`, and the days of the month that have passed.
pub open spec fn day_number(year: int, month: int, day: int) -> int {
    days_before_year(year) + days_before_month(year, month) + day - 1
}

/// Weekday of the day numbered `days`; day 0 was a Thursday.
pub open spec fn weekday_of(days: int) -> int {
    (days + 4) % 7
}

/// Number of leap years among the years 1 to `year - 1`, continued to all
/// integers.
pub open spec fn leap_years_before(year: int) -> int {
    (year - 1) / 4 - (year - 1) / 100 + (year - 1) / 400
}

/// The quotient by `d` goes up by one at each multiple of `d`, and stays
/// between them.
proof fn lemma_quotient_step(x: int, d: int)
    requires
        d > 1,
    ensures
        x / d == (x - 1) / d + if x % d == 0 {
            1int
        } else {
            0int
        },
{
    let q = x / d;
    let r = x % d;
    lemma_fundamental_div_mod(x, d);
    lemma_mod_bound(x, d);
    if r == 0 {
        assert(x - 1 == (q - 1) * d + (d - 1)) by (nonlinear_arith)
            requires
                x == d * q + r,
                r == 0,
        ;
        lemma_fundamental_div_mod_converse(x - 1, d, q - 1, d - 1);
    } else {
        assert(x - 1 == q * d + (r - 1)) by (nonlinear_arith)
            requires
                x == d * q + r,
        ;
        lemma_fundamental_div_mod_converse(x - 1, d, q, r - 1);
    }
}

/// Each year adds its own leap day to the count of those before it.
pub proof fn lemma_leap_years_step(year: int)
    ensures
        leap_years_before(year + 1) == leap_years_before(year) + if is_leap(year) {
            1int
        } else {
            0int
        },
{
    lemma_quotient_step(year, 4);
    lemma_quotient_step(year, 100);
    lemma_quotient_step(year, 400);
    lemma_mod_mod(year, 4, 25);
    lemma_mod_mod(year, 100, 4);
    assert(year % 100 == 0 ==> year % 4 == 0);
    assert(year % 400 == 0 ==> year % 100 == 0);
}

/// One year on, the first of January lies a year's length later.
pub proof fn lemma_days_before_year_step(year: int)
    ensures
        days_before_year(year + 1) == days_before_year(year) + year_length(year),
{
}

/// The day number of 1 January in closed form: 365 days a year, and one
/// more for each leap year since 1970 (477 leap years precede 1970).
pub proof fn lemma_days_before_year_closed(year: int)
    ensures
        days_before_year(year) == 365 * (year - 1970) + leap_years_before(year) - 477,
    decreases
            (if year >= 1970 {
                year - 1970
            } else {
                1970 - year
            }),
{
    if year > 1970 {
        lemma_days_before_year_closed(year - 1);
        lemma_leap_years_step(year - 1);
    } else if year < 1970 {
        lemma_days_before_year_closed(year + 1);
        lemma_leap_years_step(year);
    }
}

/// The days before each month, written out: a common year's running
/// totals, one more from March on in a leap year.
pub proof fn lemma_days_before_month_values(year: int)
    ensures
        days_before_month(year, 1) == 0,
        days_before_month(year, 2) == 31,
        days_before_month(year, 3) == 59 + year_length(year) - 365,
        days_before_month(year, 4) == 90 + year_length(year) - 365,
        days_before_month(year, 5) == 120 + year_length(year) - 365,
        days_before_month(year, 6) == 151 + year_length(year) - 365,
        days_before_month(year, 7) == 181 + year_length(year) - 365,
        days_before_month(year, 8) == 212 + year_length(year) - 365,
        days_before_month(year, 9) == 243 + year_length(year) - 365,
        days_before_month(year, 10) == 273 + year_length(year) - 365,
        days_before_month(year, 11) == 304 + year_length(year) - 365,
        days_before_month(year, 12) == 334 + year_length(year) - 365,
        days_before_month(year, 13) == year_length(year),
{
    reveal_with_fuel(days_before_month, 14);
}

/// Leap-year test.
pub fn is_leap_year(year: i64) -> (leap: bool)
    ensures
        leap == is_leap(year as int),
{
    let place: i64 = mod_floor(year, 400);
    proof {
        lemma_mod_mod(year as int, 4, 100);
        lemma_mod_mod(year as int, 100, 4);
        assert(year as int % 4 == place as int % 4);
        assert(year as int % 100 == place as int % 100);
    }
    (place % 4 == 0 && place % 100 != 0) || place == 0
}

/// Number of days in `month` of `year`.
pub fn days_in_month(year: i64, month: u32) -> (days: u32)
    requires
        1 <= month <= 12,
    ensures
        days == month_length(year as int, month as int),
{
    if month == 2 {
        if is_leap_year(year) {
            29
        } else {
            28
        }
    } else if month == 4 || month == 6 || month == 9 || month == 11 {
        30
    } else {
        31
    }
}

/// Number of days of `year` before the first of `month`.
fn days_before_month_of(year: i64, month: u32) -> (days: i64)
    requires
        1 <= month <= 12,
    ensures
        days == days_before_month(year as int, month as int),
        0 <= days <= 335,
{
    proof {
        lemma_days_before_month_values(year as int);
    }
    let common: i64 = if month == 1 {
        0
    } else if month == 2 {
        31
    } else if month == 3 {
        59
    } else if month == 4 {
        90
    } else if month == 5 {
        120
    } else if month == 6 {
        151
    } else if month == 7 {
        181
    } else if month == 8 {
        212
    } else if month == 9 {
        243
    } else if month == 10 {
        273
    } else if month == 11 {
        304
    } else {
        334
    };
    if month > 2 && is_leap_year(year) {
        common + 1
    } else {
        common
    }
}

/// Day number of `(year, month, day)`, counted from 1 January 1970.
pub fn days_since_epoch(year: i64, month: u32, day: u32) -> (days: i64)
    requires
        -YEAR_LIMIT <= year <= YEAR_LIMIT,
        1 <= month <= 12,
    ensures
        days == day_number(year as int, month as int, day as int),
{
    proof {
        lemma_days_before_year_closed(year as int);
    }
    let prior: i64 = year - 1;
    let leaps: i64 = div_floor(prior, 4) - div_floor(prior, 100) + div_floor(prior, 400);
    let year_start: i64 = 365 * (year - 1970) + leaps - 477;
    year_start + days_before_month_of(year, month) + (day as i64) - 1
}

/// Whether `date` is the calendar day numbered `days`.
pub open spec fn is_date_of(date: (int, int, int), days: int) -> bool {
    valid_date(date.0, date.1, date.2) && day_number(date.0, date.1, date.2) == days
}

/// The date of the day numbered `days`, as year, month and day.
pub open spec fn civil_from_days(days: int) -> (int, int, int) {
    choose|date: (int, int, int)| is_date_of(date, days)
}

/// Splitting a day count into 400-year cycles, centuries, four-year spans
/// and years finds the year that holds the day, and the day's place in it.
proof fn lemma_year_of_days(days: int, cycles: int, r: int, b: int, c: int, d: int)
    requires
        days + 719162 == 146097 * cycles + r,
        0 <= r < 146097,
        b == (if r / 36524 > 3 {
            3
        } else {
            r / 36524
        }),
        c == (r - 36524 * b) / 1461,
        d == (if (r - 36524 * b - 1461 * c) / 365 > 3 {
            3
        } else {
            (r - 36524 * b - 1461 * c) / 365
        }),
    ensures
        days_before_year(1 + 400 * cycles + 100 * b + 4 * c + d) + (r - 36524 * b - 1461 * c - 365
            * d) == days,
        0 <= r - 36524 * b - 1461 * c - 365 * d < year_length(
            1 + 400 * cycles + 100 * b + 4 * c + d,
        ),
{
    let year = 1 + 400 * cycles + 100 * b + 4 * c + d;
    let in_century = r - 36524 * b;
    let in_span = in_century - 1461 * c;
    lemma_fundamental_div_mod(r, 36524);
    assert(0 <= b <= 3);
    assert(0 <= in_century <= 36524 && (b < 3 ==> in_century < 36524));
    lemma_fundamental_div_mod(in_century, 1461);
    assert(0 <= c <= 24);
    assert(0 <= in_span <= 1460 && (c == 24 && b < 3 ==> in_span < 1460));
    lemma_fundamental_div_mod(in_span, 365);
    assert(0 <= d <= 3);
    // The years before `year`, counted in fours, hundreds and four hundreds.
    lemma_fundamental_div_mod_converse(year - 1, 4, 100 * cycles + 25 * b + c, d);
    lemma_fundamental_div_mod_converse(year - 1, 100, 4 * cycles + b, 4 * c + d);
    lemma_fundamental_div_mod_converse(year - 1, 400, cycles, 100 * b + 4 * c + d);
    assert(leap_years_before(year) == 97 * cycles + 24 * b + c);
    lemma_days_before_year_closed(year);
    // `year` itself is a leap year where it closes a span of four years,
    // but not a century, unless it closes a cycle.
    let fourth = d == 3;
    let hundredth = fourth && c == 24;
    let four_hundredth = hundredth && b == 3;
    if fourth {
        lemma_fundamental_div_mod_converse(year, 4, 100 * cycles + 25 * b + c + 1, 0);
    } else {
        lemma_fundamental_div_mod_converse(year, 4, 100 * cycles + 25 * b + c, d + 1);
    }
    if hundredth {
        lemma_fundamental_div_mod_converse(year, 100, 4 * cycles + b + 1, 0);
    } else {
        lemma_fundamental_div_mod_converse(year, 100, 4 * cycles + b, 4 * c + d + 1);
    }
    if four_hundredth {
        lemma_fundamental_div_mod_converse(year, 400, cycles + 1, 0);
    } else {
        lemma_fundamental_div_mod_converse(year, 400, cycles, 100 * b + 4 * c + d + 1);
    }
    assert(is_leap(year) <==> (fourth && !hundredth) || four_hundredth);
}

/// A later year begins later, by at least 365 days for each year between.
pub proof fn lemma_days_before_year_monotone(earlier: int, later: int)
    requires
        earlier <= later,
    ensures
        days_before_year(later) - days_before_year(earlier) >= 365 * (later - earlier),
    decreases later - earlier,
{
    if earlier < later {
        lemma_days_before_year_monotone(earlier, later - 1);
        lemma_days_before_year_step(later - 1);
    }
}

/// The days of a year are numbered from its first of January up to the
/// day before the next.
pub proof fn lemma_day_number_within_year(year: int, month: int, day: int)
    requires
        valid_date(year, month, day),
    ensures
        days_before_year(year) <= day_number(year, month, day) < days_before_year(year + 1),
{
    lemma_days_before_month_values(year);
    lemma_days_before_year_step(year);
}

/// A day number bounds the year of its date: no year is shorter than 365
/// days, so a date lies at least that many days from 1970 for each year
/// between.
pub proof fn lemma_year_bounded_by_day_number(year: int, month: int, day: int)
    requires
        valid_date(year, month, day),
    ensures
        year >= 1970 ==> day_number(year, month, day) >= 365 * (year - 1970),
        year < 1970 ==> day_number(year, month, day) < 365 * (year - 1969),
{
    lemma_day_number_within_year(year, month, day);
    if year >= 1970 {
        lemma_days_before_year_monotone(1970, year);
    } else {
        lemma_days_before_year_monotone(year + 1, 1970);
    }
}

/// Day numbers order dates as the calendar does: a date that comes first
/// by year, then month, then day has the smaller number.
pub proof fn lemma_day_number_increasing(
    year1: int,
    month1: int,
    day1: int,
    year2: int,
    month2: int,
    day2: int,
)
    requires
        valid_date(year1, month1, day1),
        valid_date(year2, month2, day2),
        year1 < year2 || (year1 == year2 && (month1 < month2 || (month1 == month2 && day1
            < day2))),
    ensures
        day_number(year1, month1, day1) < day_number(year2, month2, day2),
{
    lemma_day_number_within_year(year1, month1, day1);
    lemma_day_number_within_year(year2, month2, day2);
    if year1 < year2 {
        lemma_days_before_year_monotone(year1 + 1, year2);
    } else {
        lemma_days_before_month_values(year1);
    }
}

/// No two dates share a day number.
pub proof fn lemma_day_number_injective(
    year1: int,
    month1: int,
    day1: int,
    year2: int,
    month2: int,
    day2: int,
)
    requires
        valid_date(year1, month1, day1),
        valid_date(year2, month2, day2),
        day_number(year1, month1, day1) == day_number(year2, month2, day2),
    ensures
        year1 == year2,
        month1 == month2,
        day1 == day2,
{
    if year1 < year2 || (year1 == year2 && (month1 < month2 || (month1 == month2 && day1
        < day2))) {
        lemma_day_number_increasing(year1, month1, day1, year2, month2, day2);
    } else if !(year1 == year2 && month1 == month2 && day1 == day2) {
        lemma_day_number_increasing(year2, month2, day2, year1, month1, day1);
    }
}

/// Converting a date to its day number and back gives the date again.
pub proof fn lemma_date_round_trip(year: int, month: int, day: int)
    requires
        valid_date(year, month, day),
    ensures
        civil_from_days(day_number(year, month, day)) == (year, month, day),
{
    let days = day_number(year, month, day);
    assert(is_date_of((year, month, day), days));
    let back = civil_from_days(days);
    lemma_day_number_injective(year, month, day, back.0, back.1, back.2);
}

/// Every day number is the number of a date, and `civil_from_days` is that
/// date.
pub proof fn lemma_civil_from_days(days: int)
    ensures
        is_date_of(civil_from_days(days), days),
{
    let cycles = (days + 719162) / 146097;
    let r = (days + 719162) % 146097;
    let b = if r / 36524 > 3 {
        3
    } else {
        r / 36524
    };
    let c = (r - 36524 * b) / 1461;
    let d = if (r - 36524 * b - 1461 * c) / 365 > 3 {
        3
    } else {
        (r - 36524 * b - 1461 * c) / 365
    };
    let year = 1 + 400 * cycles + 100 * b + 4 * c + d;
    let day_of_year = r - 36524 * b - 1461 * c - 365 * d;
    lemma_year_of_days(days, cycles, r, b, c, d);
    lemma_days_before_month_values(year);
    let month = if day_of_year < days_before_month(year, 2) {
        1int
    } else if day_of_year < days_before_month(year, 3) {
        2
    } else if day_of_year < days_before_month(year, 4) {
        3
    } else if day_of_year < days_before_month(year, 5) {
        4
    } else if day_of_year < days_before_month(year, 6) {
        5
    } else if day_of_year < days_before_month(year, 7) {
        6
    } else if day_of_year < days_before_month(year, 8) {
        7
    } else if day_of_year < days_before_month(year, 9) {
        8
    } else if day_of_year < days_before_month(year, 10) {
        9
    } else if day_of_year < days_before_month(year, 11) {
        10
    } else if day_of_year < days_before_month(year, 12) {
        11
    } else {
        12
    };
    let day = day_of_year - days_before_month(year, month) + 1;
    assert(is_date_of((year, month, day), days));
}

/// Converting a day number to its date and back gives the day number
/// again.
pub proof fn lemma_day_number_round_trip(days: int)
    ensures
        ({
            let date = civil_from_days(days);
            day_number(date.0, date.1, date.2) == days
        }),
{
    lemma_civil_from_days(days);
}

/// The weekday moves on by one with each day, and starts again after
/// Saturday.
pub proof fn lemma_weekday_after(days: int, later: int)
    ensures
        weekday_of(days + later) == (weekday_of(days) + later) % 7,
{
    lemma_fundamental_div_mod(days + 4, 7);
    lemma_same_remainder(days + later + 4, weekday_of(days) + later, (days + 4) / 7, 7);
}

/// Weekdays repeat every seven days, and lie between Sunday and Saturday.
pub proof fn lemma_weekday_period(days: int, weeks: int)
    ensures
        weekday_of(days + 7 * weeks) == weekday_of(days),
        0 <= weekday_of(days) <= 6,
{
    lemma_same_remainder(days + 7 * weeks + 4, days + 4, weeks, 7);
}

/// Weekday of the day numbered `days`: 0 is Sunday, 6 is Saturday.
pub fn day_of_week(days: i64) -> (wd: u32)
    ensures
        wd == weekday_of(days as int),
        wd <= 6,
{
    let place: i64 = mod_floor(days, 7);
    proof {
        lemma_fundamental_div_mod(days as int, 7);
        lemma_same_remainder(days + 4, place + 4, days as int / 7, 7);
    }
    ((place + 4) % 7) as u32
}

/// Year, month, day and weekday of the day numbered `days`.
pub fn date_from_days_since_epoch(days: i64) -> (date: (i64, u32, u32, u32))
    ensures
        (date.0 as int, date.1 as int, date.2 as int) == civil_from_days(days as int),
        valid_date(date.0 as int, date.1 as int, date.2 as int),
        day_number(date.0 as int, date.1 as int, date.2 as int) == days,
        date.3 == weekday_of(days as int),
{
    let era: i64 = div_floor(days, 146097);
    let shifted: i64 = mod_floor(days, 146097) + 719162;
    let cycles: i64 = era + shifted / 146097;
    let r: i64 = shifted % 146097;
    let b: i64 = if r / 36524 > 3 {
        3
    } else {
        r / 36524
    };
    let r1: i64 = r - 36524 * b;
    let c: i64 = r1 / 1461;
    let r2: i64 = r1 - 1461 * c;
    let d: i64 = if r2 / 365 > 3 {
        3
    } else {
        r2 / 365
    };
    let day_of_year: i64 = r2 - 365 * d;
    let year: i64 = 1 + 400 * cycles + 100 * b + 4 * c + d;
    proof {
        lemma_year_of_days(days as int, cycles as int, r as int, b as int, c as int, d as int);
        lemma_days_before_month_values(year as int);
    }
    let mut month: u32 = 1;
    let mut rest: i64 = day_of_year;
    let mut length: i64 = 31;
    while rest >= length
        invariant
            1 <= month <= 12,
            0 <= rest,
            length == month_length(year as int, month as int),
            days_before_month(year as int, month as int) + rest == day_of_year,
            day_of_year < year_length(year as int),
        decreases 12 - month,
    {
        proof {
            lemma_days_before_month_values(year as int);
        }
        rest = rest - length;
        month = month + 1;
        length = days_in_month(year, month) as i64;
    }
    let day: u32 = (rest + 1) as u32;
    proof {
        assert(is_date_of((year as int, month as int, day as int), days as int));
        let found = civil_from_days(days as int);
        lemma_day_number_injective(
            year as int,
            month as int,
            day as int,
            found.0,
            found.1,
            found.2,
        );
    }
    (year, month, day, day_of_week(days))
}

/// Number of days among the first `day` days of the month that fall on
/// `weekday`.
pub open spec fn weekday_count(year: int, month: int, weekday: int, day: int) -> int
    decreases day,
{
    if day <= 0 {
        0
    } else {
        weekday_count(year, month, weekday, day - 1) + if weekday_of(
            day_number(year, month, day),
        ) == weekday {
            1int
        } else {
            0int
        }
    }
}

/// Whether `day` is the `n`-th day of its month to fall on `weekday`.
pub open spec fn is_nth_weekday(year: int, month: int, weekday: int, n: int, day: int) -> bool {
    &&& valid_date(year, month, day)
    &&& weekday_of(day_number(year, month, day)) == weekday
    &&& weekday_count(year, month, weekday, day) == n
}

/// Whether `day` is the last day of its month to fall on `weekday`.
pub open spec fn is_last_weekday(year: int, month: int, weekday: int, day: int) -> bool {
    &&& valid_date(year, month, day)
    &&& weekday_of(day_number(year, month, day)) == weekday
    &&& forall|later: int|
        day < later <= month_length(year, month) ==> #[trigger] weekday_of(
            day_number(year, month, later),
        ) != weekday
}

/// Day of the month of the first `weekday` of the month.
pub open spec fn first_weekday_day(year: int, month: int, weekday: int) -> int {
    1 + (weekday - weekday_of(day_number(year, month, 1))) % 7
}

/// Day of the month of the `n`-th `weekday` of the month, and 1 where the
/// month has no such day.
pub open spec fn nth_weekday_day(year: int, month: int, weekday: int, n: int) -> int {
    let day = first_weekday_day(year, month, weekday) + 7 * (n - 1);
    if n >= 1 && day <= month_length(year, month) {
        day
    } else {
        1
    }
}

/// Day of the month of the last `weekday` of the month.
pub open spec fn last_weekday_day(year: int, month: int, weekday: int) -> int {
    let last = month_length(year, month);
    last - (weekday_of(day_number(year, month, last)) - weekday) % 7
}

/// In a month whose first day has the number `opening`, `day` falls on
/// `weekday` where it lies whole weeks from the first such day.
proof fn lemma_weekday_by_offset(opening: int, weekday: int, day: int)
    requires
        0 <= weekday <= 6,
    ensures
        1 <= 1 + (weekday - weekday_of(opening)) % 7 <= 7,
        weekday_of(opening + day - 1) == weekday <==> (day - (1 + (weekday - weekday_of(opening))
            % 7)) % 7 == 0,
{
    let first_on = weekday_of(opening);
    let wait = (weekday - first_on) % 7;
    let weeks_before = (opening + 4) / 7;
    let weeks_between = (weekday - first_on) / 7;
    lemma_fundamental_div_mod(opening + 4, 7);
    lemma_fundamental_div_mod(weekday - first_on, 7);
    let shifted = opening + day + 3;
    let gap = day - 1 - wait;
    assert(shifted - weekday == gap + (weeks_before - weeks_between) * 7);
    lemma_same_remainder(shifted - weekday, gap, weeks_before - weeks_between, 7);
    lemma_mod_equivalence(shifted, weekday, 7);
    lemma_small_mod(weekday as nat, 7);
}

/// The first `weekday` of a month lies in its first seven days, and the
/// days that fall on `weekday` are those whole weeks from it.
pub proof fn lemma_first_weekday_day(year: int, month: int, weekday: int, day: int)
    requires
        0 <= weekday <= 6,
    ensures
        1 <= first_weekday_day(year, month, weekday) <= 7,
        weekday_of(day_number(year, month, day)) == weekday <==> (day - first_weekday_day(
            year,
            month,
            weekday,
        )) % 7 == 0,
{
    let opening = day_number(year, month, 1);
    assert(day_number(year, month, day) == opening + day - 1);
    lemma_weekday_by_offset(opening, weekday, day);
}

/// Up to any day, the count of a weekday is the number of whole weeks
/// since its first occurrence, and one more from that occurrence on.
proof fn lemma_weekday_count_closed(year: int, month: int, weekday: int, day: int)
    requires
        0 <= weekday <= 6,
        0 <= day,
    ensures
        weekday_count(year, month, weekday, day) == (day + 7 - first_weekday_day(
            year,
            month,
            weekday,
        )) / 7,
    decreases day,
{
    let first = first_weekday_day(year, month, weekday);
    lemma_first_weekday_day(year, month, weekday, day);
    if day > 0 {
        lemma_weekday_count_closed(year, month, weekday, day - 1);
        let gap = day - first;
        let weeks = gap / 7;
        let over = gap % 7;
        lemma_fundamental_div_mod(gap, 7);
        lemma_fundamental_div_mod_converse(gap + 7, 7, weeks + 1, over);
        if over == 0 {
            lemma_fundamental_div_mod_converse(gap + 6, 7, weeks, 6);
        } else {
            lemma_fundamental_div_mod_converse(gap + 6, 7, weeks + 1, over - 1);
        }
    }
}

/// The `n`-th weekday of a month, where there is one, is the day that
/// `nth_weekday_day` gives; where there is none, `nth_weekday_day` is 1.
pub proof fn lemma_nth_weekday_day(year: int, month: int, weekday: int, n: int)
    requires
        1 <= month <= 12,
        0 <= weekday <= 6,
    ensures
        forall|day: int| #[trigger]
            is_nth_weekday(year, month, weekday, n, day) ==> day == nth_weekday_day(
                year,
                month,
                weekday,
                n,
            ),
        (exists|day: int| is_nth_weekday(year, month, weekday, n, day)) ==> is_nth_weekday(
            year,
            month,
            weekday,
            n,
            nth_weekday_day(year, month, weekday, n),
        ),
        !(exists|day: int| is_nth_weekday(year, month, weekday, n, day)) ==> nth_weekday_day(
            year,
            month,
            weekday,
            n,
        ) == 1,
{
    let first = first_weekday_day(year, month, weekday);
    let target = first + 7 * (n - 1);
    assert forall|day: int| #[trigger]
        is_nth_weekday(year, month, weekday, n, day) implies day == target && n >= 1 by {
        lemma_first_weekday_day(year, month, weekday, day);
        lemma_weekday_count_closed(year, month, weekday, day);
        let gap = day - first;
        assert(gap % 7 == 0);
        assert((gap + 7) / 7 == n);
    }
    if n >= 1 && target <= month_length(year, month) {
        lemma_first_weekday_day(year, month, weekday, target);
        lemma_weekday_count_closed(year, month, weekday, target);
        assert(is_nth_weekday(year, month, weekday, n, target));
    }
}

/// The last weekday of a month is the day that `last_weekday_day` gives.
pub proof fn lemma_last_weekday_day(year: int, month: int, weekday: int)
    requires
        1 <= month <= 12,
        0 <= weekday <= 6,
    ensures
        is_last_weekday(year, month, weekday, last_weekday_day(year, month, weekday)),
        forall|day: int| #[trigger]
            is_last_weekday(year, month, weekday, day) ==> day == last_weekday_day(
                year,
                month,
                weekday,
            ),
{
    let last = month_length(year, month);
    let closing = day_number(year, month, last);
    let back = (weekday_of(closing) - weekday) % 7;
    let found = last_weekday_day(year, month, weekday);
    assert(found == last - back && 0 <= back <= 6);
    assert(weekday_of(day_number(year, month, found)) == weekday) by {
        assert(day_number(year, month, found) == closing + (-back));
        lemma_weekday_after(closing, -back);
        lemma_fundamental_div_mod(weekday_of(closing) - weekday, 7);
        lemma_same_remainder(
            weekday_of(closing) - back,
            weekday,
            (weekday_of(closing) - weekday) / 7,
            7,
        );
        lemma_small_mod(weekday as nat, 7);
    }
    assert forall|later: int| found < later <= last implies #[trigger] weekday_of(
        day_number(year, month, later),
    ) != weekday by {
        assert(day_number(year, month, later) == day_number(year, month, found) + (later
            - found));
        lemma_weekday_after(day_number(year, month, found), later - found);
    }
    assert(is_last_weekday(year, month, weekday, found));
    assert forall|day: int| #[trigger]
        is_last_weekday(year, month, weekday, day) implies day == found by {
        if day < found {
            assert(weekday_of(day_number(year, month, found)) != weekday);
        } else if day > found {
            assert(weekday_of(day_number(year, month, day)) != weekday);
        }
    }
}

/// Day of the month of the `n`-th `weekday` (0 is Sunday) in `month` of
/// `year`; 1 where the month has no `n`-th such day.
pub fn nth_weekday_of_month(year: i64, month: u32, weekday: u32, n: u32) -> (day: u32)
    requires
        -YEAR_LIMIT <= year <= YEAR_LIMIT,
        1 <= month <= 12,
        weekday <= 6,
    ensures
        day == nth_weekday_day(year as int, month as int, weekday as int, n as int),
        valid_date(year as int, month as int, day as int),
        (exists|found: int|
            is_nth_weekday(year as int, month as int, weekday as int, n as int, found))
            ==> is_nth_weekday(year as int, month as int, weekday as int, n as int, day as int),
        !(exists|found: int|
            is_nth_weekday(year as int, month as int, weekday as int, n as int, found)) ==> day
            == 1,
{
    let opening: u32 = day_of_week(days_since_epoch(year, month, 1));
    proof {
        lemma_mod_add_multiples_vanish(weekday - opening, 7);
        lemma_nth_weekday_day(year as int, month as int, weekday as int, n as int);
    }
    let first: u32 = 1 + (weekday + 7 - opening) % 7;
    if 1 <= n && n <= 5 {
        let day: u32 = first + 7 * (n - 1);
        if day <= days_in_month(year, month) {
            return day;
        }
    }
    1
}

/// Day of the month of the last `weekday` (0 is Sunday) in `month` of
/// `year`.
pub fn last_weekday_of_month(year: i64, month: u32, weekday: u32) -> (day: u32)
    requires
        -YEAR_LIMIT <= year <= YEAR_LIMIT,
        1 <= month <= 12,
        weekday <= 6,
    ensures
        day == last_weekday_day(year as int, month as int, weekday as int),
        is_last_weekday(year as int, month as int, weekday as int, day as int),
{
    let last: u32 = days_in_month(year, month);
    let closing: u32 = day_of_week(days_since_epoch(year, month, last));
    proof {
        lemma_mod_add_multiples_vanish(closing - weekday, 7);
        lemma_last_weekday_day(year as int, month as int, weekday as int);
    }
    last - (closing + 7 - weekday) % 7
}

} // verus!
