//! The exchange's holiday calendar: a fixed table of rules, and the test
//! of a date against it.

use crate::arith::{div_floor, mod_floor};
use crate::calendar::{
    day_number, day_of_week, days_since_epoch, last_weekday_day, last_weekday_of_month,
    leap_years_before, lemma_days_before_month_values, lemma_days_before_year_closed,
    lemma_first_weekday_day, lemma_last_weekday_day, lemma_leap_years_step, lemma_weekday_after,
    nth_weekday_day, nth_weekday_of_month, valid_date, weekday_of, YEAR_LIMIT,
};
use vstd::arithmetic::div_mod::{lemma_fundamental_div_mod, lemma_fundamental_div_mod_converse};
use vstd::prelude::*;

verus! {

/// How a holiday's day is found in a given year.
#[derive(Clone, Copy, Debug)]
pub enum HolidayRule {
    /// The same month and day every year; where that day is a Saturday or a
    /// Sunday, the Monday after it is observed in its place.
    FixedDate { month: u32, day: u32 },
    /// The `n`-th `weekday` of `month`.
    NthWeekdayOfMonth { month: u32, weekday: u32, n: u32 },
    /// The last `weekday` of `month`.
    LastWeekdayOfMonth { month: u32, weekday: u32 },
    /// `offset_days` days after Easter Sunday (before it, where negative).
    EasterRelative { offset_days: i64 },
}

/// A holiday of the table: its rule and the name it is observed under.
#[derive(Clone, Copy, Debug)]
pub struct Holiday {
    pub rule: HolidayRule,
    pub name: &'static str,
}

impl HolidayRule {
    /// The rules this calendar can hold: months and weekdays in range, a
    /// fixed date whose Monday after still lies in its month, an `n` that
    /// every month reaches, and an Easter offset within a year.
    pub open spec fn wf(self) -> bool {
        match self {
            HolidayRule::FixedDate { month, day } => 1 <= month <= 12 && 1 <= day <= 26,
            HolidayRule::NthWeekdayOfMonth { month, weekday, n } => 1 <= month <= 12 && weekday
                <= 6 && 1 <= n <= 4,
            HolidayRule::LastWeekdayOfMonth { month, weekday } => 1 <= month <= 12 && weekday
                <= 6,
            HolidayRule::EasterRelative { offset_days } => -366 <= offset_days <= 366,
        }
    }
}

/// Month and day of Easter Sunday in `year`, by the Gregorian computus in
/// the form of Meeus, Jones and Butcher.
pub open spec fn easter_sunday(year: int) -> (int, int) {
    let a = year % 19;
    let b = year / 100;
    let c = year % 100;
    let d = b / 4;
    let e = b % 4;
    let f = (b + 8) / 25;
    let g = (b - f + 1) / 3;
    let h = (19 * a + b - d - g + 15) % 30;
    let i = c / 4;
    let k = c % 4;
    let l = (32 + 2 * e + 2 * i - h - k) % 7;
    let m = (a + 11 * h + 22 * l) / 451;
    let place = h + l - 7 * m + 114;
    (place / 31, place % 31 + 1)
}

/// Day of the month on which the fixed date `(month, day)` is observed in
/// `year`: the day itself from Monday to Friday, the Monday after it where
/// it is a Saturday or a Sunday.
pub open spec fn observed_day(year: int, month: int, day: int) -> int {
    let falls_on = weekday_of(day_number(year, month, day));
    if falls_on == 6 {
        day + 2
    } else if falls_on == 0 {
        day + 1
    } else {
        day
    }
}

/// Whether `rule` makes the date `(year, month, day)`, which falls on
/// `weekday`, a holiday. A day found from Easter counts only where it falls
/// on the weekday that lies its offset from a Sunday.
pub open spec fn rule_matches(
    rule: HolidayRule,
    year: int,
    month: int,
    day: int,
    weekday: int,
) -> bool {
    match rule {
        HolidayRule::FixedDate { month: m, day: d } => month == m && day == observed_day(
            year,
            m as int,
            d as int,
        ),
        HolidayRule::NthWeekdayOfMonth { month: m, weekday: w, n } => month == m && day
            == nth_weekday_day(year, m as int, w as int, n as int),
        HolidayRule::LastWeekdayOfMonth { month: m, weekday: w } => month == m && day
            == last_weekday_day(year, m as int, w as int),
        HolidayRule::EasterRelative { offset_days } => {
            let easter = easter_sunday(year);
            day_number(year, month, day) == day_number(year, easter.0, easter.1) + offset_days
                && weekday == offset_days % 7
        },
    }
}

/// Whether the holiday is observed in `year` on another day than its own:
/// a fixed date that falls on a Saturday or a Sunday.
pub open spec fn is_shifted(rule: HolidayRule, year: int) -> bool {
    match rule {
        HolidayRule::FixedDate { month, day } => observed_day(year, month as int, day as int)
            != day,
        _ => false,
    }
}

/// Name under which `holiday` is observed in `year`: its own, marked as
/// observed where the day was moved.
pub open spec fn holiday_label(holiday: Holiday, year: int) -> Seq<char> {
    if is_shifted(holiday.rule, year) {
        holiday.name@ + " (Observed)"@
    } else {
        holiday.name@
    }
}

/// The holidays of the New York Stock Exchange, in the order of the year.
pub open spec fn nyse_holidays() -> Seq<Holiday> {
    seq![
        Holiday { rule: HolidayRule::FixedDate { month: 1, day: 1 }, name: "New Year's Day" },
        Holiday {
            rule: HolidayRule::NthWeekdayOfMonth { month: 1, weekday: 1, n: 3 },
            name: "Martin Luther King Jr. Day",
        },
        Holiday {
            rule: HolidayRule::NthWeekdayOfMonth { month: 2, weekday: 1, n: 3 },
            name: "Presidents Day",
        },
        Holiday { rule: HolidayRule::EasterRelative { offset_days: -2i64 }, name: "Good Friday" },
        Holiday {
            rule: HolidayRule::LastWeekdayOfMonth { month: 5, weekday: 1 },
            name: "Memorial Day",
        },
        Holiday { rule: HolidayRule::FixedDate { month: 6, day: 19 }, name: "Juneteenth" },
        Holiday {
            rule: HolidayRule::FixedDate { month: 7, day: 4 },
            name: "Independence Day",
        },
        Holiday {
            rule: HolidayRule::NthWeekdayOfMonth { month: 9, weekday: 1, n: 1 },
            name: "Labor Day",
        },
        Holiday {
            rule: HolidayRule::NthWeekdayOfMonth { month: 11, weekday: 4, n: 4 },
            name: "Thanksgiving Day",
        },
        Holiday { rule: HolidayRule::FixedDate { month: 12, day: 25 }, name: "Christmas Day" },
    ]
}

/// Name of the first holiday of the table, from index `from` on, that the
/// date is, if it is any.
pub open spec fn holiday_from(year: int, month: int, day: int, weekday: int, from: int) -> Option<
    Seq<char>,
>
    decreases nyse_holidays().len() - from,
{
    if from < 0 || from >= nyse_holidays().len() {
        None
    } else if rule_matches(nyse_holidays()[from].rule, year, month, day, weekday) {
        Some(holiday_label(nyse_holidays()[from], year))
    } else {
        holiday_from(year, month, day, weekday, from + 1)
    }
}

/// Name of the holiday observed on the date `(year, month, day)`, which
/// falls on `weekday`, if it is one.
pub open spec fn holiday_on(year: int, month: int, day: int, weekday: int) -> Option<Seq<char>> {
    holiday_from(year, month, day, weekday, 0)
}

/// Easter Sunday is a day of March or April: no earlier than 15 March and
/// no later than 26 April.
pub proof fn lemma_easter_window(year: int)
    ensures
        valid_date(year, easter_sunday(year).0, easter_sunday(year).1),
        (easter_sunday(year).0 == 3 && easter_sunday(year).1 >= 15) || (easter_sunday(year).0
            == 4 && easter_sunday(year).1 <= 26),
{
}

/// Easter Sunday is a Sunday.
pub proof fn lemma_easter_is_sunday(year: int)
    ensures
        weekday_of(day_number(year, easter_sunday(year).0, easter_sunday(year).1)) == 0,
{
    let a = year % 19;
    let b = year / 100;
    let c = year % 100;
    let d = b / 4;
    let e = b % 4;
    let f = (b + 8) / 25;
    let g = (b - f + 1) / 3;
    let h = (19 * a + b - d - g + 15) % 30;
    let i = c / 4;
    let k = c % 4;
    let l = (32 + 2 * e + 2 * i - h - k) % 7;
    let m = (a + 11 * h + 22 * l) / 451;
    let place = h + l - 7 * m + 114;
    let easter = easter_sunday(year);
    lemma_easter_window(year);
    // The year in centuries, fours and single years.
    lemma_fundamental_div_mod(year, 100);
    lemma_fundamental_div_mod(b, 4);
    lemma_fundamental_div_mod(c, 4);
    assert(year == 400 * d + 100 * e + 4 * i + k);
    // The leap years up to and with `year`.
    lemma_fundamental_div_mod_converse(year, 4, 100 * d + 25 * e + i, k);
    lemma_fundamental_div_mod_converse(year, 400, d, 100 * e + c);
    assert(leap_years_before(year + 1) == 97 * d + 24 * e + i);
    lemma_leap_years_step(year);
    lemma_days_before_year_closed(year);
    lemma_days_before_month_values(year);
    // Easter lies `h + l - 7 * m` days after 22 March, in March or in April.
    lemma_fundamental_div_mod(place, 31);
    let days = day_number(year, easter.0, easter.1);
    assert(days == day_number(year, 3, 22) + h + l - 7 * m);
    assert(day_number(year, 3, 22) == 365 * (year - 1970) + 97 * d + 24 * e + i - 397);
    // The wait for Sunday makes up the week.
    let weeks = (32 + 2 * e + 2 * i - h - k) / 7;
    lemma_fundamental_div_mod(32 + 2 * e + 2 * i - h - k, 7);
    assert(days + 4 == 7 * (20871 * d + 5218 * e + 209 * i + 52 * k - 102773 - weeks - m));
    lemma_fundamental_div_mod_converse(
        days + 4,
        7,
        20871 * d + 5218 * e + 209 * i + 52 * k - 102773 - weeks - m,
        0,
    );
}

/// A day found from Easter falls on the weekday that lies its offset from
/// a Sunday, so that the rule asks no more of a date with its own weekday
/// than to lie that offset from Easter; Good Friday is the day two days
/// before Easter Sunday.
pub proof fn lemma_easter_relative_weekday(offset_days: i64, year: int, month: int, day: int)
    ensures
        rule_matches(
            HolidayRule::EasterRelative { offset_days },
            year,
            month,
            day,
            weekday_of(day_number(year, month, day)),
        ) <==> day_number(year, month, day) == day_number(
            year,
            easter_sunday(year).0,
            easter_sunday(year).1,
        ) + offset_days,
{
    let easter = day_number(year, easter_sunday(year).0, easter_sunday(year).1);
    lemma_easter_is_sunday(year);
    lemma_weekday_after(easter, offset_days as int);
}

/// The weekday of a rule's day: a fixed date is observed from Monday to
/// Friday, the `n`-th and the last of a weekday fall on that weekday, and a
/// day found from Easter falls its offset from a Sunday.
pub proof fn lemma_rule_weekday(rule: HolidayRule, year: int, month: int, day: int)
    requires
        rule.wf(),
        rule_matches(rule, year, month, day, weekday_of(day_number(year, month, day))),
    ensures
        match rule {
            HolidayRule::FixedDate { .. } => 1 <= weekday_of(day_number(year, month, day)) <= 5,
            HolidayRule::NthWeekdayOfMonth { weekday, .. } => weekday_of(
                day_number(year, month, day),
            ) == weekday,
            HolidayRule::LastWeekdayOfMonth { weekday, .. } => weekday_of(
                day_number(year, month, day),
            ) == weekday,
            HolidayRule::EasterRelative { offset_days } => weekday_of(
                day_number(year, month, day),
            ) == offset_days % 7,
        },
{
    match rule {
        HolidayRule::FixedDate { month: m, day: d } => {
            let own = day_number(year, m as int, d as int);
            assert(day_number(year, month, day) == own + (day - d));
            lemma_weekday_after(own, day - d);
        },
        HolidayRule::NthWeekdayOfMonth { month: m, weekday: w, n } => {
            lemma_first_weekday_day(year, m as int, w as int, day);
        },
        HolidayRule::LastWeekdayOfMonth { month: m, weekday: w } => {
            lemma_last_weekday_day(year, m as int, w as int);
        },
        HolidayRule::EasterRelative { .. } => {},
    }
}

/// Every holiday of the table falls from Monday to Friday.
pub proof fn lemma_holidays_fall_on_weekdays(year: int, month: int, day: int)
    requires
        holiday_on(year, month, day, weekday_of(day_number(year, month, day))) is Some,
    ensures
        1 <= weekday_of(day_number(year, month, day)) <= 5,
{
    let weekday = weekday_of(day_number(year, month, day));
    reveal_with_fuel(holiday_from, 11);
    assert forall|index: int|
        0 <= index < nyse_holidays().len() && #[trigger] rule_matches(
            nyse_holidays()[index].rule,
            year,
            month,
            day,
            weekday,
        ) implies 1 <= weekday <= 5 by {
        lemma_rule_weekday(nyse_holidays()[index].rule, year, month, day);
    }
}

/// No date is a holiday by two rules of the table.
pub proof fn lemma_one_holiday_per_date(
    year: int,
    month: int,
    day: int,
    weekday: int,
    first: int,
    second: int,
)
    requires
        0 <= first < second < nyse_holidays().len(),
        rule_matches(nyse_holidays()[first].rule, year, month, day, weekday),
    ensures
        !rule_matches(nyse_holidays()[second].rule, year, month, day, weekday),
{
    lemma_easter_window(year);
    lemma_days_before_month_values(year);
    lemma_first_weekday_day(year, 1, 1, day);
    lemma_first_weekday_day(year, 2, 1, day);
    lemma_last_weekday_day(year, 5, 1);
}

/// Number of holidays in the table.
pub const HOLIDAY_COUNT: usize = 10;

/// The holiday at `index` of the table.
pub fn nyse_holiday(index: usize) -> (holiday: Holiday)
    requires
        index < HOLIDAY_COUNT,
    ensures
        holiday == nyse_holidays()[index as int],
        holiday.rule.wf(),
{
    if index == 0 {
        Holiday { rule: HolidayRule::FixedDate { month: 1, day: 1 }, name: "New Year's Day" }
    } else if index == 1 {
        Holiday {
            rule: HolidayRule::NthWeekdayOfMonth { month: 1, weekday: 1, n: 3 },
            name: "Martin Luther King Jr. Day",
        }
    } else if index == 2 {
        Holiday {
            rule: HolidayRule::NthWeekdayOfMonth { month: 2, weekday: 1, n: 3 },
            name: "Presidents Day",
        }
    } else if index == 3 {
        Holiday { rule: HolidayRule::EasterRelative { offset_days: -2i64 }, name: "Good Friday" }
    } else if index == 4 {
        Holiday {
            rule: HolidayRule::LastWeekdayOfMonth { month: 5, weekday: 1 },
            name: "Memorial Day",
        }
    } else if index == 5 {
        Holiday { rule: HolidayRule::FixedDate { month: 6, day: 19 }, name: "Juneteenth" }
    } else if index == 6 {
        Holiday { rule: HolidayRule::FixedDate { month: 7, day: 4 }, name: "Independence Day" }
    } else if index == 7 {
        Holiday {
            rule: HolidayRule::NthWeekdayOfMonth { month: 9, weekday: 1, n: 1 },
            name: "Labor Day",
        }
    } else if index == 8 {
        Holiday {
            rule: HolidayRule::NthWeekdayOfMonth { month: 11, weekday: 4, n: 4 },
            name: "Thanksgiving Day",
        }
    } else {
        Holiday { rule: HolidayRule::FixedDate { month: 12, day: 25 }, name: "Christmas Day" }
    }
}

/// Month and day of Easter Sunday in `year`.
pub fn easter_date(year: i64) -> (date: (u32, u32))
    requires
        -YEAR_LIMIT <= year <= YEAR_LIMIT,
    ensures
        (date.0 as int, date.1 as int) == easter_sunday(year as int),
        3 <= date.0 <= 4,
        valid_date(year as int, date.0 as int, date.1 as int),
        weekday_of(day_number(year as int, date.0 as int, date.1 as int)) == 0,
{
    proof {
        lemma_easter_is_sunday(year as int);
    }
    let a: i64 = mod_floor(year, 19);
    let b: i64 = div_floor(year, 100);
    let c: i64 = mod_floor(year, 100);
    let d: i64 = div_floor(b, 4);
    let e: i64 = mod_floor(b, 4);
    let f: i64 = div_floor(b + 8, 25);
    let g: i64 = div_floor(b - f + 1, 3);
    let h: i64 = mod_floor(19 * a + b - d - g + 15, 30);
    let i: i64 = c / 4;
    let k: i64 = c % 4;
    let l: i64 = mod_floor(32 + 2 * e + 2 * i - h - k, 7);
    let m: i64 = (a + 11 * h + 22 * l) / 451;
    let place: i64 = h + l - 7 * m + 114;
    ((place / 31) as u32, (place % 31 + 1) as u32)
}

/// Day of the month on which the fixed date `(month, day)` is observed in
/// `year`.
fn observed_day_of(year: i64, month: u32, day: u32) -> (observed: u32)
    requires
        -YEAR_LIMIT <= year <= YEAR_LIMIT,
        1 <= month <= 12,
        1 <= day <= 26,
    ensures
        observed == observed_day(year as int, month as int, day as int),
{
    let falls_on: u32 = day_of_week(days_since_epoch(year, month, day));
    if falls_on == 6 {
        day + 2
    } else if falls_on == 0 {
        day + 1
    } else {
        day
    }
}

/// Number of days from Easter Sunday of `year` to `(year, month, day)`.
fn days_after_easter(year: i64, month: u32, day: u32) -> (days: i64)
    requires
        -YEAR_LIMIT <= year <= YEAR_LIMIT,
        1 <= month <= 12,
    ensures
        days == day_number(year as int, month as int, day as int) - day_number(
            year as int,
            easter_sunday(year as int).0,
            easter_sunday(year as int).1,
        ),
{
    let easter: (u32, u32) = easter_date(year);
    proof {
        lemma_days_before_month_values(year as int);
    }
    days_since_epoch(year, month, day) - days_since_epoch(year, easter.0, easter.1)
}

/// Whether `rule` makes the date `(year, month, day)`, which falls on
/// `weekday`, a holiday.
pub fn rule_applies(rule: &HolidayRule, year: i64, month: u32, day: u32, weekday: u32) -> (applies:
    bool)
    requires
        rule.wf(),
        -YEAR_LIMIT <= year <= YEAR_LIMIT,
        1 <= month <= 12,
    ensures
        applies == rule_matches(*rule, year as int, month as int, day as int, weekday as int),
{
    match *rule {
        HolidayRule::FixedDate { month: m, day: d } => month == m && day == observed_day_of(
            year,
            m,
            d,
        ),
        HolidayRule::NthWeekdayOfMonth { month: m, weekday: w, n } => month == m && day
            == nth_weekday_of_month(year, m, w, n),
        HolidayRule::LastWeekdayOfMonth { month: m, weekday: w } => month == m && day
            == last_weekday_of_month(year, m, w),
        HolidayRule::EasterRelative { offset_days } => days_after_easter(year, month, day)
            == offset_days && (weekday as i64) == mod_floor(offset_days, 7),
    }
}

/// Name under which `holiday` is observed in `year`.
pub fn label_of(holiday: &Holiday, year: i64) -> (label: String)
    requires
        holiday.rule.wf(),
        -YEAR_LIMIT <= year <= YEAR_LIMIT,
    ensures
        label@ == holiday_label(*holiday, year as int),
{
    let shifted: bool = match holiday.rule {
        HolidayRule::FixedDate { month, day } => observed_day_of(year, month, day) != day,
        _ => false,
    };
    let name: String = String::from_str(holiday.name);
    if shifted {
        name.concat(" (Observed)")
    } else {
        name
    }
}

/// Name of the holiday that the exchange observes on `(year, month, day)`,
/// a date that falls on `weekday`; `None` on any other day.
pub fn nyse_holiday_on(year: i64, month: u32, day: u32, weekday: u32) -> (name: Option<String>)
    requires
        -YEAR_LIMIT <= year <= YEAR_LIMIT,
        1 <= month <= 12,
    ensures
        match name {
            Some(label) => holiday_on(year as int, month as int, day as int, weekday as int)
                == Some(label@),
            None => holiday_on(year as int, month as int, day as int, weekday as int) is None,
        },
{
    let mut index: usize = 0;
    while index < HOLIDAY_COUNT
        invariant
            index <= HOLIDAY_COUNT,
            -YEAR_LIMIT <= year <= YEAR_LIMIT,
            1 <= month <= 12,
            holiday_on(year as int, month as int, day as int, weekday as int) == holiday_from(
                year as int,
                month as int,
                day as int,
                weekday as int,
                index as int,
            ),
        decreases HOLIDAY_COUNT - index,
    {
        let holiday: Holiday = nyse_holiday(index);
        if rule_applies(&holiday.rule, year, month, day, weekday) {
            return Some(label_of(&holiday, year));
        }
        index = index + 1;
    }
    None
}

/// Whether the exchange observes a holiday on `(year, month, day)`.
pub fn is_nyse_holiday(year: i64, month: u32, day: u32) -> (holiday: bool)
    requires
        -YEAR_LIMIT <= year <= YEAR_LIMIT,
        1 <= month <= 12,
    ensures
        holiday == holiday_on(
            year as int,
            month as int,
            day as int,
            weekday_of(day_number(year as int, month as int, day as int)),
        ).is_some(),
{
    let weekday: u32 = day_of_week(days_since_epoch(year, month, day));
    nyse_holiday_on(year, month, day, weekday).is_some()
}

} // verus!
