use nyse_token_hook::calendar::{day_of_week, days_in_month, days_since_epoch};
use nyse_token_hook::holidays::{
    easter_date, is_nyse_holiday, label_of, nyse_holiday, nyse_holiday_on, rule_applies, Holiday,
    HolidayRule, HOLIDAY_COUNT,
};

fn holiday_name(year: i64, month: u32, day: u32) -> Option<String> {
    let weekday = day_of_week(days_since_epoch(year, month, day));
    nyse_holiday_on(year, month, day, weekday)
}

#[test]
fn easter_sundays_of_known_years() {
    assert_eq!(easter_date(2024), (3, 31));
    assert_eq!(easter_date(2025), (4, 20));
    assert_eq!(easter_date(2000), (4, 23));
    assert_eq!(easter_date(1961), (4, 2));
    assert_eq!(easter_date(2019), (4, 21));
    assert_eq!(easter_date(2011), (4, 24));
    assert_eq!(easter_date(1818), (3, 22));
    assert_eq!(easter_date(2285), (3, 22));
    assert_eq!(easter_date(1943), (4, 25));
    assert_eq!(easter_date(2038), (4, 25));
}

#[test]
fn easter_is_computed_before_the_year_one() {
    assert_eq!(easter_date(0), (4, 9));
    assert_eq!(easter_date(-1), (4, 18));
    assert_eq!(easter_date(-300), (3, 28));
}

#[test]
fn easter_is_a_sunday_from_1900_to_2100() {
    for year in 1900..=2100i64 {
        let (month, day) = easter_date(year);
        assert_eq!(day_of_week(days_since_epoch(year, month, day)), 0);
    }
}

#[test]
fn easter_is_a_sunday_in_any_year() {
    for &start in &[-25_000_000_000_000_000i64, -1_000_000, -400, 1, 1583, 30_000, 24_999_999_999_999_600] {
        for year in start..start + 400 {
            let (month, day) = easter_date(year);
            assert!(month == 3 || month == 4);
            assert_eq!(day_of_week(days_since_epoch(year, month, day)), 0);
        }
    }
}

#[test]
fn the_table_holds_the_ten_holidays_in_order() {
    assert_eq!(HOLIDAY_COUNT, 10);
    let names = [
        "New Year's Day",
        "Martin Luther King Jr. Day",
        "Presidents Day",
        "Good Friday",
        "Memorial Day",
        "Juneteenth",
        "Independence Day",
        "Labor Day",
        "Thanksgiving Day",
        "Christmas Day",
    ];
    for index in 0..HOLIDAY_COUNT {
        assert_eq!(nyse_holiday(index).name, names[index]);
    }
    assert!(matches!(nyse_holiday(0).rule, HolidayRule::FixedDate { month: 1, day: 1 }));
    assert!(matches!(
        nyse_holiday(1).rule,
        HolidayRule::NthWeekdayOfMonth { month: 1, weekday: 1, n: 3 }
    ));
    assert!(matches!(nyse_holiday(3).rule, HolidayRule::EasterRelative { offset_days: -2 }));
    assert!(matches!(
        nyse_holiday(4).rule,
        HolidayRule::LastWeekdayOfMonth { month: 5, weekday: 1 }
    ));
    assert!(matches!(
        nyse_holiday(8).rule,
        HolidayRule::NthWeekdayOfMonth { month: 11, weekday: 4, n: 4 }
    ));
    assert!(matches!(nyse_holiday(9).rule, HolidayRule::FixedDate { month: 12, day: 25 }));
}

#[test]
fn the_holidays_of_2024() {
    assert_eq!(holiday_name(2024, 1, 1).as_deref(), Some("New Year's Day"));
    assert_eq!(holiday_name(2024, 1, 15).as_deref(), Some("Martin Luther King Jr. Day"));
    assert_eq!(holiday_name(2024, 2, 19).as_deref(), Some("Presidents Day"));
    assert_eq!(holiday_name(2024, 3, 29).as_deref(), Some("Good Friday"));
    assert_eq!(holiday_name(2024, 5, 27).as_deref(), Some("Memorial Day"));
    assert_eq!(holiday_name(2024, 6, 19).as_deref(), Some("Juneteenth"));
    assert_eq!(holiday_name(2024, 7, 4).as_deref(), Some("Independence Day"));
    assert_eq!(holiday_name(2024, 9, 2).as_deref(), Some("Labor Day"));
    assert_eq!(holiday_name(2024, 11, 28).as_deref(), Some("Thanksgiving Day"));
    assert_eq!(holiday_name(2024, 12, 25).as_deref(), Some("Christmas Day"));
}

#[test]
fn no_other_day_of_2024_is_a_holiday() {
    let holidays = [
        (1, 1),
        (1, 15),
        (2, 19),
        (3, 29),
        (5, 27),
        (6, 19),
        (7, 4),
        (9, 2),
        (11, 28),
        (12, 25),
    ];
    let lengths = [31, 29, 31, 30, 31, 30, 31, 31, 30, 31, 30, 31];
    let mut found = 0;
    for month in 1..=12u32 {
        for day in 1..=lengths[(month - 1) as usize] {
            let expected = holidays.contains(&(month, day));
            assert_eq!(is_nyse_holiday(2024, month, day), expected);
            assert_eq!(holiday_name(2024, month, day).is_some(), expected);
            if expected {
                found += 1;
            }
        }
    }
    assert_eq!(found, 10);
}

#[test]
fn a_fixed_holiday_on_a_sunday_is_observed_on_monday() {
    assert_eq!(holiday_name(2021, 7, 4), None);
    assert_eq!(holiday_name(2021, 7, 5).as_deref(), Some("Independence Day (Observed)"));
    assert_eq!(holiday_name(2022, 12, 25), None);
    assert_eq!(holiday_name(2022, 12, 26).as_deref(), Some("Christmas Day (Observed)"));
    assert_eq!(holiday_name(2022, 6, 19), None);
    assert_eq!(holiday_name(2022, 6, 20).as_deref(), Some("Juneteenth (Observed)"));
    assert_eq!(holiday_name(2023, 1, 1), None);
    assert_eq!(holiday_name(2023, 1, 2).as_deref(), Some("New Year's Day (Observed)"));
}

#[test]
fn a_fixed_holiday_on_a_saturday_is_observed_on_monday_not_friday() {
    assert_eq!(holiday_name(2021, 12, 31), None);
    assert_eq!(holiday_name(2022, 1, 1), None);
    assert_eq!(holiday_name(2022, 1, 2), None);
    assert_eq!(holiday_name(2022, 1, 3).as_deref(), Some("New Year's Day (Observed)"));
    assert_eq!(holiday_name(2026, 7, 3), None);
    assert_eq!(holiday_name(2026, 7, 4), None);
    assert_eq!(holiday_name(2026, 7, 6).as_deref(), Some("Independence Day (Observed)"));
}

#[test]
fn good_friday_lies_two_days_before_easter() {
    assert!(is_nyse_holiday(2024, 3, 29));
    assert!(!is_nyse_holiday(2024, 3, 28));
    assert!(!is_nyse_holiday(2024, 3, 30));
    assert!(!is_nyse_holiday(2024, 3, 31));
    assert_eq!(holiday_name(2025, 4, 18).as_deref(), Some("Good Friday"));
    assert_eq!(holiday_name(2038, 4, 23).as_deref(), Some("Good Friday"));
    assert_eq!(holiday_name(1818, 3, 20).as_deref(), Some("Good Friday"));
}

#[test]
fn good_friday_must_be_given_as_a_friday() {
    assert_eq!(nyse_holiday_on(2024, 3, 29, 5).as_deref(), Some("Good Friday"));
    for weekday in [0u32, 1, 2, 3, 4, 6] {
        assert_eq!(nyse_holiday_on(2024, 3, 29, weekday), None);
    }
}

#[test]
fn each_kind_of_rule_is_applied() {
    let fixed = HolidayRule::FixedDate { month: 7, day: 4 };
    assert!(rule_applies(&fixed, 2024, 7, 4, 4));
    assert!(!rule_applies(&fixed, 2024, 7, 5, 5));
    assert!(!rule_applies(&fixed, 2024, 6, 4, 2));
    assert!(!rule_applies(&fixed, 2021, 7, 4, 0));
    assert!(rule_applies(&fixed, 2021, 7, 5, 1));
    let nth = HolidayRule::NthWeekdayOfMonth { month: 11, weekday: 4, n: 4 };
    assert!(rule_applies(&nth, 2024, 11, 28, 4));
    assert!(!rule_applies(&nth, 2024, 11, 21, 4));
    assert!(!rule_applies(&nth, 2024, 10, 28, 1));
    let last = HolidayRule::LastWeekdayOfMonth { month: 5, weekday: 1 };
    assert!(rule_applies(&last, 2024, 5, 27, 1));
    assert!(!rule_applies(&last, 2024, 5, 20, 1));
    let easter_monday = HolidayRule::EasterRelative { offset_days: 1 };
    assert!(rule_applies(&easter_monday, 2024, 4, 1, 1));
    assert!(!rule_applies(&easter_monday, 2024, 4, 1, 2));
    assert!(!rule_applies(&easter_monday, 2024, 3, 31, 0));
    let easter = HolidayRule::EasterRelative { offset_days: 0 };
    assert!(rule_applies(&easter, 2024, 3, 31, 0));
    let ascension = HolidayRule::EasterRelative { offset_days: 39 };
    assert!(rule_applies(&ascension, 2024, 5, 9, 4));
}

#[test]
fn a_moved_holiday_is_marked_as_observed() {
    let independence = nyse_holiday(6);
    assert_eq!(label_of(&independence, 2024), "Independence Day");
    assert_eq!(label_of(&independence, 2021), "Independence Day (Observed)");
    assert_eq!(label_of(&independence, 2026), "Independence Day (Observed)");
    let thanksgiving = nyse_holiday(8);
    assert_eq!(label_of(&thanksgiving, 2021), "Thanksgiving Day");
    let custom = Holiday { rule: HolidayRule::FixedDate { month: 1, day: 1 }, name: "First" };
    assert_eq!(label_of(&custom, 2022), "First (Observed)");
    assert_eq!(label_of(&custom, 2024), "First");
}

#[test]
fn holidays_fall_on_weekdays_and_one_to_a_day() {
    for year in 1990..=2060i64 {
        let mut count = 0;
        for month in 1..=12u32 {
            for day in 1..=days_in_month(year, month) {
                let weekday = day_of_week(days_since_epoch(year, month, day));
                let mut matching = 0;
                for index in 0..HOLIDAY_COUNT {
                    if rule_applies(&nyse_holiday(index).rule, year, month, day, weekday) {
                        matching += 1;
                    }
                }
                assert!(matching <= 1);
                if matching == 1 {
                    assert!(1 <= weekday && weekday <= 5);
                    count += 1;
                }
            }
        }
        assert_eq!(count, 10);
    }
}
