//! Conversion of a UTC timestamp to civil time in the US Eastern zone.
//!
//! Daylight saving time is decided by the day: it is in effect from the
//! second Sunday of March up to, and not including, the first Sunday of
//! November, on the date that the standard offset gives. The hours between
//! midnight and the switch on those two Sundays are thus given the offset
//! of the rest of the day.

use crate::arith::{div_floor, mod_floor};
use crate::calendar::{
    civil_from_days, date_from_days_since_epoch, day_number, lemma_civil_from_days,
    lemma_first_weekday_day, lemma_year_bounded_by_day_number, nth_weekday_day,
    nth_weekday_of_month, valid_date, weekday_of, YEAR_LIMIT,
};
use vstd::arithmetic::div_mod::{lemma_fundamental_div_mod, lemma_mod_mod};
use vstd::prelude::*;

verus! {

/// Seconds in a day.
pub const SECONDS_PER_DAY: i64 = 86400;

/// Seconds that Eastern Standard Time lies behind UTC.
pub const STANDARD_OFFSET: i64 = 18000;

/// Seconds that Eastern Daylight Time lies behind UTC.
pub const DAYLIGHT_OFFSET: i64 = 14400;

/// A moment of Eastern civil time.
#[derive(Clone, Copy, Debug, PartialEq, Eq)]
pub struct EasternTimeInfo {
    pub year: i64,
    pub month: u32,
    pub day: u32,
    pub hour: u32,
    pub minute: u32,
    pub second: u32,
    /// 0 is Sunday, 6 is Saturday.
    pub weekday: u32,
    pub is_dst: bool,
}

/// What an `EasternTimeInfo` stands for.
pub struct EasternTime {
    pub year: int,
    pub month: int,
    pub day: int,
    pub hour: int,
    pub minute: int,
    pub second: int,
    pub weekday: int,
    pub is_dst: bool,
}

impl View for EasternTimeInfo {
    type V = EasternTime;

    open spec fn view(&self) -> EasternTime {
        EasternTime {
            year: self.year as int,
            month: self.month as int,
            day: self.day as int,
            hour: self.hour as int,
            minute: self.minute as int,
            second: self.second as int,
            weekday: self.weekday as int,
            is_dst: self.is_dst,
        }
    }
}

impl EasternTime {
    /// A day of the calendar, a weekday and a time of day.
    pub open spec fn wf(self) -> bool {
        &&& valid_date(self.year, self.month, self.day)
        &&& 0 <= self.weekday <= 6
        &&& 0 <= self.hour < 24
        &&& 0 <= self.minute < 60
        &&& 0 <= self.second < 60
    }

    /// Whether the weekday is the one on which the date falls.
    pub open spec fn weekday_is_own(self) -> bool {
        self.weekday == weekday_of(day_number(self.year, self.month, self.day))
    }

    /// Seconds from the epoch to this moment, on a clock that shows
    /// Eastern time.
    pub open spec fn local_seconds(self) -> int {
        day_number(self.year, self.month, self.day) * SECONDS_PER_DAY + self.hour * 3600
            + self.minute * 60 + self.second
    }
}

impl EasternTimeInfo {
    /// A well-formed time, in a year whose day numbers can be computed.
    pub open spec fn wf(&self) -> bool {
        self@.wf() && -YEAR_LIMIT <= self.year <= YEAR_LIMIT
    }
}

/// Whether daylight saving time is in effect on the date `(year, month,
/// day)`: from the second Sunday of March up to, and not including, the
/// first Sunday of November.
pub open spec fn dst_on(year: int, month: int, day: int) -> bool {
    if month < 3 || month > 11 {
        false
    } else if 3 < month < 11 {
        true
    } else if month == 3 {
        day >= nth_weekday_day(year, 3, 0, 2)
    } else {
        day < nth_weekday_day(year, 11, 0, 1)
    }
}

/// Whether a timestamp can be converted: taking the standard offset off it
/// stays within 64 bits.
pub open spec fn convertible(timestamp: int) -> bool {
    i64::MIN + STANDARD_OFFSET <= timestamp <= i64::MAX
}

/// Whether daylight saving time is in effect at `timestamp`, seconds since
/// the epoch in UTC: decided on the Eastern date that the standard offset
/// gives.
pub open spec fn dst_at(timestamp: int) -> bool {
    let date = civil_from_days((timestamp - STANDARD_OFFSET) / SECONDS_PER_DAY as int);
    dst_on(date.0, date.1, date.2)
}

/// Eastern civil time at `timestamp`, seconds since the epoch in UTC.
pub open spec fn eastern_time(timestamp: int) -> EasternTime {
    let local = if dst_at(timestamp) {
        timestamp - DAYLIGHT_OFFSET
    } else {
        timestamp - STANDARD_OFFSET
    };
    let days = local / SECONDS_PER_DAY as int;
    let seconds = local % SECONDS_PER_DAY as int;
    let date = civil_from_days(days);
    EasternTime {
        year: date.0,
        month: date.1,
        day: date.2,
        hour: seconds / 3600,
        minute: (seconds % 3600) / 60,
        second: seconds % 60,
        weekday: weekday_of(days),
        is_dst: dst_at(timestamp),
    }
}

/// The Eastern time of a timestamp is a well-formed moment with the
/// weekday of its date, and lies behind UTC by the offset in effect: four
/// hours in daylight saving time, five hours out of it.
pub proof fn lemma_eastern_time(timestamp: int)
    ensures
        eastern_time(timestamp).wf(),
        eastern_time(timestamp).weekday_is_own(),
        eastern_time(timestamp).is_dst == dst_at(timestamp),
        eastern_time(timestamp).local_seconds() == timestamp - if dst_at(timestamp) {
            DAYLIGHT_OFFSET
        } else {
            STANDARD_OFFSET
        },
{
    let local = if dst_at(timestamp) {
        timestamp - DAYLIGHT_OFFSET
    } else {
        timestamp - STANDARD_OFFSET
    };
    let days = local / 86400;
    let seconds = local % 86400;
    lemma_civil_from_days(days);
    lemma_fundamental_div_mod(local, 86400);
    lemma_fundamental_div_mod(seconds, 3600);
    lemma_fundamental_div_mod(seconds % 3600, 60);
    lemma_mod_mod(seconds, 60, 60);
    assert(seconds % 60 == (seconds % 3600) % 60);
    assert(0 <= seconds / 3600 < 24);
}

/// Daylight saving time begins on a Sunday from 8 to 14 March, and ends
/// with a Sunday from 1 to 7 November.
pub proof fn lemma_dst_boundaries(year: int)
    ensures
        8 <= nth_weekday_day(year, 3, 0, 2) <= 14,
        weekday_of(day_number(year, 3, nth_weekday_day(year, 3, 0, 2))) == 0,
        1 <= nth_weekday_day(year, 11, 0, 1) <= 7,
        weekday_of(day_number(year, 11, nth_weekday_day(year, 11, 0, 1))) == 0,
{
    lemma_first_weekday_day(year, 3, 0, nth_weekday_day(year, 3, 0, 2));
    lemma_first_weekday_day(year, 11, 0, nth_weekday_day(year, 11, 0, 1));
}

/// Whether daylight saving time is in effect on `(year, month, day)`.
pub fn is_dst_on(year: i64, month: u32, day: u32) -> (dst: bool)
    requires
        -YEAR_LIMIT <= year <= YEAR_LIMIT,
    ensures
        dst == dst_on(year as int, month as int, day as int),
{
    if month < 3 || month > 11 {
        false
    } else if month > 3 && month < 11 {
        true
    } else if month == 3 {
        day >= nth_weekday_of_month(year, 3, 0, 2)
    } else {
        day < nth_weekday_of_month(year, 11, 0, 1)
    }
}

/// Splits a count of seconds since the epoch into the date and the weekday
/// of its day, and the seconds that have passed of that day.
fn split_seconds(local: i64) -> (parts: (i64, u32, u32, u32, i64))
    ensures
        (parts.0 as int, parts.1 as int, parts.2 as int) == civil_from_days(
            local as int / SECONDS_PER_DAY as int,
        ),
        valid_date(parts.0 as int, parts.1 as int, parts.2 as int),
        day_number(parts.0 as int, parts.1 as int, parts.2 as int) == local as int
            / SECONDS_PER_DAY as int,
        parts.3 == weekday_of(local as int / SECONDS_PER_DAY as int),
        parts.4 == local as int % SECONDS_PER_DAY as int,
        -YEAR_LIMIT <= parts.0 <= YEAR_LIMIT,
{
    let days: i64 = div_floor(local, SECONDS_PER_DAY);
    let seconds: i64 = mod_floor(local, SECONDS_PER_DAY);
    let date: (i64, u32, u32, u32) = date_from_days_since_epoch(days);
    proof {
        lemma_year_bounded_by_day_number(date.0 as int, date.1 as int, date.2 as int);
    }
    (date.0, date.1, date.2, date.3, seconds)
}

/// Whether daylight saving time is in effect in the Eastern zone at
/// `utc_timestamp`, seconds since the epoch.
pub fn is_daylight_saving_time(utc_timestamp: i64) -> (dst: bool)
    requires
        convertible(utc_timestamp as int),
    ensures
        dst == dst_at(utc_timestamp as int),
{
    let parts: (i64, u32, u32, u32, i64) = split_seconds(utc_timestamp - STANDARD_OFFSET);
    is_dst_on(parts.0, parts.1, parts.2)
}

/// Eastern civil time at `utc_timestamp`, seconds since the epoch.
pub fn get_eastern_time_info(utc_timestamp: i64) -> (info: EasternTimeInfo)
    requires
        convertible(utc_timestamp as int),
    ensures
        info@ == eastern_time(utc_timestamp as int),
        info.wf(),
        info@.weekday_is_own(),
{
    proof {
        lemma_eastern_time(utc_timestamp as int);
    }
    let is_dst: bool = is_daylight_saving_time(utc_timestamp);
    let offset: i64 = if is_dst {
        DAYLIGHT_OFFSET
    } else {
        STANDARD_OFFSET
    };
    let parts: (i64, u32, u32, u32, i64) = split_seconds(utc_timestamp - offset);
    let seconds: i64 = parts.4;
    EasternTimeInfo {
        year: parts.0,
        month: parts.1,
        day: parts.2,
        hour: (seconds / 3600) as u32,
        minute: ((seconds % 3600) / 60) as u32,
        second: (seconds % 60) as u32,
        weekday: parts.3,
        is_dst,
    }
}

} // verus!
