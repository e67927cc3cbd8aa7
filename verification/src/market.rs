//! The market-hours policy: from a moment of Eastern civil time, or from a
//! UTC timestamp, to the state of the exchange.
//!
//! The exchange trades from Monday to Friday, holidays excepted, from 9:30
//! to 16:00 Eastern time. A weekend is reported before a holiday, and a
//! holiday before the time of day.

use crate::eastern::{
    convertible, eastern_time, get_eastern_time_info, EasternTime, EasternTimeInfo,
    STANDARD_OFFSET,
};
use crate::error::NyseError;
use crate::holidays::{holiday_on, lemma_holidays_fall_on_weekdays, nyse_holiday_on};
use vstd::prelude::*;

verus! {

/// Minute of the day at which trading opens: 9:30.
pub const OPENING_MINUTE: u32 = 570;

/// Minute of the day at which trading closes: 16:00.
pub const CLOSING_MINUTE: u32 = 960;

/// The state of the exchange, by kind.
#[derive(Clone, Copy, Debug, PartialEq, Eq, Structural)]
pub enum MarketStatus {
    Open,
    Weekend,
    Holiday,
    AfterHours,
}

impl MarketStatus {
    /// The tag of each status.
    pub open spec fn tag(self) -> Seq<char> {
        match self {
            MarketStatus::Open => "OPEN"@,
            MarketStatus::Weekend => "WEEKEND"@,
            MarketStatus::Holiday => "HOLIDAY"@,
            MarketStatus::AfterHours => "AFTER_HOURS"@,
        }
    }

    /// The status as an upper-case tag.
    pub fn as_str(&self) -> (text: &'static str)
        ensures
            text@ == self.tag(),
    {
        match self {
            MarketStatus::Open => "OPEN",
            MarketStatus::Weekend => "WEEKEND",
            MarketStatus::Holiday => "HOLIDAY",
            MarketStatus::AfterHours => "AFTER_HOURS",
        }
    }
}

/// The state of the exchange at some moment, with the reason in words.
#[derive(Debug)]
pub struct MarketState {
    pub is_open: bool,
    pub status: MarketStatus,
    pub reason: String,
}

/// What a `MarketState` stands for.
pub struct MarketStateView {
    pub is_open: bool,
    pub status: MarketStatus,
    pub reason: Seq<char>,
}

impl View for MarketState {
    type V = MarketStateView;

    open spec fn view(&self) -> MarketStateView {
        MarketStateView { is_open: self.is_open, status: self.status, reason: self.reason@ }
    }
}

/// The state of the exchange at the Eastern civil time `time`.
pub open spec fn market_state_of(time: EasternTime) -> MarketStateView {
    if time.weekday == 0 || time.weekday == 6 {
        MarketStateView { is_open: false, status: MarketStatus::Weekend, reason: "Weekend"@ }
    } else if let Some(name) = holiday_on(time.year, time.month, time.day, time.weekday) {
        MarketStateView { is_open: false, status: MarketStatus::Holiday, reason: name }
    } else {
        let minute_of_day = time.hour * 60 + time.minute;
        if OPENING_MINUTE <= minute_of_day < CLOSING_MINUTE {
            MarketStateView {
                is_open: true,
                status: MarketStatus::Open,
                reason: "Regular Trading Hours"@,
            }
        } else if minute_of_day < OPENING_MINUTE {
            MarketStateView {
                is_open: false,
                status: MarketStatus::AfterHours,
                reason: "Pre-Market (outside 9:30 AM - 4:00 PM ET)"@,
            }
        } else {
            MarketStateView {
                is_open: false,
                status: MarketStatus::AfterHours,
                reason: "After-Market (outside 9:30 AM - 4:00 PM ET)"@,
            }
        }
    }
}

/// The state of the exchange at `timestamp`, seconds since the epoch in
/// UTC.
pub open spec fn market_state_at(timestamp: int) -> MarketStateView {
    market_state_of(eastern_time(timestamp))
}

/// A weekend is reported before a holiday: on a Saturday or a Sunday the
/// exchange is closed for the weekend whatever the holiday calendar says of
/// the date, so a fixed holiday that falls on a weekend is never reported
/// as a holiday.
pub proof fn lemma_weekend_before_holiday(time: EasternTime)
    requires
        time.weekday == 0 || time.weekday == 6,
    ensures
        market_state_of(time).status == MarketStatus::Weekend,
        !market_state_of(time).is_open,
        market_state_of(time).reason == "Weekend"@,
{
}

/// A holiday is reported before the time of day: from Monday to Friday,
/// the status is `Holiday` on the days of the holiday calendar, at any
/// hour, and on no other day.
pub proof fn lemma_holiday_before_hours(time: EasternTime)
    requires
        1 <= time.weekday <= 5,
    ensures
        market_state_of(time).status == MarketStatus::Holiday <==> holiday_on(
            time.year,
            time.month,
            time.day,
            time.weekday,
        ) is Some,
        market_state_of(time).status != MarketStatus::Weekend,
{
}

/// The exchange is open in the one status `Open`: on a day that is
/// neither a weekend nor a holiday, from the opening minute up to the
/// closing minute.
pub proof fn lemma_open_in_trading_hours(time: EasternTime)
    ensures
        market_state_of(time).is_open <==> market_state_of(time).status == MarketStatus::Open,
        market_state_of(time).is_open <==> {
            &&& time.weekday != 0
            &&& time.weekday != 6
            &&& holiday_on(time.year, time.month, time.day, time.weekday) is None
            &&& OPENING_MINUTE <= time.hour * 60 + time.minute < CLOSING_MINUTE
        },
{
}

/// No holiday is hidden by a weekend: the holiday calendar holds days from
/// Monday to Friday alone, so a date that is a holiday, taken with its own
/// weekday, has the status `Holiday`.
pub proof fn lemma_holidays_are_told(time: EasternTime)
    requires
        time.weekday_is_own(),
    ensures
        holiday_on(time.year, time.month, time.day, time.weekday) is Some ==> market_state_of(
            time,
        ).status == MarketStatus::Holiday,
{
    if holiday_on(time.year, time.month, time.day, time.weekday) is Some {
        lemma_holidays_fall_on_weekdays(time.year, time.month, time.day);
    }
}

/// The state of the exchange at the Eastern civil time `time`.
pub fn classify(time: &EasternTimeInfo) -> (state: MarketState)
    requires
        time.wf(),
    ensures
        state@ == market_state_of(time@),
{
    if time.weekday == 0 || time.weekday == 6 {
        return MarketState {
            is_open: false,
            status: MarketStatus::Weekend,
            reason: String::from_str("Weekend"),
        };
    }
    match nyse_holiday_on(time.year, time.month, time.day, time.weekday) {
        Some(name) => {
            return MarketState { is_open: false, status: MarketStatus::Holiday, reason: name };
        },
        None => {},
    }
    let minute_of_day: u32 = time.hour * 60 + time.minute;
    if OPENING_MINUTE <= minute_of_day && minute_of_day < CLOSING_MINUTE {
        MarketState {
            is_open: true,
            status: MarketStatus::Open,
            reason: String::from_str("Regular Trading Hours"),
        }
    } else if minute_of_day < OPENING_MINUTE {
        MarketState {
            is_open: false,
            status: MarketStatus::AfterHours,
            reason: String::from_str("Pre-Market (outside 9:30 AM - 4:00 PM ET)"),
        }
    } else {
        MarketState {
            is_open: false,
            status: MarketStatus::AfterHours,
            reason: String::from_str("After-Market (outside 9:30 AM - 4:00 PM ET)"),
        }
    }
}

/// The state of the exchange at `timestamp`, seconds since the epoch in
/// UTC.
pub fn compute_market_state(timestamp: i64) -> (state: MarketState)
    requires
        convertible(timestamp as int),
    ensures
        state@ == market_state_at(timestamp as int),
{
    let time: EasternTimeInfo = get_eastern_time_info(timestamp);
    classify(&time)
}

/// The state of the exchange at `timestamp`, seconds since the epoch in
/// UTC; an error for a timestamp so early that it has no Eastern date
/// within 64 bits.
pub fn get_nyse_market_state(timestamp: i64) -> (result: Result<MarketState, NyseError>)
    ensures
        match result {
            Ok(state) => convertible(timestamp as int) && state@ == market_state_at(
                timestamp as int,
            ),
            Err(error) => !convertible(timestamp as int) && error
                == NyseError::InvalidTimestamp,
        },
{
    if timestamp < i64::MIN + STANDARD_OFFSET {
        Err(NyseError::InvalidTimestamp)
    } else {
        Ok(compute_market_state(timestamp))
    }
}

} // verus!
