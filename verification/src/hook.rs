//! The hook on transfers: a transfer goes through while the exchange is
//! open, and is turned down with the reason while it is closed.

use crate::eastern::{convertible, eastern_time};
use crate::error::NyseError;
use crate::market::{
    get_nyse_market_state, lemma_open_in_trading_hours, market_state_at, MarketState,
    MarketStateView, MarketStatus,
};
use vstd::prelude::*;

verus! {

/// What the hook answers to a state of the exchange: it lets a transfer
/// through where the exchange is open, and else names the kind of closure.
/// A closed state of no kind of its own counts as outside trading hours.
pub open spec fn hook_decision(state: MarketStateView) -> Result<(), NyseError> {
    if state.is_open {
        Ok(())
    } else {
        match state.status {
            MarketStatus::Weekend => Err(NyseError::MarketClosedWeekend),
            MarketStatus::Holiday => Err(NyseError::MarketClosedHoliday),
            MarketStatus::AfterHours => Err(NyseError::MarketClosedAfterHours),
            MarketStatus::Open => Err(NyseError::MarketClosedAfterHours),
        }
    }
}

/// What the hook answers to a transfer made at `timestamp`, seconds since
/// the epoch in UTC: a timestamp that has no Eastern date is turned down.
pub open spec fn transfer_decision(timestamp: int) -> Result<(), NyseError> {
    if convertible(timestamp) {
        hook_decision(market_state_at(timestamp))
    } else {
        Err(NyseError::InvalidTimestamp)
    }
}

/// A transfer goes through at the timestamps at which the exchange is
/// open, and at no other: a timestamp that has no Eastern date is turned
/// down as any closed hour is, and each closure is told by its own error.
pub proof fn lemma_transfer_only_while_open(timestamp: int)
    ensures
        transfer_decision(timestamp) is Ok <==> convertible(timestamp) && market_state_at(
            timestamp,
        ).is_open,
        transfer_decision(timestamp) == Err::<(), NyseError>(NyseError::InvalidTimestamp)
            <==> !convertible(timestamp),
        transfer_decision(timestamp) == Err::<(), NyseError>(NyseError::MarketClosedWeekend)
            <==> convertible(timestamp) && market_state_at(timestamp).status
            == MarketStatus::Weekend,
        transfer_decision(timestamp) == Err::<(), NyseError>(NyseError::MarketClosedHoliday)
            <==> convertible(timestamp) && market_state_at(timestamp).status
            == MarketStatus::Holiday,
        transfer_decision(timestamp) == Err::<(), NyseError>(
            NyseError::MarketClosedAfterHours,
        ) <==> convertible(timestamp) && market_state_at(timestamp).status
            == MarketStatus::AfterHours,
{
    lemma_open_in_trading_hours(eastern_time(timestamp));
}

/// Lets a transfer through or turns it down, by the state of the exchange.
pub fn authorize(state: &MarketState) -> (decision: Result<(), NyseError>)
    ensures
        decision == hook_decision(state@),
{
    if state.is_open {
        Ok(())
    } else {
        match state.status {
            MarketStatus::Weekend => Err(NyseError::MarketClosedWeekend),
            MarketStatus::Holiday => Err(NyseError::MarketClosedHoliday),
            MarketStatus::AfterHours => Err(NyseError::MarketClosedAfterHours),
            MarketStatus::Open => Err(NyseError::MarketClosedAfterHours),
        }
    }
}

/// Decides on a transfer of `amount` tokens made at `current_timestamp`,
/// seconds since the epoch in UTC. The amount has no part in the decision.
pub fn transfer_hook(current_timestamp: i64, amount: u64) -> (decision: Result<(), NyseError>)
    ensures
        decision == transfer_decision(current_timestamp as int),
{
    match get_nyse_market_state(current_timestamp) {
        Ok(state) => authorize(&state),
        Err(error) => Err(error),
    }
}

} // verus!
