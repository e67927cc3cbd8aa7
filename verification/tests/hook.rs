use nyse_token_hook::error::NyseError;
use nyse_token_hook::hook::{authorize, transfer_hook};
use nyse_token_hook::market::{get_nyse_market_state, MarketState, MarketStatus};

fn state(is_open: bool, status: MarketStatus) -> MarketState {
    MarketState { is_open, status, reason: String::new() }
}

#[test]
fn an_open_market_lets_the_transfer_through() {
    assert_eq!(transfer_hook(1720454400, 100), Ok(()));
    assert_eq!(transfer_hook(1718026200, 1), Ok(()));
    assert_eq!(transfer_hook(1718049599, u64::MAX), Ok(()));
}

#[test]
fn a_closed_market_turns_the_transfer_down_with_the_reason() {
    assert_eq!(transfer_hook(1625414400, 100), Err(NyseError::MarketClosedWeekend));
    assert_eq!(transfer_hook(1641056400, 100), Err(NyseError::MarketClosedWeekend));
    assert_eq!(transfer_hook(1720108800, 100), Err(NyseError::MarketClosedHoliday));
    assert_eq!(transfer_hook(1625500800, 100), Err(NyseError::MarketClosedHoliday));
    assert_eq!(transfer_hook(1718026199, 100), Err(NyseError::MarketClosedAfterHours));
    assert_eq!(transfer_hook(1718049600, 100), Err(NyseError::MarketClosedAfterHours));
}

#[test]
fn a_timestamp_out_of_range_turns_the_transfer_down() {
    assert_eq!(transfer_hook(i64::MIN, 100), Err(NyseError::InvalidTimestamp));
    assert_eq!(transfer_hook(i64::MIN + 17999, 0), Err(NyseError::InvalidTimestamp));
}

#[test]
fn the_amount_has_no_part_in_the_decision() {
    for &timestamp in &[1720454400i64, 1625414400, 1720108800, 1718049600, i64::MIN] {
        let decision = transfer_hook(timestamp, 0);
        for &amount in &[1u64, 1_000_000, u64::MAX] {
            assert_eq!(transfer_hook(timestamp, amount), decision);
        }
    }
}

#[test]
fn the_decision_goes_by_the_state() {
    assert_eq!(authorize(&state(true, MarketStatus::Open)), Ok(()));
    assert_eq!(
        authorize(&state(false, MarketStatus::Weekend)),
        Err(NyseError::MarketClosedWeekend)
    );
    assert_eq!(
        authorize(&state(false, MarketStatus::Holiday)),
        Err(NyseError::MarketClosedHoliday)
    );
    assert_eq!(
        authorize(&state(false, MarketStatus::AfterHours)),
        Err(NyseError::MarketClosedAfterHours)
    );
}

#[test]
fn a_closed_state_of_no_kind_counts_as_after_hours() {
    assert_eq!(
        authorize(&state(false, MarketStatus::Open)),
        Err(NyseError::MarketClosedAfterHours)
    );
    assert_eq!(authorize(&state(true, MarketStatus::Weekend)), Ok(()));
}

#[test]
fn errors_have_their_messages() {
    assert_eq!(
        NyseError::MarketClosedWeekend.message(),
        "🚫 NYSE CLOSED: Market is closed for weekend"
    );
    assert_eq!(
        NyseError::MarketClosedHoliday.message(),
        "🚫 NYSE CLOSED: Market is closed for holiday"
    );
    assert_eq!(
        NyseError::MarketClosedAfterHours.message(),
        "🚫 NYSE CLOSED: Market is closed after hours"
    );
    assert_eq!(NyseError::InvalidTimestamp.message(), "Invalid timestamp");
}

#[test]
fn a_transfer_goes_through_only_while_the_exchange_is_open() {
    // Every half hour of 2024, from midnight of 1 January in Eastern time.
    let mut timestamp = 1704085200i64;
    let mut open = 0;
    while timestamp < 1735707600 {
        let state = get_nyse_market_state(timestamp).expect("a timestamp within range");
        let decision = transfer_hook(timestamp, 1);
        assert_eq!(decision.is_ok(), state.is_open);
        assert_eq!(state.is_open, state.status == MarketStatus::Open);
        let expected = match state.status {
            MarketStatus::Open => Ok(()),
            MarketStatus::Weekend => Err(NyseError::MarketClosedWeekend),
            MarketStatus::Holiday => Err(NyseError::MarketClosedHoliday),
            MarketStatus::AfterHours => Err(NyseError::MarketClosedAfterHours),
        };
        assert_eq!(decision, expected);
        if state.is_open {
            open += 1;
        }
        timestamp += 1800;
    }
    // 252 trading days of thirteen half hours each, from 9:30 to 15:30.
    assert_eq!(open, 252 * 13);
}
