//! Trading hours of the New York Stock Exchange, and a transfer hook that
//! lets transfers through only while the exchange is open.
//!
//! `calendar` counts days and finds dates and weekdays; `eastern` turns a
//! UTC timestamp into Eastern civil time; `holidays` holds the exchange's
//! holiday calendar; `market` decides from these whether the exchange is
//! open; `hook` lets a transfer through or turns it down. `instruction` and
//! `meta_list` handle the data of the transfer-hook interface.

pub mod arith;
pub mod calendar;
pub mod eastern;
pub mod error;
pub mod holidays;
pub mod hook;
pub mod instruction;
pub mod market;
pub mod meta_list;

pub use error::{InvalidInstruction, MetaListError, NyseError};
pub use hook::transfer_hook;
pub use instruction::{fallback, FallbackAction};
pub use market::{compute_market_state, get_nyse_market_state, MarketState, MarketStatus};
pub use meta_list::initialize_extra_account_meta_list;
