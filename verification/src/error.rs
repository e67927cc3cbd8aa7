//! The reasons for which a transfer is turned down, and the failures of
//! the transfer-hook interface.

use spl_transfer_hook_interface::solana_program_error::ProgramError;
use vstd::prelude::*;

verus! {

/// The error type of Solana programs, `solana_program_error::ProgramError`,
/// carried through as it comes: nothing is known of a value of it here.
#[verifier::external_type_specification]
#[verifier::external_body]
pub struct ExProgramError(ProgramError);

/// Instruction data that holds no instruction of the transfer-hook
/// interface, with the interface's error, which says why.
#[derive(Debug)]
pub struct InvalidInstruction {
    pub cause: ProgramError,
}

/// Why the list of extra accounts was not written.
#[derive(Debug)]
pub enum MetaListError {
    /// The account data is no sequence of type-length-value entries.
    MalformedAccountData,
    /// The list could not be written to the account data; the interface's
    /// error says why.
    InitializationFailed(ProgramError),
}

/// Why a transfer was not let through.
#[derive(Clone, Copy, Debug, PartialEq, Eq, Structural)]
pub enum NyseError {
    /// The exchange is closed for the weekend.
    MarketClosedWeekend,
    /// The exchange is closed for a holiday.
    MarketClosedHoliday,
    /// The exchange is closed outside trading hours.
    MarketClosedAfterHours,
    /// The timestamp cannot be turned into a calendar date.
    InvalidTimestamp,
}

impl NyseError {
    /// The text of each error.
    pub open spec fn message_text(self) -> Seq<char> {
        match self {
            NyseError::MarketClosedWeekend => "🚫 NYSE CLOSED: Market is closed for weekend"@,
            NyseError::MarketClosedHoliday => "🚫 NYSE CLOSED: Market is closed for holiday"@,
            NyseError::MarketClosedAfterHours => "🚫 NYSE CLOSED: Market is closed after hours"@,
            NyseError::InvalidTimestamp => "Invalid timestamp"@,
        }
    }

    /// The message that goes with the error.
    pub fn message(&self) -> (text: &'static str)
        ensures
            text@ == self.message_text(),
    {
        match self {
            NyseError::MarketClosedWeekend => "🚫 NYSE CLOSED: Market is closed for weekend",
            NyseError::MarketClosedHoliday => "🚫 NYSE CLOSED: Market is closed for holiday",
            NyseError::MarketClosedAfterHours => "🚫 NYSE CLOSED: Market is closed after hours",
            NyseError::InvalidTimestamp => "Invalid timestamp",
        }
    }
}

} // verus!
