//! The instructions of the transfer-hook interface, and what the program
//! does with each as it arrives at its fallback entry point.

use crate::error::InvalidInstruction;
use spl_transfer_hook_interface::instruction::TransferHookInstruction;
use spl_transfer_hook_interface::solana_program_error::ProgramError;
use vstd::bytes::spec_u64_from_le_bytes;
use vstd::prelude::*;

verus! {

/// An instruction of the transfer-hook interface, without the account
/// lists that two of them carry.
#[derive(Clone, Copy, Debug, PartialEq, Eq, Structural)]
pub enum HookInstruction {
    /// Run the hook on a transfer of `amount` tokens.
    Execute { amount: u64 },
    /// Write the list of extra accounts.
    InitializeExtraAccountMetaList,
    /// Replace the list of extra accounts.
    UpdateExtraAccountMetaList,
}

/// What the fallback entry point has the program do.
#[derive(Clone, Copy, Debug, PartialEq, Eq, Structural)]
pub enum FallbackAction {
    /// Run the transfer hook on a transfer of `amount` tokens.
    RunTransferHook { amount: u64 },
    /// Do nothing, and report success.
    Nothing,
}

/// The instruction that `TransferHookInstruction::unpack` of the
/// transfer-hook interface reads from `data`; `None` where it reports an
/// error.
pub uninterp spec fn unpacked_instruction(data: Seq<u8>) -> Option<HookInstruction>;

/// Calls `TransferHookInstruction::unpack` on `data`, and keeps of the
/// instruction its kind and, of `Execute`, the amount. The outcome is
/// `unpacked_instruction(data@)`. As the interface's source has it: fewer
/// than the eight bytes of a discriminator are an error, and the amount of
/// an `Execute` is the 64-bit little-endian number in the eight bytes after
/// the discriminator.
#[verifier::external_body]
fn unpack_instruction(data: &[u8]) -> (result: Result<HookInstruction, ProgramError>)
    ensures
        match result {
            Ok(instruction) => unpacked_instruction(data@) == Some(instruction),
            Err(_) => unpacked_instruction(data@) is None,
        },
        data@.len() < 8 ==> result is Err,
        result matches Ok(HookInstruction::Execute { amount }) ==> data@.len() >= 16 && amount
            == spec_u64_from_le_bytes(data@.subrange(8, 16)),
{
    match TransferHookInstruction::unpack(data) {
        Ok(TransferHookInstruction::Execute { amount }) => Ok(HookInstruction::Execute { amount }),
        Ok(TransferHookInstruction::InitializeExtraAccountMetaList { .. }) => Ok(
            HookInstruction::InitializeExtraAccountMetaList,
        ),
        Ok(TransferHookInstruction::UpdateExtraAccountMetaList { .. }) => Ok(
            HookInstruction::UpdateExtraAccountMetaList,
        ),
        Err(error) => Err(error),
    }
}

/// What the program does with `instruction`: it runs the transfer hook on
/// an `Execute`, and nothing on any other.
pub open spec fn action_for(instruction: HookInstruction) -> FallbackAction {
    match instruction {
        HookInstruction::Execute { amount } => FallbackAction::RunTransferHook { amount },
        _ => FallbackAction::Nothing,
    }
}

/// What the program does with `instruction`.
pub fn route(instruction: HookInstruction) -> (action: FallbackAction)
    ensures
        action == action_for(instruction),
{
    match instruction {
        HookInstruction::Execute { amount } => FallbackAction::RunTransferHook { amount },
        HookInstruction::InitializeExtraAccountMetaList => FallbackAction::Nothing,
        HookInstruction::UpdateExtraAccountMetaList => FallbackAction::Nothing,
    }
}

/// What the program does with the instruction data `data` that arrives at
/// its fallback entry point: the action for the instruction that the data
/// holds, and an error where it holds none.
pub fn fallback(data: &[u8]) -> (result: Result<FallbackAction, InvalidInstruction>)
    ensures
        match result {
            Ok(action) => unpacked_instruction(data@) matches Some(instruction) && action
                == action_for(instruction),
            Err(_) => unpacked_instruction(data@) is None,
        },
        data@.len() < 8 ==> result is Err,
        result matches Ok(FallbackAction::RunTransferHook { amount }) ==> data@.len() >= 16
            && amount == spec_u64_from_le_bytes(data@.subrange(8, 16)),
{
    match unpack_instruction(data) {
        Ok(instruction) => Ok(route(instruction)),
        Err(cause) => Err(InvalidInstruction { cause }),
    }
}

} // verus!
