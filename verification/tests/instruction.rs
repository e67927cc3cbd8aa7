use nyse_token_hook::error::InvalidInstruction;
use nyse_token_hook::instruction::{fallback, route, FallbackAction, HookInstruction};
use spl_transfer_hook_interface::instruction::TransferHookInstruction;
use spl_transfer_hook_interface::solana_program_error::ProgramError;

fn execute(amount: u64) -> Vec<u8> {
    TransferHookInstruction::Execute { amount }.pack()
}

#[test]
fn an_execute_instruction_runs_the_transfer_hook() {
    assert_eq!(fallback(&execute(42)).ok(), Some(FallbackAction::RunTransferHook { amount: 42 }));
    assert_eq!(fallback(&execute(0)).ok(), Some(FallbackAction::RunTransferHook { amount: 0 }));
    assert_eq!(
        fallback(&execute(u64::MAX)).ok(),
        Some(FallbackAction::RunTransferHook { amount: u64::MAX })
    );
}

#[test]
fn the_amount_is_read_little_endian_after_the_discriminator() {
    let mut data = execute(0)[..8].to_vec();
    data.extend_from_slice(&[0x01, 0x02, 0x03, 0x04, 0x05, 0x06, 0x07, 0x08]);
    assert_eq!(
        fallback(&data).ok(),
        Some(FallbackAction::RunTransferHook { amount: 0x0807060504030201 })
    );
    data.extend_from_slice(&[0xff, 0xff, 0xff]);
    assert_eq!(
        fallback(&data).ok(),
        Some(FallbackAction::RunTransferHook { amount: 0x0807060504030201 })
    );
}

#[test]
fn the_other_instructions_do_nothing() {
    let initialize =
        TransferHookInstruction::InitializeExtraAccountMetaList { extra_account_metas: vec![] };
    assert_eq!(fallback(&initialize.pack()).ok(), Some(FallbackAction::Nothing));
    let update =
        TransferHookInstruction::UpdateExtraAccountMetaList { extra_account_metas: vec![] };
    assert_eq!(fallback(&update.pack()).ok(), Some(FallbackAction::Nothing));
}

#[test]
fn data_without_an_instruction_is_an_error() {
    for data in [
        vec![],
        vec![1, 2, 3],
        vec![0; 8],
        vec![0; 16],
        vec![0xab; 24],
        execute(7)[..8].to_vec(),
        execute(7)[..15].to_vec(),
    ] {
        assert!(matches!(
            fallback(&data),
            Err(InvalidInstruction { cause: ProgramError::InvalidInstructionData })
        ));
    }
}

#[test]
fn each_instruction_has_its_action() {
    assert_eq!(
        route(HookInstruction::Execute { amount: 9 }),
        FallbackAction::RunTransferHook { amount: 9 }
    );
    assert_eq!(route(HookInstruction::InitializeExtraAccountMetaList), FallbackAction::Nothing);
    assert_eq!(route(HookInstruction::UpdateExtraAccountMetaList), FallbackAction::Nothing);
}
