use nyse_token_hook::error::MetaListError;
use nyse_token_hook::meta_list::initialize_extra_account_meta_list;
use spl_tlv_account_resolution::state::ExtraAccountMetaList;
use spl_transfer_hook_interface::instruction::{ExecuteInstruction, TransferHookInstruction};
use spl_transfer_hook_interface::solana_program_error::ProgramError;

fn execute_discriminator() -> Vec<u8> {
    TransferHookInstruction::Execute { amount: 0 }.pack()[..8].to_vec()
}

fn empty_list() -> Vec<u8> {
    let mut data = execute_discriminator();
    data.extend_from_slice(&[4, 0, 0, 0]);
    data.extend_from_slice(&[0, 0, 0, 0]);
    data
}

#[test]
fn a_fresh_account_gets_the_empty_list() {
    let size = ExtraAccountMetaList::size_of(0).expect("the size of an empty list");
    assert_eq!(size, 16);
    let mut data = vec![0u8; size];
    assert!(initialize_extra_account_meta_list(&mut data).is_ok());
    assert_eq!(data, empty_list());
}

#[test]
fn the_list_is_written_as_the_interface_writes_it() {
    for size in [16usize, 17, 32, 100] {
        let mut data = vec![0u8; size];
        let mut expected = vec![0u8; size];
        ExtraAccountMetaList::init::<ExecuteInstruction>(&mut expected, &[])
            .expect("room for an empty list");
        assert!(initialize_extra_account_meta_list(&mut data).is_ok());
        assert_eq!(data, expected);
        assert_eq!(data[..16], empty_list()[..]);
        assert!(data[16..].iter().all(|&byte| byte == 0));
    }
}

#[test]
fn an_account_too_small_for_the_list_is_an_error() {
    for size in [0usize, 1, 7, 8, 11, 12, 15] {
        let mut data = vec![0u8; size];
        assert!(matches!(
            initialize_extra_account_meta_list(&mut data),
            Err(MetaListError::InitializationFailed(ProgramError::InvalidAccountData))
        ));
        assert_eq!(data.len(), size);
    }
}

#[test]
fn a_list_is_not_written_twice() {
    let mut data = vec![0u8; 40];
    assert!(initialize_extra_account_meta_list(&mut data).is_ok());
    let written = data.clone();
    assert!(matches!(
        initialize_extra_account_meta_list(&mut data),
        Err(MetaListError::InitializationFailed(ProgramError::Custom(_)))
    ));
    assert_eq!(data, written);
}

#[test]
fn malformed_account_data_is_left_as_it_is() {
    let mut entry_past_the_end = vec![7u8; 8];
    entry_past_the_end.extend_from_slice(&[100, 0, 0, 0]);
    entry_past_the_end.extend_from_slice(&[0, 0, 0, 0]);
    for data in [vec![1u8, 2, 3], vec![9u8; 10], entry_past_the_end] {
        let mut buffer = data.clone();
        assert!(matches!(
            initialize_extra_account_meta_list(&mut buffer),
            Err(MetaListError::MalformedAccountData)
        ));
        assert_eq!(buffer, data);
    }
}

#[test]
fn the_list_is_written_after_the_entries_that_are_there() {
    let mut data = vec![7u8; 8];
    data.extend_from_slice(&[2, 0, 0, 0]);
    data.extend_from_slice(&[0xaa, 0xbb]);
    data.extend_from_slice(&[0u8; 16]);
    let before = data.clone();
    assert!(initialize_extra_account_meta_list(&mut data).is_ok());
    assert_eq!(data[..14], before[..14]);
    assert_eq!(data[14..], empty_list()[..]);
}
