//! The list of extra accounts that the transfer hook asks for, as it is
//! kept in the data of an account: a sequence of type-length-value entries,
//! one of which holds the list. The hook needs the time alone, so the list
//! it writes is empty.

use crate::error::MetaListError;
use spl_tlv_account_resolution::account::ExtraAccountMeta;
use spl_tlv_account_resolution::state::ExtraAccountMetaList;
use spl_transfer_hook_interface::instruction::ExecuteInstruction;
use spl_transfer_hook_interface::solana_program_error::ProgramError;
use spl_type_length_value::state::TlvStateBorrowed;
use vstd::prelude::*;

verus! {

/// An entry of the list, `spl_tlv_account_resolution::account::ExtraAccountMeta`,
/// of which nothing is known here.
#[verifier::external_type_specification]
#[verifier::external_body]
pub struct ExExtraAccountMeta(ExtraAccountMeta);

/// Whether `TlvStateBorrowed::unpack` of `spl_type_length_value` accepts
/// `data` as a sequence of type-length-value entries.
pub uninterp spec fn tlv_data_is_valid(data: Seq<u8>) -> bool;

/// What `ExtraAccountMetaList::init` for `ExecuteInstruction` makes of the
/// account data `data` when given an empty list: the data as the call leaves
/// it, under `Ok` where the call succeeds and under `Err` where it reports
/// an error.
pub uninterp spec fn initialized_meta_list(data: Seq<u8>) -> Result<Seq<u8>, Seq<u8>>;

/// Calls `TlvStateBorrowed::unpack` on `data` and tells whether it
/// succeeded: the result is `tlv_data_is_valid(data@)`.
#[verifier::external_body]
fn is_tlv_data(data: &[u8]) -> (valid: bool)
    ensures
        valid == tlv_data_is_valid(data@),
{
    TlvStateBorrowed::unpack(data).is_ok()
}

/// Calls `ExtraAccountMetaList::init` for `ExecuteInstruction` on `data`
/// with the empty list `metas`. The call validates `data` as
/// `TlvStateBorrowed::unpack` does and panics where that fails, which the
/// precondition rules out. It writes within `data`, whose length stays; the
/// outcome is `initialized_meta_list` of the data before the call.
#[verifier::external_body]
fn init_execute_meta_list(data: &mut [u8], metas: &Vec<ExtraAccountMeta>) -> (result: Result<
    (),
    ProgramError,
>)
    requires
        tlv_data_is_valid(old(data)@),
        metas@.len() == 0,
    ensures
        match result {
            Ok(_) => initialized_meta_list(old(data)@) == Ok::<Seq<u8>, Seq<u8>>(final(data)@),
            Err(_) => initialized_meta_list(old(data)@) == Err::<Seq<u8>, Seq<u8>>(
                final(data)@,
            ),
        },
        final(data)@.len() == old(data)@.len(),
{
    ExtraAccountMetaList::init::<ExecuteInstruction>(data, metas.as_slice())
}

/// Writes the empty list of extra accounts into the account data `data`.
/// Data that is no sequence of type-length-value entries is left as it is
/// and reported as malformed.
pub fn initialize_extra_account_meta_list(data: &mut [u8]) -> (result: Result<(), MetaListError>)
    ensures
        match result {
            Ok(_) => tlv_data_is_valid(old(data)@) && initialized_meta_list(old(data)@) == Ok::<
                Seq<u8>,
                Seq<u8>,
            >(final(data)@),
            Err(MetaListError::MalformedAccountData) => !tlv_data_is_valid(old(data)@)
                && final(data)@ == old(data)@,
            Err(MetaListError::InitializationFailed(_)) => tlv_data_is_valid(old(data)@)
                && initialized_meta_list(old(data)@) == Err::<Seq<u8>, Seq<u8>>(final(data)@),
        },
        final(data)@.len() == old(data)@.len(),
{
    if !is_tlv_data(data) {
        return Err(MetaListError::MalformedAccountData);
    }
    let metas: Vec<ExtraAccountMeta> = Vec::new();
    match init_execute_meta_list(data, &metas) {
        Ok(_) => Ok(()),
        Err(error) => Err(MetaListError::InitializationFailed(error)),
    }
}

} // verus!
