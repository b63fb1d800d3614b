use crate::address::Address;
use crate::errors::ErrorCode;
use crate::ledger::Chain;
use crate::state::{AccountData, AccountMeta, Vault};
use vstd::prelude::*;

verus! {

pub open spec fn system_program_id() -> Seq<u8> {
    Seq::new(32, |i: int| 0u8)
}

/// A signing, writable wallet from which lamports may move; the system
/// program's own identity never qualifies.
pub open spec fn wallet_slot_error(c: Chain, m: AccountMeta) -> Option<ErrorCode> {
    if !m.is_signer {
        Some(ErrorCode::MissingSignature)
    } else if m.key@ == system_program_id() {
        Some(ErrorCode::ConstraintViolation)
    } else if !m.is_writable {
        Some(ErrorCode::ConstraintViolation)
    } else if !c.has(m.key@) {
        Some(ErrorCode::AccountNotInitialized)
    } else if !(c.account(m.key@).data is Wallet) {
        Some(ErrorCode::ConstraintViolation)
    } else {
        None
    }
}

/// A writable account, other than the system program, that holds a vault
/// record.
pub open spec fn vault_slot_error(c: Chain, m: AccountMeta) -> Option<ErrorCode> {
    if !m.is_writable || m.key@ == system_program_id() {
        Some(ErrorCode::ConstraintViolation)
    } else if !c.has(m.key@) || !(c.account(m.key@).data is Vault) {
        Some(ErrorCode::AccountNotInitialized)
    } else {
        None
    }
}

/// The vault record stored under `k`.
pub open spec fn stored_vault(c: Chain, k: Seq<u8>) -> Vault {
    c.account(k).data->Vault_0
}

/// Checks the system-program slot.
pub fn check_system_program(m: &AccountMeta) -> (r: Result<(), ErrorCode>)
    ensures
        r is Ok <==> m.key@ == system_program_id(),
        r is Err ==> r == Err::<(), ErrorCode>(ErrorCode::ConstraintViolation),
{
    if m.key == Address::system_program() {
        Ok(())
    } else {
        Err(ErrorCode::ConstraintViolation)
    }
}

/// Checks a wallet slot and gives its position.
pub fn load_wallet(c: &Chain, m: &AccountMeta) -> (r: Result<usize, ErrorCode>)
    requires
        c.wf(),
    ensures
        match r {
            Ok(i) => wallet_slot_error(*c, *m) is None && i == c.index(m.key@) && i < c.accounts@.len(),
            Err(e) => wallet_slot_error(*c, *m) == Some(e),
        },
{
    if !m.is_signer {
        return Err(ErrorCode::MissingSignature);
    }
    if m.key == Address::system_program() {
        return Err(ErrorCode::ConstraintViolation);
    }
    if !m.is_writable {
        return Err(ErrorCode::ConstraintViolation);
    }
    match c.find(&m.key) {
        None => Err(ErrorCode::AccountNotInitialized),
        Some(i) => match c.accounts[i].data {
            AccountData::Wallet => Ok(i),
            _ => Err(ErrorCode::ConstraintViolation),
        },
    }
}

/// Checks a vault slot and gives its position and record.
pub fn load_vault(c: &Chain, m: &AccountMeta) -> (r: Result<(usize, Vault), ErrorCode>)
    requires
        c.wf(),
    ensures
        match r {
            Ok((i, v)) => {
                &&& vault_slot_error(*c, *m) is None
                &&& i == c.index(m.key@)
                &&& i < c.accounts@.len()
                &&& v == stored_vault(*c, m.key@)
            },
            Err(e) => vault_slot_error(*c, *m) == Some(e),
        },
{
    if !m.is_writable || m.key == Address::system_program() {
        return Err(ErrorCode::ConstraintViolation);
    }
    match c.find(&m.key) {
        None => Err(ErrorCode::AccountNotInitialized),
        Some(i) => match c.accounts[i].data {
            AccountData::Vault(v) => Ok((i, v)),
            _ => Err(ErrorCode::AccountNotInitialized),
        },
    }
}

} // verus!
