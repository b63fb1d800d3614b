use crate::address::Address;
use vstd::prelude::*;

verus! {

#[derive(Clone, Copy, Debug)]
pub struct DepositEvent {
    pub amount: u64,
    pub user: Address,
    pub vault: Address,
}

#[derive(Clone, Copy, Debug)]
pub struct WithdrawEvent {
    pub amount: u64,
    pub vault_authority: Address,
    pub vault: Address,
}

#[derive(Clone, Copy, Debug)]
pub struct ToggleLockEvent {
    pub vault: Address,
    pub vault_authority: Address,
    pub locked: bool,
}

/// A record appended to the log for observers; never read by the programs.
#[derive(Clone, Copy, Debug)]
pub enum Event {
    Deposit(DepositEvent),
    Withdraw(WithdrawEvent),
    ToggleLock(ToggleLockEvent),
}

} // verus!
