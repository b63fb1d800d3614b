use chain_programs::address::Address;
use chain_programs::errors::ErrorCode;
use chain_programs::events::Event;
use chain_programs::ledger::Chain;
use chain_programs::state::AccountMeta;
use chain_programs::vault::{
    deposit, initialize, process_deposit, process_initialize, process_toggle_lock,
    process_withdraw, toggle_lock, vault_address, vault_address_matches, withdraw, Deposit,
    Initialize, ToggleLock, Withdraw,
};

fn addr(b: u8) -> Address {
    Address::new([b; 32])
}

fn program() -> Address {
    addr(7)
}

fn signer(a: Address) -> AccountMeta {
    AccountMeta::new(a, true, true)
}

fn writable(a: Address) -> AccountMeta {
    AccountMeta::new(a, false, true)
}

fn system() -> AccountMeta {
    AccountMeta::new(Address::system_program(), false, false)
}

fn vault_of(authority: Address) -> Address {
    vault_address(&program(), &authority).unwrap().0
}

/// A ledger where `A` holds 5_000_000 and has created its vault with `rent`.
fn setup(rent: u64) -> (Chain, Address, Address) {
    let mut chain = Chain::new(program());
    let a = addr(1);
    chain.airdrop(&a, 5_000_000).unwrap();
    let v = vault_of(a);
    let accounts = Initialize { vault_authority: signer(a), vault: writable(v), system_program: system() };
    assert_eq!(initialize(&mut chain, &accounts, rent), Ok(()));
    (chain, a, v)
}

fn deposit_accounts(user: Address, v: Address) -> Deposit {
    Deposit { user: signer(user), vault: writable(v), system_program: system() }
}

fn withdraw_accounts(authority: Address, v: Address) -> Withdraw {
    Withdraw { vault_authority: signer(authority), vault: writable(v), system_program: system() }
}

#[test]
fn init_and_deposit() {
    let (mut chain, _a, v) = setup(0);
    let u = addr(2);
    chain.airdrop(&u, 1_000_000).unwrap();
    assert_eq!(deposit(&mut chain, &deposit_accounts(u, v), 400_000), Ok(()));
    assert_eq!(chain.balance(&v), Some(400_000));
    assert_eq!(chain.balance(&u), Some(600_000));
    assert_eq!(chain.events.len(), 1);
    match chain.events[0] {
        Event::Deposit(e) => {
            assert_eq!(e.amount, 400_000);
            assert_eq!(e.user, u);
            assert_eq!(e.vault, v);
        }
        _ => panic!("expected a deposit event"),
    }
}

#[test]
fn initialize_sets_record() {
    let (chain, a, v) = setup(2_000);
    let (_, bump) = vault_address(&program(), &a).unwrap();
    let record = chain.vault_state(&v).unwrap();
    assert_eq!(record.vault_authority, a);
    assert!(!record.locked);
    assert_eq!(record.bump, bump);
    assert_eq!(chain.balance(&v), Some(2_000));
    assert_eq!(chain.balance(&a), Some(4_998_000));
    assert!(chain.events.is_empty());
}

#[test]
fn initialize_twice_fails() {
    let (mut chain, a, v) = setup(0);
    let accounts = Initialize { vault_authority: signer(a), vault: writable(v), system_program: system() };
    assert_eq!(initialize(&mut chain, &accounts, 0), Err(ErrorCode::AlreadyInitialized));
}

#[test]
fn initialize_at_wrong_address_fails() {
    let mut chain = Chain::new(program());
    let a = addr(1);
    chain.airdrop(&a, 100).unwrap();
    let accounts = Initialize { vault_authority: signer(a), vault: writable(addr(9)), system_program: system() };
    assert_eq!(initialize(&mut chain, &accounts, 0), Err(ErrorCode::ConstraintViolation));
    assert_eq!(chain.accounts.len(), 1);
}

#[test]
fn initialize_without_rent_fails() {
    let mut chain = Chain::new(program());
    let a = addr(1);
    chain.airdrop(&a, 100).unwrap();
    let v = vault_of(a);
    let accounts = Initialize { vault_authority: signer(a), vault: writable(v), system_program: system() };
    assert_eq!(initialize(&mut chain, &accounts, 101), Err(ErrorCode::InsufficientBalance));
    assert_eq!(chain.balance(&v), None);
}

#[test]
fn locked_deposit_rejected() {
    let (mut chain, a, v) = setup(0);
    let u = addr(2);
    chain.airdrop(&u, 1_000_000).unwrap();
    deposit(&mut chain, &deposit_accounts(u, v), 400_000).unwrap();
    let t = ToggleLock { vault_authority: signer(a), vault: writable(v) };
    assert_eq!(toggle_lock(&mut chain, &t), Ok(()));
    assert!(chain.vault_state(&v).unwrap().locked);
    let events_before = chain.events.len();
    assert_eq!(deposit(&mut chain, &deposit_accounts(u, v), 100), Err(ErrorCode::VaultLocked));
    assert_eq!(chain.balance(&v), Some(400_000));
    assert_eq!(chain.balance(&u), Some(600_000));
    assert_eq!(chain.events.len(), events_before);
}

#[test]
fn locked_withdraw_rejected() {
    let (mut chain, a, v) = setup(0);
    deposit(&mut chain, &deposit_accounts(a, v), 50).unwrap();
    toggle_lock(&mut chain, &ToggleLock { vault_authority: signer(a), vault: writable(v) }).unwrap();
    assert_eq!(withdraw(&mut chain, &withdraw_accounts(a, v), 10), Err(ErrorCode::VaultLocked));
    assert_eq!(chain.balance(&v), Some(50));
}

#[test]
fn withdraw_by_non_authority() {
    let (mut chain, _a, v) = setup(0);
    let x = addr(3);
    chain.airdrop(&x, 10).unwrap();
    deposit(&mut chain, &deposit_accounts(x, v), 5).unwrap();
    let events_before = chain.events.len();
    assert_eq!(withdraw(&mut chain, &withdraw_accounts(x, v), 1), Err(ErrorCode::ConstraintViolation));
    assert_eq!(chain.balance(&v), Some(5));
    assert_eq!(chain.balance(&x), Some(5));
    assert_eq!(chain.events.len(), events_before);
}

#[test]
fn toggle_by_non_authority() {
    let (mut chain, _a, v) = setup(0);
    let x = addr(3);
    let t = ToggleLock { vault_authority: signer(x), vault: writable(v) };
    assert_eq!(toggle_lock(&mut chain, &t), Err(ErrorCode::ConstraintViolation));
    assert!(!chain.vault_state(&v).unwrap().locked);
}

#[test]
fn withdraw_underflow() {
    let (mut chain, a, v) = setup(0);
    deposit(&mut chain, &deposit_accounts(a, v), 10).unwrap();
    let before = chain.balance(&a);
    assert_eq!(withdraw(&mut chain, &withdraw_accounts(a, v), 11), Err(ErrorCode::InsufficientBalance));
    assert_eq!(chain.balance(&v), Some(10));
    assert_eq!(chain.balance(&a), before);
}

#[test]
fn withdraw_keeps_rent_floor() {
    let (mut chain, a, v) = setup(1_000);
    deposit(&mut chain, &deposit_accounts(a, v), 500).unwrap();
    assert_eq!(
        withdraw(&mut chain, &withdraw_accounts(a, v), 501),
        Err(ErrorCode::InsufficientFundsForRent)
    );
    assert_eq!(withdraw(&mut chain, &withdraw_accounts(a, v), 500), Ok(()));
    assert_eq!(chain.balance(&v), Some(1_000));
}

#[test]
fn withdraw_pays_authority_and_logs() {
    let (mut chain, a, v) = setup(0);
    let u = addr(2);
    chain.airdrop(&u, 300).unwrap();
    deposit(&mut chain, &deposit_accounts(u, v), 300).unwrap();
    assert_eq!(withdraw(&mut chain, &withdraw_accounts(a, v), 120), Ok(()));
    assert_eq!(chain.balance(&v), Some(180));
    assert_eq!(chain.balance(&a), Some(5_000_120));
    match chain.events[1] {
        Event::Withdraw(e) => {
            assert_eq!(e.amount, 120);
            assert_eq!(e.vault_authority, a);
            assert_eq!(e.vault, v);
        }
        _ => panic!("expected a withdraw event"),
    }
}

#[test]
fn deposit_then_withdraw_restores_balances() {
    let (mut chain, a, v) = setup(0);
    deposit(&mut chain, &deposit_accounts(a, v), 777).unwrap();
    withdraw(&mut chain, &withdraw_accounts(a, v), 777).unwrap();
    assert_eq!(chain.balance(&a), Some(5_000_000));
    assert_eq!(chain.balance(&v), Some(0));
}

#[test]
fn toggle_parity() {
    let (mut chain, a, v) = setup(0);
    let t = ToggleLock { vault_authority: signer(a), vault: writable(v) };
    for k in 1..=5u32 {
        toggle_lock(&mut chain, &t).unwrap();
        assert_eq!(chain.vault_state(&v).unwrap().locked, k % 2 == 1);
        match chain.events[(k - 1) as usize] {
            Event::ToggleLock(e) => {
                assert_eq!(e.locked, k % 2 == 1);
                assert_eq!(e.vault, v);
                assert_eq!(e.vault_authority, a);
            }
            _ => panic!("expected a toggle event"),
        }
    }
}

#[test]
fn supply_is_conserved() {
    let (mut chain, a, v) = setup(1_234);
    let u = addr(2);
    chain.airdrop(&u, 1_000).unwrap();
    let sum = |c: &Chain| c.accounts.iter().map(|x| x.lamports as u128).sum::<u128>();
    let start = sum(&chain);
    assert_eq!(start, chain.supply as u128);
    deposit(&mut chain, &deposit_accounts(u, v), 600).unwrap();
    assert_eq!(sum(&chain), start);
    withdraw(&mut chain, &withdraw_accounts(a, v), 100).unwrap();
    assert_eq!(sum(&chain), start);
    let _ = deposit(&mut chain, &deposit_accounts(u, v), 10_000);
    assert_eq!(sum(&chain), start);
}

#[test]
fn missing_signature_rejected() {
    let (mut chain, a, v) = setup(0);
    let accounts = Deposit { user: AccountMeta::new(a, false, true), vault: writable(v), system_program: system() };
    assert_eq!(deposit(&mut chain, &accounts, 1), Err(ErrorCode::MissingSignature));
    let t = ToggleLock { vault_authority: AccountMeta::new(a, false, true), vault: writable(v) };
    assert_eq!(toggle_lock(&mut chain, &t), Err(ErrorCode::MissingSignature));
}

#[test]
fn wrong_system_program_rejected() {
    let (mut chain, a, v) = setup(0);
    let accounts = Deposit { user: signer(a), vault: writable(v), system_program: AccountMeta::new(addr(5), false, false) };
    assert_eq!(deposit(&mut chain, &accounts, 1), Err(ErrorCode::ConstraintViolation));
}

#[test]
fn read_only_vault_rejected() {
    let (mut chain, a, v) = setup(0);
    let accounts = Deposit { user: signer(a), vault: AccountMeta::new(v, false, false), system_program: system() };
    assert_eq!(deposit(&mut chain, &accounts, 1), Err(ErrorCode::ConstraintViolation));
}

#[test]
fn unknown_vault_rejected() {
    let (mut chain, a, _v) = setup(0);
    assert_eq!(
        deposit(&mut chain, &deposit_accounts(a, addr(9)), 1),
        Err(ErrorCode::AccountNotInitialized)
    );
    assert_eq!(
        deposit(&mut chain, &deposit_accounts(addr(8), addr(9)), 1),
        Err(ErrorCode::AccountNotInitialized)
    );
}

#[test]
fn vault_address_is_derived() {
    let a = addr(1);
    let (v, bump) = vault_address(&program(), &a).unwrap();
    assert_ne!(v, a);
    assert_ne!(v, program());
    assert!(vault_address_matches(&program(), &a, bump, &v));
    assert!(!vault_address_matches(&program(), &addr(2), bump, &v));
    assert_ne!(vault_of(addr(2)), v);
    assert_ne!(vault_address(&addr(8), &a).unwrap().0, v);
}

#[test]
fn airdrop_overflow_rejected() {
    let mut chain = Chain::new(program());
    chain.airdrop(&addr(1), u64::MAX).unwrap();
    assert_eq!(chain.airdrop(&addr(2), 1), Err(ErrorCode::ConstraintViolation));
    assert_eq!(chain.balance(&addr(2)), None);
}

#[test]
fn process_deposit_follows_derivation_result() {
    let (mut chain, a, v) = setup(0);
    assert_eq!(
        process_deposit(&mut chain, &deposit_accounts(a, v), 5, false),
        Err(ErrorCode::ConstraintViolation)
    );
    assert_eq!(chain.balance(&v), Some(0));
    assert_eq!(process_deposit(&mut chain, &deposit_accounts(a, v), 5, true), Ok(()));
    assert_eq!(chain.balance(&v), Some(5));
    assert_eq!(chain.balance(&a), Some(4_999_995));
}

#[test]
fn process_withdraw_follows_derivation_result() {
    let (mut chain, a, v) = setup(0);
    deposit(&mut chain, &deposit_accounts(a, v), 40).unwrap();
    assert_eq!(
        process_withdraw(&mut chain, &withdraw_accounts(a, v), 1, false),
        Err(ErrorCode::ConstraintViolation)
    );
    assert_eq!(process_withdraw(&mut chain, &withdraw_accounts(a, v), 15, true), Ok(()));
    assert_eq!(chain.balance(&v), Some(25));
}

#[test]
fn process_toggle_follows_derivation_result() {
    let (mut chain, a, v) = setup(0);
    let t = ToggleLock { vault_authority: signer(a), vault: writable(v) };
    assert_eq!(process_toggle_lock(&mut chain, &t, false), Err(ErrorCode::ConstraintViolation));
    assert!(!chain.vault_state(&v).unwrap().locked);
    assert_eq!(process_toggle_lock(&mut chain, &t, true), Ok(()));
    assert!(chain.vault_state(&v).unwrap().locked);
}

#[test]
fn process_initialize_uses_given_address() {
    let mut chain = Chain::new(program());
    let a = addr(1);
    chain.airdrop(&a, 100).unwrap();
    let v = addr(9);
    let accounts = Initialize { vault_authority: signer(a), vault: writable(v), system_program: system() };
    assert_eq!(process_initialize(&mut chain, &accounts, 10, None), Err(ErrorCode::ConstraintViolation));
    assert_eq!(
        process_initialize(&mut chain, &accounts, 10, Some((addr(8), 200))),
        Err(ErrorCode::ConstraintViolation)
    );
    assert_eq!(process_initialize(&mut chain, &accounts, 10, Some((v, 200))), Ok(()));
    let record = chain.vault_state(&v).unwrap();
    assert_eq!(record.bump, 200);
    assert_eq!(record.vault_authority, a);
    assert_eq!(chain.balance(&v), Some(10));
    assert_eq!(chain.balance(&a), Some(90));
}

#[test]
fn system_program_identity_cannot_move_lamports() {
    let (mut chain, _a, v) = setup(0);
    let sys = Address::system_program();
    chain.airdrop(&sys, 1_000).unwrap();
    assert_eq!(
        deposit(&mut chain, &deposit_accounts(sys, v), 10),
        Err(ErrorCode::ConstraintViolation)
    );
    assert_eq!(
        withdraw(&mut chain, &withdraw_accounts(sys, v), 0),
        Err(ErrorCode::ConstraintViolation)
    );
    assert_eq!(chain.balance(&sys), Some(1_000));
    assert_eq!(chain.balance(&v), Some(0));
}

#[test]
fn toggle_parity_with_transfers_between() {
    let (mut chain, a, v) = setup(0);
    let t = ToggleLock { vault_authority: signer(a), vault: writable(v) };
    let mut flips = 0u32;
    for k in 0..7u32 {
        if k % 3 == 0 {
            let _ = deposit(&mut chain, &deposit_accounts(a, v), 5);
            let _ = withdraw(&mut chain, &withdraw_accounts(a, v), 2);
        } else {
            toggle_lock(&mut chain, &t).unwrap();
            flips += 1;
        }
        assert_eq!(chain.vault_state(&v).unwrap().locked, flips % 2 == 1);
    }
    assert_eq!(flips, 4);
    assert!(!chain.vault_state(&v).unwrap().locked);
}
