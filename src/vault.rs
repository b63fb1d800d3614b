use crate::address::{
    canonical_bump, create_address, find_address, is_canonical_bump, lemma_canonical_unique,
    program_address, push_bump, seeds_view, with_bump, Address,
};
use crate::constraints::{
    check_system_program, load_vault, load_wallet, stored_vault, system_program_id,
    vault_slot_error, wallet_slot_error,
};
use crate::errors::ErrorCode;
use crate::events::{DepositEvent, Event, ToggleLockEvent, WithdrawEvent};
use crate::ledger::{
    create_account, lemma_index_of, pay_into_new_account, rent_funded, total, transfer, with_vault,
    Chain,
};
use crate::state::{AccountData, AccountInfo, AccountMeta, Vault, CONTENT_LENGTH, TOPIC_LENGTH};
use crate::twitter::tweets_bounded;
use vstd::prelude::*;
use vstd::utf8::encode_utf8;

verus! {

/// The bytes of `"vault"`, the first seed of every vault address.
pub open spec fn vault_tag() -> Seq<u8> {
    seq![118u8, 97u8, 117u8, 108u8, 116u8]
}

pub open spec fn vault_seeds(authority: Seq<u8>) -> Seq<Seq<u8>> {
    seq![vault_tag(), authority]
}

/// `key` is the address of the vault of `authority` under `bump`.
pub open spec fn vault_derives(program_id: Seq<u8>, authority: Seq<u8>, bump: u8, key: Seq<u8>) -> bool {
    program_address(with_bump(vault_seeds(authority), bump), program_id) == Some(key)
}

/// Every vault record sits at the address derived from its own authority and bump.
pub open spec fn vaults_derived(c: Chain) -> bool {
    forall|i: int|
        0 <= i < c.accounts@.len() && (#[trigger] c.accounts@[i]).data is Vault ==> vault_derives(
            c.program_id@,
            c.accounts@[i].data->Vault_0.vault_authority@,
            c.accounts@[i].data->Vault_0.bump,
            c.accounts@[i].key@,
        )
}

fn vault_seeds_of(authority: &Address) -> (r: Vec<Vec<u8>>)
    ensures
        seeds_view(r@) == vault_seeds(authority@),
{
    let mut r: Vec<Vec<u8>> = Vec::new();
    r.push(vec![118u8, 97u8, 117u8, 108u8, 116u8]);
    r.push(authority.to_seed());
    assert(seeds_view(r@) =~= vault_seeds(authority@));
    r
}

/// Whether `key` is the vault address of `authority` under `bump`.
pub fn vault_address_matches(program_id: &Address, authority: &Address, bump: u8, key: &Address) -> (r:
    bool)
    ensures
        r == vault_derives(program_id@, authority@, bump, key@),
{
    let mut seeds = vault_seeds_of(authority);
    push_bump(&mut seeds, bump);
    match create_address(&seeds, program_id) {
        Some(a) => a == *key,
        None => false,
    }
}

/// The vault address of `authority` and its canonical bump.
pub fn vault_address(program_id: &Address, authority: &Address) -> (r: Option<(Address, u8)>)
    ensures
        match r {
            Some((a, b)) => {
                &&& is_canonical_bump(vault_seeds(authority@), program_id@, b)
                &&& vault_derives(program_id@, authority@, b, a@)
            },
            None => forall|c: u8|
                1 <= c ==> program_address(with_bump(vault_seeds(authority@), c), program_id@) is None,
        },
{
    let seeds = vault_seeds_of(authority);
    find_address(&seeds, program_id)
}

/// The vault under `k` sits at the address derived from its own record.
pub open spec fn stored_vault_derives(c: Chain, k: Seq<u8>) -> bool {
    let v = stored_vault(c, k);
    vault_derives(c.program_id@, v.vault_authority@, v.bump, k)
}

/// The vault presented to a lock toggle sits at the address derived from the
/// signer's identity and the vault's stored bump.
pub open spec fn signer_vault_derives(c: Chain, a: ToggleLock) -> bool {
    vault_derives(c.program_id@, a.vault_authority.key@, stored_vault(c, a.vault.key@).bump, a.vault.key@)
}

fn stored_vault_derived(c: &Chain, key: &Address) -> (r: bool)
    requires
        c.wf(),
    ensures
        c.has(key@) && c.account(key@).data is Vault ==> r == stored_vault_derives(*c, key@),
{
    match c.vault_state(key) {
        Some(v) => vault_address_matches(&c.program_id, &v.vault_authority, v.bump, key),
        None => false,
    }
}

fn signer_vault_derived(c: &Chain, a: &ToggleLock) -> (r: bool)
    requires
        c.wf(),
    ensures
        c.has(a.vault.key@) && c.account(a.vault.key@).data is Vault ==> r == signer_vault_derives(*c, *a),
{
    match c.vault_state(&a.vault.key) {
        Some(v) => vault_address_matches(&c.program_id, &a.vault_authority.key, v.bump, &a.vault.key),
        None => false,
    }
}

/// Accounts of a deposit: the paying user, the vault, the system program.
#[derive(Clone, Copy, Debug)]
pub struct Deposit {
    pub user: AccountMeta,
    pub vault: AccountMeta,
    pub system_program: AccountMeta,
}

/// The first check a deposit fails, if any.
pub open spec fn deposit_error(c: Chain, a: Deposit, amount: u64, derived: bool) -> Option<ErrorCode> {
    let v = stored_vault(c, a.vault.key@);
    if wallet_slot_error(c, a.user) is Some {
        wallet_slot_error(c, a.user)
    } else if vault_slot_error(c, a.vault) is Some {
        vault_slot_error(c, a.vault)
    } else if a.system_program.key@ != system_program_id() {
        Some(ErrorCode::ConstraintViolation)
    } else if !derived {
        Some(ErrorCode::ConstraintViolation)
    } else if v.locked {
        Some(ErrorCode::VaultLocked)
    } else if c.account(a.user.key@).lamports < amount {
        Some(ErrorCode::InsufficientBalance)
    } else {
        None
    }
}

proof fn lemma_transfer_keeps_records(c0: Chain, c1: Chain, from: int, to: int, amount: u64)
    requires
        c0.wf(),
        0 <= from < c0.accounts@.len(),
        0 <= to < c0.accounts@.len(),
        c1.program_id == c0.program_id,
        c1.accounts@ == transfer(c0.accounts@, from, to, amount),
    ensures
        vaults_derived(c0) ==> vaults_derived(c1),
        tweets_bounded(c0.accounts@) ==> tweets_bounded(c1.accounts@),
        forall|i: int|
            0 <= i < c0.accounts@.len() ==> (#[trigger] c1.accounts@[i]).data == c0.accounts@[i].data
                && c1.accounts@[i].key == c0.accounts@[i].key && c1.accounts@[i].rent_exempt_minimum
                == c0.accounts@[i].rent_exempt_minimum,
        c1.accounts@.len() == c0.accounts@.len(),
{
    assert forall|i: int| 0 <= i < c0.accounts@.len() implies (#[trigger] c1.accounts@[i]).data
        == c0.accounts@[i].data && c1.accounts@[i].key == c0.accounts@[i].key
        && c1.accounts@[i].rent_exempt_minimum == c0.accounts@[i].rent_exempt_minimum by {}
    if vaults_derived(c0) {
        assert forall|i: int|
            0 <= i < c1.accounts@.len() && (#[trigger] c1.accounts@[i]).data is Vault implies vault_derives(
            c1.program_id@,
            c1.accounts@[i].data->Vault_0.vault_authority@,
            c1.accounts@[i].data->Vault_0.bump,
            c1.accounts@[i].key@,
        ) by {
            assert(c0.accounts@[i].data is Vault);
        }
    }
    if tweets_bounded(c0.accounts@) {
        assert forall|i: int| 0 <= i < c1.accounts@.len() && (#[trigger] c1.accounts@[i]).data is Tweet implies encode_utf8(
            c1.accounts@[i].data->Tweet_0.topic@,
        ).len() <= TOPIC_LENGTH && encode_utf8(c1.accounts@[i].data->Tweet_0.content@).len() <= CONTENT_LENGTH by {
            assert(c0.accounts@[i].data is Tweet);
        }
    }
}

/// The deposit once the vault's address has been checked: `derived` tells
/// whether the vault sits at its derived address.
pub fn process_deposit(chain: &mut Chain, accounts: &Deposit, amount: u64, derived: bool) -> (r: Result<(), ErrorCode>)
    requires
        old(chain).wf(),
    ensures
        final(chain).wf(),
        match r {
            Ok(()) => deposit_error(*old(chain), *accounts, amount, derived) is None,
            Err(e) => deposit_error(*old(chain), *accounts, amount, derived) == Some(e),
        },
        r is Ok ==> accounts.user.key@ != system_program_id() && accounts.vault.key@ != system_program_id(),
        r is Ok ==> final(chain).accounts@ == transfer(
            old(chain).accounts@,
            old(chain).index(accounts.user.key@),
            old(chain).index(accounts.vault.key@),
            amount,
        ),
        r is Ok ==> final(chain).events@ == old(chain).events@.push(
            Event::Deposit(DepositEvent { amount, user: accounts.user.key, vault: accounts.vault.key }),
        ),
        r is Err ==> *final(chain) == *old(chain),
        final(chain).program_id == old(chain).program_id,
        total(final(chain).accounts@) == total(old(chain).accounts@),
        r is Ok ==> !stored_vault(*old(chain), accounts.vault.key@).locked,
        lock_step(*old(chain), *final(chain), accounts.vault.key@, false),
        vaults_derived(*old(chain)) ==> vaults_derived(*final(chain)),
        tweets_bounded(old(chain).accounts@) ==> tweets_bounded(final(chain).accounts@),
        rent_funded(old(chain).accounts@) ==> rent_funded(final(chain).accounts@),
{
    let u = match load_wallet(chain, &accounts.user) {
        Ok(i) => i,
        Err(e) => return Err(e),
    };
    let (v, vault) = match load_vault(chain, &accounts.vault) {
        Ok(x) => x,
        Err(e) => return Err(e),
    };
    if let Err(e) = check_system_program(&accounts.system_program) {
        return Err(e);
    }
    if !derived {
        return Err(ErrorCode::ConstraintViolation);
    }
    if vault.locked {
        return Err(ErrorCode::VaultLocked);
    }
    if chain.accounts[u].lamports < amount {
        return Err(ErrorCode::InsufficientBalance);
    }
    let ghost c0 = *chain;
    chain.move_lamports(u, v, amount);
    chain.events.push(Event::Deposit(DepositEvent { amount, user: accounts.user.key, vault: accounts.vault.key }));
    proof {
        lemma_transfer_keeps_records(c0, *chain, u as int, v as int, amount);
        lemma_index_of(chain.accounts@, accounts.vault.key@, v as int);
        if rent_funded(c0.accounts@) {
            assert(c0.accounts@[u as int].data is Wallet);
            crate::ledger::lemma_total_pair(c0.accounts@, u as int, v as int);
            crate::ledger::lemma_transfer_rent(c0.accounts@, u as int, v as int, amount);
        }
    }
    Ok(())
}

/// Moves `amount` lamports from the user's wallet into the vault by a system
/// transfer, and logs a `DepositEvent`. Fails, changing nothing, at the first
/// check of `deposit_error`.
pub fn deposit(chain: &mut Chain, accounts: &Deposit, amount: u64) -> (r: Result<(), ErrorCode>)
    requires
        old(chain).wf(),
    ensures
        final(chain).wf(),
        match r {
            Ok(()) => deposit_error(*old(chain), *accounts, amount, stored_vault_derives(*old(chain), accounts.vault.key@)) is None,
            Err(e) => deposit_error(*old(chain), *accounts, amount, stored_vault_derives(*old(chain), accounts.vault.key@)) == Some(e),
        },
        r is Ok ==> accounts.user.key@ != system_program_id() && accounts.vault.key@ != system_program_id(),
        r is Ok ==> final(chain).accounts@ == transfer(
            old(chain).accounts@,
            old(chain).index(accounts.user.key@),
            old(chain).index(accounts.vault.key@),
            amount,
        ),
        r is Ok ==> final(chain).events@ == old(chain).events@.push(
            Event::Deposit(DepositEvent { amount, user: accounts.user.key, vault: accounts.vault.key }),
        ),
        r is Err ==> *final(chain) == *old(chain),
        final(chain).program_id == old(chain).program_id,
        total(final(chain).accounts@) == total(old(chain).accounts@),
        r is Ok ==> !stored_vault(*old(chain), accounts.vault.key@).locked,
        lock_step(*old(chain), *final(chain), accounts.vault.key@, false),
        vaults_derived(*old(chain)) ==> vaults_derived(*final(chain)),
        tweets_bounded(old(chain).accounts@) ==> tweets_bounded(final(chain).accounts@),
        rent_funded(old(chain).accounts@) ==> rent_funded(final(chain).accounts@),
{
    let derived = stored_vault_derived(chain, &accounts.vault.key);
    process_deposit(chain, accounts, amount, derived)
}

/// Accounts of a withdrawal: the vault's authority (signer and recipient),
/// the vault, the system program.
#[derive(Clone, Copy, Debug)]
pub struct Withdraw {
    pub vault_authority: AccountMeta,
    pub vault: AccountMeta,
    pub system_program: AccountMeta,
}

/// The first check a withdrawal fails, if any.
pub open spec fn withdraw_error(c: Chain, a: Withdraw, amount: u64, derived: bool) -> Option<ErrorCode> {
    let v = stored_vault(c, a.vault.key@);
    let acct = c.account(a.vault.key@);
    if wallet_slot_error(c, a.vault_authority) is Some {
        wallet_slot_error(c, a.vault_authority)
    } else if vault_slot_error(c, a.vault) is Some {
        vault_slot_error(c, a.vault)
    } else if a.system_program.key@ != system_program_id() {
        Some(ErrorCode::ConstraintViolation)
    } else if !derived {
        Some(ErrorCode::ConstraintViolation)
    } else if v.vault_authority@ != a.vault_authority.key@ {
        Some(ErrorCode::ConstraintViolation)
    } else if v.locked {
        Some(ErrorCode::VaultLocked)
    } else if acct.lamports < amount {
        Some(ErrorCode::InsufficientBalance)
    } else if acct.lamports - amount < acct.rent_exempt_minimum {
        Some(ErrorCode::InsufficientFundsForRent)
    } else {
        None
    }
}

/// The withdrawal once the vault's address has been checked: `derived` tells
/// whether the vault sits at its derived address.
pub fn process_withdraw(chain: &mut Chain, accounts: &Withdraw, amount: u64, derived: bool) -> (r: Result<(), ErrorCode>)
    requires
        old(chain).wf(),
    ensures
        final(chain).wf(),
        match r {
            Ok(()) => withdraw_error(*old(chain), *accounts, amount, derived) is None,
            Err(e) => withdraw_error(*old(chain), *accounts, amount, derived) == Some(e),
        },
        r is Ok ==> accounts.vault_authority.key@ != system_program_id() && accounts.vault.key@
            != system_program_id(),
        r is Ok ==> final(chain).accounts@ == transfer(
            old(chain).accounts@,
            old(chain).index(accounts.vault.key@),
            old(chain).index(accounts.vault_authority.key@),
            amount,
        ),
        r is Ok ==> final(chain).events@ == old(chain).events@.push(
            Event::Withdraw(
                WithdrawEvent {
                    amount,
                    vault_authority: accounts.vault_authority.key,
                    vault: accounts.vault.key,
                },
            ),
        ),
        r is Err ==> *final(chain) == *old(chain),
        final(chain).program_id == old(chain).program_id,
        total(final(chain).accounts@) == total(old(chain).accounts@),
        r is Ok ==> !stored_vault(*old(chain), accounts.vault.key@).locked,
        lock_step(*old(chain), *final(chain), accounts.vault.key@, false),
        r is Ok ==> final(chain).account(accounts.vault.key@).lamports >= final(chain).account(
            accounts.vault.key@,
        ).rent_exempt_minimum,
        vaults_derived(*old(chain)) ==> vaults_derived(*final(chain)),
        tweets_bounded(old(chain).accounts@) ==> tweets_bounded(final(chain).accounts@),
        rent_funded(old(chain).accounts@) ==> rent_funded(final(chain).accounts@),
{
    let u = match load_wallet(chain, &accounts.vault_authority) {
        Ok(i) => i,
        Err(e) => return Err(e),
    };
    let (v, vault) = match load_vault(chain, &accounts.vault) {
        Ok(x) => x,
        Err(e) => return Err(e),
    };
    if let Err(e) = check_system_program(&accounts.system_program) {
        return Err(e);
    }
    if !derived {
        return Err(ErrorCode::ConstraintViolation);
    }
    if !(vault.vault_authority == accounts.vault_authority.key) {
        return Err(ErrorCode::ConstraintViolation);
    }
    if vault.locked {
        return Err(ErrorCode::VaultLocked);
    }
    let balance = chain.accounts[v].lamports;
    if balance < amount {
        return Err(ErrorCode::InsufficientBalance);
    }
    if balance - amount < chain.accounts[v].rent_exempt_minimum {
        return Err(ErrorCode::InsufficientFundsForRent);
    }
    let ghost c0 = *chain;
    chain.move_lamports(v, u, amount);
    chain.events.push(
        Event::Withdraw(
            WithdrawEvent { amount, vault_authority: accounts.vault_authority.key, vault: accounts.vault.key },
        ),
    );
    proof {
        lemma_transfer_keeps_records(c0, *chain, v as int, u as int, amount);
        crate::ledger::lemma_total_pair(c0.accounts@, u as int, v as int);
        lemma_index_of(chain.accounts@, accounts.vault.key@, v as int);
        if rent_funded(c0.accounts@) {
            crate::ledger::lemma_transfer_rent(c0.accounts@, v as int, u as int, amount);
        }
    }
    Ok(())
}

/// Moves `amount` lamports from the vault to its authority by writing both
/// balances, and logs a `WithdrawEvent`. Fails, changing nothing, at the first
/// check of `withdraw_error`; the vault never drops below its rent-exempt
/// minimum.
pub fn withdraw(chain: &mut Chain, accounts: &Withdraw, amount: u64) -> (r: Result<(), ErrorCode>)
    requires
        old(chain).wf(),
    ensures
        final(chain).wf(),
        match r {
            Ok(()) => withdraw_error(*old(chain), *accounts, amount, stored_vault_derives(*old(chain), accounts.vault.key@)) is None,
            Err(e) => withdraw_error(*old(chain), *accounts, amount, stored_vault_derives(*old(chain), accounts.vault.key@)) == Some(e),
        },
        r is Ok ==> accounts.vault_authority.key@ != system_program_id() && accounts.vault.key@
            != system_program_id(),
        r is Ok ==> final(chain).accounts@ == transfer(
            old(chain).accounts@,
            old(chain).index(accounts.vault.key@),
            old(chain).index(accounts.vault_authority.key@),
            amount,
        ),
        r is Ok ==> final(chain).events@ == old(chain).events@.push(
            Event::Withdraw(
                WithdrawEvent {
                    amount,
                    vault_authority: accounts.vault_authority.key,
                    vault: accounts.vault.key,
                },
            ),
        ),
        r is Err ==> *final(chain) == *old(chain),
        final(chain).program_id == old(chain).program_id,
        total(final(chain).accounts@) == total(old(chain).accounts@),
        r is Ok ==> !stored_vault(*old(chain), accounts.vault.key@).locked,
        lock_step(*old(chain), *final(chain), accounts.vault.key@, false),
        r is Ok ==> final(chain).account(accounts.vault.key@).lamports >= final(chain).account(
            accounts.vault.key@,
        ).rent_exempt_minimum,
        vaults_derived(*old(chain)) ==> vaults_derived(*final(chain)),
        tweets_bounded(old(chain).accounts@) ==> tweets_bounded(final(chain).accounts@),
        rent_funded(old(chain).accounts@) ==> rent_funded(final(chain).accounts@),
{
    let derived = stored_vault_derived(chain, &accounts.vault.key);
    process_withdraw(chain, accounts, amount, derived)
}

/// Accounts of a lock toggle: the vault's authority (signer) and the vault.
#[derive(Clone, Copy, Debug)]
pub struct ToggleLock {
    pub vault_authority: AccountMeta,
    pub vault: AccountMeta,
}

/// The first check a lock toggle fails, if any. The vault must sit at the
/// address derived from the signer's identity: that is the authorization.
pub open spec fn toggle_lock_error(c: Chain, a: ToggleLock, derived: bool) -> Option<ErrorCode> {
    let v = stored_vault(c, a.vault.key@);
    if !a.vault_authority.is_signer {
        Some(ErrorCode::MissingSignature)
    } else if !a.vault_authority.is_writable {
        Some(ErrorCode::ConstraintViolation)
    } else if vault_slot_error(c, a.vault) is Some {
        vault_slot_error(c, a.vault)
    } else if !derived {
        Some(ErrorCode::ConstraintViolation)
    } else {
        None
    }
}

/// The lock state after `k` toggles from `initial`.
pub open spec fn locked_after(initial: bool, k: nat) -> bool
    decreases k,
{
    if k == 0 {
        initial
    } else {
        !locked_after(initial, (k - 1) as nat)
    }
}

/// Toggling `k` times leaves the lock at its first state exactly when `k` is even.
pub proof fn lemma_toggle_parity(initial: bool, k: nat)
    ensures
        locked_after(initial, k) == (initial != (k % 2 == 1)),
    decreases k,
{
    if k > 0 {
        lemma_toggle_parity(initial, (k - 1) as nat);
    }
}

/// Toggling twice gives back the first lock state.
pub proof fn lemma_toggle_twice(initial: bool)
    ensures
        locked_after(initial, 2) == initial,
{
    lemma_toggle_parity(initial, 2);
}

/// One call's effect on the lock of the vault under `key`: flipped when
/// `flip`, kept otherwise.
pub open spec fn lock_step(c0: Chain, c1: Chain, key: Seq<u8>, flip: bool) -> bool {
    stored_vault(c1, key).locked == (stored_vault(c0, key).locked != flip)
}

/// How many calls of a sequence flipped the lock.
pub open spec fn count_flips(flips: Seq<bool>) -> nat
    decreases flips.len(),
{
    if flips.len() == 0 {
        0
    } else {
        count_flips(flips.drop_last()) + if flips.last() {
            1nat
        } else {
            0nat
        }
    }
}

proof fn lemma_lock_after_calls(states: Seq<Chain>, flips: Seq<bool>, key: Seq<u8>)
    requires
        states.len() == flips.len() + 1,
        forall|i: int| 0 <= i < flips.len() ==> lock_step(states[i], #[trigger] states[i + 1], key, flips[i]),
    ensures
        stored_vault(states.last(), key).locked == locked_after(
            stored_vault(states[0], key).locked,
            count_flips(flips),
        ),
    decreases flips.len(),
{
    if flips.len() > 0 {
        let n = flips.len() - 1;
        let s = states.drop_last();
        let f = flips.drop_last();
        assert forall|i: int| 0 <= i < f.len() implies lock_step(s[i], #[trigger] s[i + 1], key, f[i]) by {
            assert(lock_step(states[i], states[i + 1], key, flips[i]));
        }
        lemma_lock_after_calls(s, f, key);
        assert(lock_step(states[n], states[n + 1], key, flips[n]));
        let l0 = stored_vault(states[0], key).locked;
        assert(locked_after(l0, count_flips(f) + 1) == !locked_after(l0, count_flips(f)));
    }
}

/// Over any sequence of calls on a vault, each of which either flips its lock
/// (a successful `toggle_lock`) or keeps it (`deposit`, `withdraw`, or a failed
/// `toggle_lock`, whatever their outcome), the final lock state is the first
/// one flipped exactly when an odd number of calls flipped it.
pub proof fn lemma_lock_parity_over_calls(states: Seq<Chain>, flips: Seq<bool>, key: Seq<u8>)
    requires
        states.len() == flips.len() + 1,
        forall|i: int| 0 <= i < flips.len() ==> lock_step(states[i], #[trigger] states[i + 1], key, flips[i]),
    ensures
        stored_vault(states.last(), key).locked == (stored_vault(states[0], key).locked != (count_flips(flips)
            % 2 == 1)),
{
    lemma_lock_after_calls(states, flips, key);
    lemma_toggle_parity(stored_vault(states[0], key).locked, count_flips(flips));
}

/// The lock toggle once the vault's address has been checked: `derived` tells
/// whether the vault sits at its derived address.
pub fn process_toggle_lock(chain: &mut Chain, accounts: &ToggleLock, derived: bool) -> (r: Result<(), ErrorCode>)
    requires
        old(chain).wf(),
    ensures
        final(chain).wf(),
        match r {
            Ok(()) => toggle_lock_error(*old(chain), *accounts, derived) is None,
            Err(e) => toggle_lock_error(*old(chain), *accounts, derived) == Some(e),
        },
        r is Ok ==> {
            let v = stored_vault(*old(chain), accounts.vault.key@);
            let i = old(chain).index(accounts.vault.key@);
            &&& final(chain).accounts@ == old(chain).accounts@.update(
                i,
                with_vault(old(chain).accounts@[i], Vault { locked: !v.locked, ..v }),
            )
            &&& stored_vault(*final(chain), accounts.vault.key@).locked == locked_after(v.locked, 1)
            &&& final(chain).events@ == old(chain).events@.push(
                Event::ToggleLock(
                    ToggleLockEvent {
                        vault: accounts.vault.key,
                        vault_authority: accounts.vault_authority.key,
                        locked: !v.locked,
                    },
                ),
            )
        },
        lock_step(*old(chain), *final(chain), accounts.vault.key@, r is Ok),
        r is Err ==> *final(chain) == *old(chain),
        final(chain).program_id == old(chain).program_id,
        total(final(chain).accounts@) == total(old(chain).accounts@),
        vaults_derived(*old(chain)) ==> vaults_derived(*final(chain)),
        tweets_bounded(old(chain).accounts@) ==> tweets_bounded(final(chain).accounts@),
        rent_funded(old(chain).accounts@) ==> rent_funded(final(chain).accounts@),
{
    if !accounts.vault_authority.is_signer {
        return Err(ErrorCode::MissingSignature);
    }
    if !accounts.vault_authority.is_writable {
        return Err(ErrorCode::ConstraintViolation);
    }
    let (i, vault) = match load_vault(chain, &accounts.vault) {
        Ok(x) => x,
        Err(e) => return Err(e),
    };
    if !derived {
        return Err(ErrorCode::ConstraintViolation);
    }
    let ghost c0 = *chain;
    let flipped = Vault { locked: !vault.locked, ..vault };
    chain.set_vault(i, flipped);
    chain.events.push(
        Event::ToggleLock(
            ToggleLockEvent {
                vault: accounts.vault.key,
                vault_authority: accounts.vault_authority.key,
                locked: flipped.locked,
            },
        ),
    );
    proof {
        let s0 = c0.accounts@;
        let s1 = chain.accounts@;
        lemma_index_of(s1, accounts.vault.key@, i as int);
        crate::ledger::lemma_total_update(s0, i as int, with_vault(s0[i as int], flipped));
        assert(flipped == Vault { locked: !vault.locked, ..vault });
        assert(stored_vault(*chain, accounts.vault.key@) == flipped);
        assert(locked_after(vault.locked, 1) == !locked_after(vault.locked, 0));
        if vaults_derived(c0) {
            assert forall|j: int|
                0 <= j < s1.len() && (#[trigger] chain.accounts@[j]).data is Vault implies vault_derives(
                chain.program_id@,
                chain.accounts@[j].data->Vault_0.vault_authority@,
                chain.accounts@[j].data->Vault_0.bump,
                chain.accounts@[j].key@,
            ) by {
                assert(c0.accounts@[j].data is Vault);
            }
        }
        if tweets_bounded(s0) {
            assert forall|j: int| 0 <= j < s1.len() && (#[trigger] s1[j]).data is Tweet implies encode_utf8(
                s1[j].data->Tweet_0.topic@,
            ).len() <= TOPIC_LENGTH && encode_utf8(s1[j].data->Tweet_0.content@).len() <= CONTENT_LENGTH by {
                assert(s0[j].data is Tweet);
            }
        }
        if rent_funded(s0) {
            assert forall|j: int| 0 <= j < s1.len() implies #[trigger] s1[j].lamports >= s1[j].rent_exempt_minimum
                && (s1[j].data is Wallet ==> s1[j].rent_exempt_minimum == 0) by {
                assert(s0[j].lamports >= s0[j].rent_exempt_minimum);
            }
        }
    }
    Ok(())
}

/// Flips the vault's lock and logs a `ToggleLockEvent` with the new state.
/// Fails, changing nothing, at the first check of `toggle_lock_error`.
pub fn toggle_lock(chain: &mut Chain, accounts: &ToggleLock) -> (r: Result<(), ErrorCode>)
    requires
        old(chain).wf(),
    ensures
        final(chain).wf(),
        match r {
            Ok(()) => toggle_lock_error(*old(chain), *accounts, signer_vault_derives(*old(chain), *accounts)) is None,
            Err(e) => toggle_lock_error(*old(chain), *accounts, signer_vault_derives(*old(chain), *accounts)) == Some(e),
        },
        r is Ok ==> {
            let v = stored_vault(*old(chain), accounts.vault.key@);
            let i = old(chain).index(accounts.vault.key@);
            &&& final(chain).accounts@ == old(chain).accounts@.update(
                i,
                with_vault(old(chain).accounts@[i], Vault { locked: !v.locked, ..v }),
            )
            &&& stored_vault(*final(chain), accounts.vault.key@).locked == locked_after(v.locked, 1)
            &&& final(chain).events@ == old(chain).events@.push(
                Event::ToggleLock(
                    ToggleLockEvent {
                        vault: accounts.vault.key,
                        vault_authority: accounts.vault_authority.key,
                        locked: !v.locked,
                    },
                ),
            )
        },
        lock_step(*old(chain), *final(chain), accounts.vault.key@, r is Ok),
        r is Err ==> *final(chain) == *old(chain),
        final(chain).program_id == old(chain).program_id,
        total(final(chain).accounts@) == total(old(chain).accounts@),
        vaults_derived(*old(chain)) ==> vaults_derived(*final(chain)),
        tweets_bounded(old(chain).accounts@) ==> tweets_bounded(final(chain).accounts@),
        rent_funded(old(chain).accounts@) ==> rent_funded(final(chain).accounts@),
{
    let derived = signer_vault_derived(chain, accounts);
    process_toggle_lock(chain, accounts, derived)
}

/// Accounts of a vault's creation: its authority (signer and payer), the
/// vault to create, the system program.
#[derive(Clone, Copy, Debug)]
pub struct Initialize {
    pub vault_authority: AccountMeta,
    pub vault: AccountMeta,
    pub system_program: AccountMeta,
}

/// The address and canonical bump of the vault of `authority`, if any bump
/// derives one.
pub open spec fn canonical_vault(program_id: Seq<u8>, authority: Seq<u8>) -> Option<(Seq<u8>, u8)> {
    let seeds = vault_seeds(authority);
    match canonical_bump(seeds, program_id) {
        Some(b) => Some((program_address(with_bump(seeds, b), program_id)->Some_0, b)),
        None => None,
    }
}

pub open spec fn found_view(found: Option<(Address, u8)>) -> Option<(Seq<u8>, u8)> {
    match found {
        Some((a, b)) => Some((a@, b)),
        None => None,
    }
}

/// The first check a vault's creation fails, if any, where `found` is the
/// derived address and bump of the authority's vault.
pub open spec fn initialize_error(c: Chain, a: Initialize, rent: u64, found: Option<(Seq<u8>, u8)>) -> Option<
    ErrorCode,
> {
    if wallet_slot_error(c, a.vault_authority) is Some {
        wallet_slot_error(c, a.vault_authority)
    } else if !a.vault.is_writable {
        Some(ErrorCode::ConstraintViolation)
    } else if a.system_program.key@ != system_program_id() {
        Some(ErrorCode::ConstraintViolation)
    } else if found is None {
        Some(ErrorCode::ConstraintViolation)
    } else if found->Some_0.0 != a.vault.key@ {
        Some(ErrorCode::ConstraintViolation)
    } else if c.has(a.vault.key@) {
        Some(ErrorCode::AlreadyInitialized)
    } else if c.account(a.vault_authority.key@).lamports < rent {
        Some(ErrorCode::InsufficientBalance)
    } else {
        None
    }
}

/// The vault record a creation stores.
pub open spec fn new_vault(c: Chain, a: Initialize, rent: u64, bump: u8) -> Seq<AccountInfo> {
    create_account(
        c.accounts@,
        c.index(a.vault_authority.key@),
        rent,
        AccountInfo {
            key: a.vault.key,
            lamports: rent,
            rent_exempt_minimum: rent,
            data: AccountData::Vault(Vault { vault_authority: a.vault_authority.key, locked: false, bump }),
        },
    )
}

/// A vault's creation once its address has been derived: `found` is the
/// address and bump derived for the authority, or nothing.
pub fn process_initialize(chain: &mut Chain, accounts: &Initialize, rent: u64, found: Option<(Address, u8)>) -> (r:
    Result<(), ErrorCode>)
    requires
        old(chain).wf(),
    ensures
        final(chain).wf(),
        match r {
            Ok(()) => initialize_error(*old(chain), *accounts, rent, found_view(found)) is None,
            Err(e) => initialize_error(*old(chain), *accounts, rent, found_view(found)) == Some(e),
        },
        r is Ok ==> final(chain).accounts@ == new_vault(*old(chain), *accounts, rent, found->Some_0.1),
        r is Ok ==> final(chain).events@ == old(chain).events@,
        r is Err ==> *final(chain) == *old(chain),
        final(chain).program_id == old(chain).program_id,
        total(final(chain).accounts@) == total(old(chain).accounts@),
        tweets_bounded(old(chain).accounts@) ==> tweets_bounded(final(chain).accounts@),
        rent_funded(old(chain).accounts@) ==> rent_funded(final(chain).accounts@),
{
    let p = match load_wallet(chain, &accounts.vault_authority) {
        Ok(i) => i,
        Err(e) => return Err(e),
    };
    if !accounts.vault.is_writable {
        return Err(ErrorCode::ConstraintViolation);
    }
    if let Err(e) = check_system_program(&accounts.system_program) {
        return Err(e);
    }
    let (address, bump) = match found {
        Some(x) => x,
        None => return Err(ErrorCode::ConstraintViolation),
    };
    if !(address == accounts.vault.key) {
        return Err(ErrorCode::ConstraintViolation);
    }
    if chain.find(&accounts.vault.key).is_some() {
        return Err(ErrorCode::AlreadyInitialized);
    }
    if chain.accounts[p].lamports < rent {
        return Err(ErrorCode::InsufficientBalance);
    }
    let ghost s0 = chain.accounts@;
    let created = AccountInfo {
        key: accounts.vault.key,
        lamports: rent,
        rent_exempt_minimum: rent,
        data: AccountData::Vault(Vault { vault_authority: accounts.vault_authority.key, locked: false, bump }),
    };
    pay_into_new_account(chain, p, rent, created);
    proof {
        let s2 = chain.accounts@;
        if tweets_bounded(s0) {
            assert forall|j: int| 0 <= j < s2.len() && (#[trigger] s2[j]).data is Tweet implies encode_utf8(
                s2[j].data->Tweet_0.topic@,
            ).len() <= TOPIC_LENGTH && encode_utf8(s2[j].data->Tweet_0.content@).len() <= CONTENT_LENGTH by {
                if j < s0.len() {
                    assert(s0[j].data is Tweet);
                }
            }
        }
    }
    Ok(())
}

/// Creates the vault of the signing authority at the address derived from
/// `("vault", authority)` with the canonical bump, unlocked, paid with `rent`
/// lamports (the host's rent-exempt minimum for the record) from the
/// authority. Fails, changing nothing, at the first check of
/// `initialize_error`.
pub fn initialize(chain: &mut Chain, accounts: &Initialize, rent: u64) -> (r: Result<(), ErrorCode>)
    requires
        old(chain).wf(),
    ensures
        final(chain).wf(),
        match r {
            Ok(()) => initialize_error(
                *old(chain),
                *accounts,
                rent,
                canonical_vault(old(chain).program_id@, accounts.vault_authority.key@),
            ) is None,
            Err(e) => initialize_error(
                *old(chain),
                *accounts,
                rent,
                canonical_vault(old(chain).program_id@, accounts.vault_authority.key@),
            ) == Some(e),
        },
        r is Ok ==> final(chain).accounts@ == new_vault(
            *old(chain),
            *accounts,
            rent,
            canonical_bump(vault_seeds(accounts.vault_authority.key@), old(chain).program_id@)->Some_0,
        ),
        r is Ok ==> final(chain).events@ == old(chain).events@,
        r is Err ==> *final(chain) == *old(chain),
        final(chain).program_id == old(chain).program_id,
        total(final(chain).accounts@) == total(old(chain).accounts@),
        vaults_derived(*old(chain)) ==> vaults_derived(*final(chain)),
        tweets_bounded(old(chain).accounts@) ==> tweets_bounded(final(chain).accounts@),
        rent_funded(old(chain).accounts@) ==> rent_funded(final(chain).accounts@),
{
    let found = vault_address(&chain.program_id, &accounts.vault_authority.key);
    let ghost seeds = vault_seeds(accounts.vault_authority.key@);
    proof {
        match found {
            Some((a, bump)) => {
                let b = canonical_bump(seeds, chain.program_id@)->Some_0;
                assert(is_canonical_bump(seeds, chain.program_id@, b));
                lemma_canonical_unique(seeds, chain.program_id@, b, bump);
                assert(found_view(found) == canonical_vault(chain.program_id@, accounts.vault_authority.key@));
            },
            None => {
                assert(!exists|b: u8| is_canonical_bump(seeds, chain.program_id@, b));
            },
        }
    }
    let ghost c0 = *chain;
    let r = process_initialize(chain, accounts, rent, found);
    proof {
        let s0 = c0.accounts@;
        let s2 = chain.accounts@;
        if r is Ok && vaults_derived(c0) {
            assert forall|j: int|
                0 <= j < s2.len() && (#[trigger] chain.accounts@[j]).data is Vault implies vault_derives(
                chain.program_id@,
                chain.accounts@[j].data->Vault_0.vault_authority@,
                chain.accounts@[j].data->Vault_0.bump,
                chain.accounts@[j].key@,
            ) by {
                if j < s0.len() {
                    assert(c0.accounts@[j].data is Vault);
                }
            }
        }
    }
    r
}

} // verus!
