use crate::address::Address;
use crate::errors::ErrorCode;
use crate::events::Event;
use crate::state::{AccountData, AccountInfo, Tweet, Vault, CONTENT_LENGTH, TOPIC_LENGTH};
use crate::twitter::tweets_bounded;
use crate::vault::{vault_derives, vaults_derived};
use vstd::prelude::*;
use vstd::utf8::encode_utf8;

verus! {

/// Sum of the balances of `s`.
pub open spec fn total(s: Seq<AccountInfo>) -> int
    decreases s.len(),
{
    if s.len() == 0 {
        0
    } else {
        total(s.drop_last()) + s.last().lamports
    }
}

pub open spec fn keys_unique(s: Seq<AccountInfo>) -> bool {
    forall|i: int, j: int| 0 <= i < s.len() && 0 <= j < s.len() && i != j ==> s[i].key@ != s[j].key@
}

/// Position of the account with identity `k` in `s`, or -1.
pub open spec fn index_of(s: Seq<AccountInfo>, k: Seq<u8>) -> int {
    if exists|i: int| 0 <= i < s.len() && s[i].key@ == k {
        choose|i: int| 0 <= i < s.len() && s[i].key@ == k
    } else {
        -1
    }
}

pub open spec fn with_lamports(a: AccountInfo, lamports: u64) -> AccountInfo {
    AccountInfo { lamports, ..a }
}

/// `s` after `amount` moved from position `from` to position `to`.
pub open spec fn transfer(s: Seq<AccountInfo>, from: int, to: int, amount: u64) -> Seq<AccountInfo> {
    let s1 = s.update(from, with_lamports(s[from], (s[from].lamports - amount) as u64));
    s1.update(to, with_lamports(s1[to], (s1[to].lamports + amount) as u64))
}

pub open spec fn with_vault(a: AccountInfo, v: Vault) -> AccountInfo {
    AccountInfo { data: AccountData::Vault(v), ..a }
}

/// No account stands below the balance the host requires it to keep, and a
/// wallet is required to keep nothing.
pub open spec fn rent_funded(s: Seq<AccountInfo>) -> bool {
    forall|i: int|
        0 <= i < s.len() ==> #[trigger] s[i].lamports >= s[i].rent_exempt_minimum && (s[i].data is Wallet
            ==> s[i].rent_exempt_minimum == 0)
}

/// Moving `amount` from one account to another and back restores every
/// balance: a deposit followed by a withdrawal of the same amount, between the
/// same two accounts, leaves the ledger as it was.
pub proof fn lemma_transfer_round_trip(s: Seq<AccountInfo>, a: int, b: int, amount: u64)
    requires
        0 <= a < s.len(),
        0 <= b < s.len(),
        a != b,
        s[a].lamports >= amount,
        s[b].lamports + amount <= u64::MAX,
    ensures
        transfer(transfer(s, a, b, amount), b, a, amount) == s,
{
    let t = transfer(transfer(s, a, b, amount), b, a, amount);
    assert(t =~= s);
}

/// A transfer that leaves the payer at or above its minimum keeps every
/// account funded.
pub proof fn lemma_transfer_rent(s: Seq<AccountInfo>, from: int, to: int, amount: u64)
    requires
        rent_funded(s),
        0 <= from < s.len(),
        0 <= to < s.len(),
        from != to,
        s[from].lamports - amount >= s[from].rent_exempt_minimum,
        s[to].lamports + amount <= u64::MAX,
    ensures
        rent_funded(transfer(s, from, to, amount)),
{
    let t = transfer(s, from, to, amount);
    assert forall|i: int| 0 <= i < t.len() implies #[trigger] t[i].lamports >= t[i].rent_exempt_minimum
        && (t[i].data is Wallet ==> t[i].rent_exempt_minimum == 0) by {
        assert(s[i].lamports >= s[i].rent_exempt_minimum);
    }
}

pub proof fn lemma_index_of(s: Seq<AccountInfo>, k: Seq<u8>, i: int)
    requires
        keys_unique(s),
        0 <= i < s.len(),
        s[i].key@ == k,
    ensures
        index_of(s, k) == i,
{
}

pub proof fn lemma_index_of_absent(s: Seq<AccountInfo>, k: Seq<u8>)
    requires
        forall|i: int| 0 <= i < s.len() ==> s[i].key@ != k,
    ensures
        index_of(s, k) == -1,
{
}

pub proof fn lemma_total_nonneg(s: Seq<AccountInfo>)
    ensures
        total(s) >= 0,
    decreases s.len(),
{
    if s.len() > 0 {
        lemma_total_nonneg(s.drop_last());
    }
}

pub proof fn lemma_total_update(s: Seq<AccountInfo>, i: int, a: AccountInfo)
    requires
        0 <= i < s.len(),
    ensures
        total(s.update(i, a)) == total(s) - s[i].lamports + a.lamports,
    decreases s.len(),
{
    let t = s.update(i, a);
    if i == s.len() - 1 {
        assert(t.drop_last() =~= s.drop_last());
    } else {
        assert(t.drop_last() =~= s.drop_last().update(i, a));
        lemma_total_update(s.drop_last(), i, a);
    }
}

pub proof fn lemma_total_push(s: Seq<AccountInfo>, a: AccountInfo)
    ensures
        total(s.push(a)) == total(s) + a.lamports,
{
    assert(s.push(a).drop_last() =~= s);
}

/// Two distinct balances together never exceed the sum of all.
pub proof fn lemma_total_pair(s: Seq<AccountInfo>, i: int, j: int)
    requires
        0 <= i < s.len(),
        0 <= j < s.len(),
        i != j,
    ensures
        s[i].lamports + s[j].lamports <= total(s),
    decreases s.len(),
{
    let d = s.drop_last();
    lemma_total_nonneg(d);
    if i == s.len() - 1 {
        lemma_total_single(d, j);
    } else if j == s.len() - 1 {
        lemma_total_single(d, i);
    } else {
        lemma_total_pair(d, i, j);
    }
}

pub proof fn lemma_total_single(s: Seq<AccountInfo>, i: int)
    requires
        0 <= i < s.len(),
    ensures
        s[i].lamports <= total(s),
    decreases s.len(),
{
    let d = s.drop_last();
    lemma_total_nonneg(d);
    if i < s.len() - 1 {
        lemma_total_single(d, i);
    }
}

/// The ledger the programs run against: the accounts, the program's own
/// identity, the event log, and the total supply of lamports.
#[derive(Debug)]
pub struct Chain {
    pub program_id: Address,
    pub accounts: Vec<AccountInfo>,
    pub events: Vec<Event>,
    pub supply: u64,
}

impl Chain {
    /// Identities are unique and `supply` is the sum of all balances.
    pub open spec fn wf(&self) -> bool {
        &&& keys_unique(self.accounts@)
        &&& self.supply == total(self.accounts@)
    }

    pub open spec fn index(&self, k: Seq<u8>) -> int {
        index_of(self.accounts@, k)
    }

    pub open spec fn has(&self, k: Seq<u8>) -> bool {
        self.index(k) >= 0
    }

    pub open spec fn account(&self, k: Seq<u8>) -> AccountInfo {
        self.accounts@[self.index(k)]
    }

    pub fn new(program_id: Address) -> (r: Chain)
        ensures
            r.wf(),
            r.program_id == program_id,
            r.accounts@.len() == 0,
            r.events@.len() == 0,
            vaults_derived(r),
            tweets_bounded(r.accounts@),
            rent_funded(r.accounts@),
    {
        Chain { program_id, accounts: Vec::new(), events: Vec::new(), supply: 0 }
    }

    /// Where the account with identity `key` stands.
    pub fn find(&self, key: &Address) -> (r: Option<usize>)
        requires
            self.wf(),
        ensures
            match r {
                Some(i) => i == self.index(key@) && i < self.accounts@.len(),
                None => !self.has(key@),
            },
    {
        let mut i: usize = 0;
        while i < self.accounts.len()
            invariant
                self.wf(),
                i <= self.accounts@.len(),
                forall|j: int| 0 <= j < i ==> self.accounts@[j].key@ != key@,
            decreases self.accounts@.len() - i,
        {
            if self.accounts[i].key == *key {
                proof {
                    lemma_index_of(self.accounts@, key@, i as int);
                }
                return Some(i);
            }
            i = i + 1;
        }
        proof {
            lemma_index_of_absent(self.accounts@, key@);
        }
        None
    }

    /// The balance of `key`, if the account exists.
    pub fn balance(&self, key: &Address) -> (r: Option<u64>)
        requires
            self.wf(),
        ensures
            r == (if self.has(key@) { Some(self.account(key@).lamports) } else { None::<u64> }),
    {
        match self.find(key) {
            Some(i) => Some(self.accounts[i].lamports),
            None => None,
        }
    }

    /// The vault record stored under `key`, if there is one.
    pub fn vault_state(&self, key: &Address) -> (r: Option<Vault>)
        requires
            self.wf(),
        ensures
            r == (if self.has(key@) && self.account(key@).data is Vault {
                Some(self.account(key@).data->Vault_0)
            } else {
                None::<Vault>
            }),
    {
        match self.find(key) {
            Some(i) => match self.accounts[i].data {
                AccountData::Vault(v) => Some(v),
                _ => None,
            },
            None => None,
        }
    }

    /// The post record stored under `key`, if there is one.
    pub fn tweet(&self, key: &Address) -> (r: Option<&Tweet>)
        requires
            self.wf(),
        ensures
            r == (if self.has(key@) && self.account(key@).data is Tweet {
                Some(&self.account(key@).data->Tweet_0)
            } else {
                None::<&Tweet>
            }),
    {
        match self.find(key) {
            Some(i) => match &self.accounts[i].data {
                AccountData::Tweet(t) => Some(t),
                _ => None,
            },
            None => None,
        }
    }

    /// Credits `lamports` to a wallet, creating it when it does not exist; fails
    /// when the supply would overflow or the account holds a record.
    pub fn airdrop(&mut self, key: &Address, lamports: u64) -> (r: Result<(), ErrorCode>)
        requires
            old(self).wf(),
        ensures
            final(self).wf(),
            final(self).program_id == old(self).program_id,
            final(self).events@ == old(self).events@,
            r is Ok <==> old(self).supply + lamports <= u64::MAX && (old(self).has(key@) ==> old(
                self,
            ).account(key@).data is Wallet),
            r is Ok ==> (if old(self).has(key@) {
                final(self).accounts@ == old(self).accounts@.update(
                    old(self).index(key@),
                    with_lamports(
                        old(self).account(key@),
                        (old(self).account(key@).lamports + lamports) as u64,
                    ),
                )
            } else {
                final(self).accounts@ == old(self).accounts@.push(
                    AccountInfo { key: *key, lamports, rent_exempt_minimum: 0, data: AccountData::Wallet },
                )
            }),
            r is Ok ==> final(self).has(key@) && final(self).account(key@).data is Wallet,
            r is Ok ==> total(final(self).accounts@) == total(old(self).accounts@) + lamports,
            vaults_derived(*old(self)) ==> vaults_derived(*final(self)),
            tweets_bounded(old(self).accounts@) ==> tweets_bounded(final(self).accounts@),
            rent_funded(old(self).accounts@) ==> rent_funded(final(self).accounts@),
            r is Err ==> *final(self) == *old(self),
    {
        if lamports > u64::MAX - self.supply {
            return Err(ErrorCode::ConstraintViolation);
        }
        match self.find(key) {
            Some(i) => {
                if !matches!(self.accounts[i].data, AccountData::Wallet) {
                    return Err(ErrorCode::ConstraintViolation);
                }
                proof {
                    lemma_total_single(self.accounts@, i as int);
                }
                let new_balance = self.accounts[i].lamports + lamports;
                self.set_lamports(i, new_balance);
                self.supply = self.supply + lamports;
                assert(keys_unique(self.accounts@));
                proof {
                    lemma_index_of(self.accounts@, key@, i as int);
                }
            },
            None => {
                let a = AccountInfo {
                    key: *key,
                    lamports,
                    rent_exempt_minimum: 0,
                    data: AccountData::Wallet,
                };
                proof {
                    lemma_total_push(self.accounts@, a);
                }
                self.accounts.push(a);
                self.supply = self.supply + lamports;
                proof {
                    lemma_index_of(self.accounts@, key@, self.accounts@.len() - 1);
                }
            },
        }
        proof {
            let s0 = old(self).accounts@;
            let s1 = self.accounts@;
            assert forall|j: int| 0 <= j < s1.len() implies (#[trigger] s1[j]).data is Wallet || (j < s0.len()
                && s1[j] == s0[j]) by {}
            if vaults_derived(*old(self)) {
                assert forall|j: int|
                    0 <= j < s1.len() && (#[trigger] self.accounts@[j]).data is Vault implies vault_derives(
                    self.program_id@,
                    self.accounts@[j].data->Vault_0.vault_authority@,
                    self.accounts@[j].data->Vault_0.bump,
                    self.accounts@[j].key@,
                ) by {
                    assert(old(self).accounts@[j].data is Vault);
                }
            }
            if tweets_bounded(s0) {
                assert forall|j: int| 0 <= j < s1.len() && (#[trigger] s1[j]).data is Tweet implies encode_utf8(
                    s1[j].data->Tweet_0.topic@,
                ).len() <= TOPIC_LENGTH && encode_utf8(s1[j].data->Tweet_0.content@).len() <= CONTENT_LENGTH by {
                    assert(s0[j].data is Tweet);
                }
            }
            if rent_funded(s0) {
                assert forall|j: int| 0 <= j < s1.len() implies #[trigger] s1[j].lamports >= s1[j].rent_exempt_minimum
                    && (s1[j].data is Wallet ==> s1[j].rent_exempt_minimum == 0) by {
                    if j < s0.len() {
                        assert(s0[j].lamports >= s0[j].rent_exempt_minimum);
                    }
                }
            }
        }
        Ok(())
    }

    /// Sets the balance at position `i`, leaving everything else as it was.
    pub(crate) fn set_lamports(&mut self, i: usize, lamports: u64)
        requires
            i < old(self).accounts@.len(),
        ensures
            final(self).accounts@ == old(self).accounts@.update(
                i as int,
                with_lamports(old(self).accounts@[i as int], lamports),
            ),
            final(self).program_id == old(self).program_id,
            final(self).events@ == old(self).events@,
            final(self).supply == old(self).supply,
            total(final(self).accounts@) == total(old(self).accounts@) - old(self).accounts@[i as int].lamports
                + lamports,
    {
        let mut tmp = AccountInfo {
            key: Address { bytes: [0u8; 32] },
            lamports: 0,
            rent_exempt_minimum: 0,
            data: AccountData::Wallet,
        };
        self.accounts.set_and_swap(i, &mut tmp);
        tmp.lamports = lamports;
        self.accounts.set(i, tmp);
        proof {
            let a = with_lamports(old(self).accounts@[i as int], lamports);
            assert(self.accounts@ == old(self).accounts@.update(i as int, a));
            lemma_total_update(old(self).accounts@, i as int, a);
        }
    }

    /// Replaces the vault record at position `i`, leaving everything else as it was.
    pub(crate) fn set_vault(&mut self, i: usize, v: Vault)
        requires
            old(self).wf(),
            i < old(self).accounts@.len(),
        ensures
            final(self).wf(),
            final(self).accounts@ == old(self).accounts@.update(
                i as int,
                with_vault(old(self).accounts@[i as int], v),
            ),
            final(self).program_id == old(self).program_id,
            final(self).events@ == old(self).events@,
            final(self).supply == old(self).supply,
    {
        let mut tmp = AccountInfo {
            key: Address { bytes: [0u8; 32] },
            lamports: 0,
            rent_exempt_minimum: 0,
            data: AccountData::Wallet,
        };
        self.accounts.set_and_swap(i, &mut tmp);
        tmp.data = AccountData::Vault(v);
        self.accounts.set(i, tmp);
        proof {
            let a = with_vault(old(self).accounts@[i as int], v);
            assert(self.accounts@ == old(self).accounts@.update(i as int, a));
            lemma_total_update(old(self).accounts@, i as int, a);
            assert(keys_unique(self.accounts@));
        }
    }

    /// Moves `amount` from position `from` to position `to` by writing both
    /// balances; the sum of all balances is unchanged.
    pub(crate) fn move_lamports(&mut self, from: usize, to: usize, amount: u64)
        requires
            old(self).wf(),
            from < old(self).accounts@.len(),
            to < old(self).accounts@.len(),
            from != to,
            old(self).accounts@[from as int].lamports >= amount,
        ensures
            final(self).wf(),
            final(self).accounts@ == transfer(old(self).accounts@, from as int, to as int, amount),
            final(self).program_id == old(self).program_id,
            final(self).events@ == old(self).events@,
            final(self).supply == old(self).supply,
    {
        proof {
            lemma_total_pair(self.accounts@, from as int, to as int);
        }
        let f = self.accounts[from].lamports - amount;
        self.set_lamports(from, f);
        let t = self.accounts[to].lamports + amount;
        self.set_lamports(to, t);
        assert(keys_unique(self.accounts@));
    }
}

/// The ledger after `payer` (at position `p`) pays `rent` into a new account
/// `created`.
pub open spec fn create_account(s: Seq<AccountInfo>, p: int, rent: u64, created: AccountInfo) -> Seq<
    AccountInfo,
> {
    s.update(p, with_lamports(s[p], (s[p].lamports - rent) as u64)).push(created)
}

/// Debits `rent` from the wallet at position `p` and appends `created`, which
/// holds exactly `rent`; the sum of balances and the other accounts stay.
pub(crate) fn pay_into_new_account(chain: &mut Chain, p: usize, rent: u64, created: AccountInfo)
    requires
        old(chain).wf(),
        p < old(chain).accounts@.len(),
        old(chain).accounts@[p as int].lamports >= rent,
        old(chain).accounts@[p as int].data is Wallet,
        created.lamports == rent,
        created.rent_exempt_minimum <= rent,
        !(created.data is Wallet),
        !old(chain).has(created.key@),
    ensures
        final(chain).wf(),
        final(chain).accounts@ == create_account(old(chain).accounts@, p as int, rent, created),
        final(chain).program_id == old(chain).program_id,
        final(chain).events@ == old(chain).events@,
        total(final(chain).accounts@) == total(old(chain).accounts@),
        final(chain).index(created.key@) == old(chain).accounts@.len(),
        rent_funded(old(chain).accounts@) ==> rent_funded(final(chain).accounts@),
{
    let ghost s0 = chain.accounts@;
    let key = created.key;
    let balance = chain.accounts[p].lamports - rent;
    chain.set_lamports(p, balance);
    let ghost s1 = chain.accounts@;
    proof {
        crate::ledger::lemma_total_push(s1, created);
        assert forall|i: int| 0 <= i < s0.len() implies s0[i].key@ != created.key@ by {
            if s0[i].key@ == created.key@ {
                lemma_index_of(s0, created.key@, i);
            }
        }
    }
    chain.accounts.push(created);
    proof {
        let s2 = chain.accounts@;
        assert(keys_unique(s2)) by {
            assert forall|i: int, j: int|
                0 <= i < s2.len() && 0 <= j < s2.len() && i != j implies s2[i].key@ != s2[j].key@ by {
                if i < s0.len() && j < s0.len() {
                    assert(s0[i].key@ != s0[j].key@);
                }
            }
        }
        lemma_index_of(s2, key@, s0.len() as int);
        if rent_funded(s0) {
            assert forall|j: int| 0 <= j < s2.len() implies #[trigger] s2[j].lamports >= s2[j].rent_exempt_minimum
                && (s2[j].data is Wallet ==> s2[j].rent_exempt_minimum == 0) by {
                if j < s0.len() {
                    assert(s0[j].lamports >= s0[j].rent_exempt_minimum);
                    assert(s0[p as int].rent_exempt_minimum == 0);
                }
            }
        }
    }
}

} // verus!
