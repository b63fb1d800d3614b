use crate::address::Address;
use vstd::prelude::*;

verus! {

/// The largest topic, in bytes.
pub const TOPIC_LENGTH: usize = 32;

/// The largest post body, in bytes.
pub const CONTENT_LENGTH: usize = 500;

/// A vault record: who controls it, whether it is locked, and the bump that
/// derives its address from `("vault", vault_authority)`.
#[derive(Clone, Copy, Debug)]
pub struct Vault {
    pub vault_authority: Address,
    pub locked: bool,
    pub bump: u8,
}

/// A post record, stored at the address derived from
/// `(topic, "TWEET_SEED", tweet_author)`.
#[derive(Debug)]
pub struct Tweet {
    pub tweet_author: Address,
    pub topic: String,
    pub content: String,
    pub likes: u64,
    pub dislikes: u64,
    pub bump: u8,
}

/// What an account holds besides its balance: nothing (a wallet of the
/// system program), or one record of this program.
#[derive(Debug)]
pub enum AccountData {
    Wallet,
    Vault(Vault),
    Tweet(Tweet),
}

/// One account of the ledger.
#[derive(Debug)]
pub struct AccountInfo {
    pub key: Address,
    pub lamports: u64,
    /// The least balance the host lets this account keep (zero for a wallet).
    pub rent_exempt_minimum: u64,
    pub data: AccountData,
}

/// An account as presented to an instruction, with its flags.
#[derive(Clone, Copy, Debug)]
pub struct AccountMeta {
    pub key: Address,
    pub is_signer: bool,
    pub is_writable: bool,
}

impl AccountMeta {
    pub fn new(key: Address, is_signer: bool, is_writable: bool) -> (r: AccountMeta)
        ensures
            r == (AccountMeta { key, is_signer, is_writable }),
    {
        AccountMeta { key, is_signer, is_writable }
    }
}

} // verus!
