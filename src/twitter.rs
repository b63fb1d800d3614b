use crate::address::{
    canonical_bump, find_address, is_canonical_bump, lemma_canonical_unique, program_address,
    seeds_view, with_bump, Address,
};
use crate::constraints::{check_system_program, load_wallet, system_program_id, wallet_slot_error};
use crate::errors::ErrorCode;
use crate::ledger::{create_account, pay_into_new_account, rent_funded, total, Chain};
use crate::state::{AccountData, AccountInfo, AccountMeta, Tweet, CONTENT_LENGTH, TOPIC_LENGTH};
use crate::vault::{found_view, vault_derives, vaults_derived};
use vstd::prelude::*;
use vstd::utf8::encode_utf8;

verus! {

/// The bytes of `"TWEET_SEED"`, the middle seed of every post address.
pub open spec fn tweet_tag() -> Seq<u8> {
    seq![84u8, 87u8, 69u8, 69u8, 84u8, 95u8, 83u8, 69u8, 69u8, 68u8]
}

/// The seeds of the post of `author` on `topic` (given as UTF-8 bytes).
pub open spec fn tweet_seeds(topic: Seq<u8>, author: Seq<u8>) -> Seq<Seq<u8>> {
    seq![topic, tweet_tag(), author]
}

/// `key` is the address of the post of `author` on `topic` under `bump`.
pub open spec fn tweet_derives(program_id: Seq<u8>, topic: Seq<u8>, author: Seq<u8>, bump: u8, key: Seq<u8>) -> bool {
    program_address(with_bump(tweet_seeds(topic, author), bump), program_id) == Some(key)
}

/// Every post record keeps its topic and content within their bounds.
pub open spec fn tweets_bounded(s: Seq<AccountInfo>) -> bool {
    forall|i: int|
        0 <= i < s.len() && (#[trigger] s[i]).data is Tweet ==> encode_utf8(s[i].data->Tweet_0.topic@).len()
            <= TOPIC_LENGTH && encode_utf8(s[i].data->Tweet_0.content@).len() <= CONTENT_LENGTH
}

fn utf8_bytes(s: &str) -> (r: Vec<u8>)
    ensures
        r@ == encode_utf8(s@),
{
    let b = s.as_bytes();
    let mut r: Vec<u8> = Vec::new();
    let mut i: usize = 0;
    while i < b.len()
        invariant
            i <= b@.len(),
            b@ == encode_utf8(s@),
            r@ == b@.subrange(0, i as int),
        decreases b@.len() - i,
    {
        r.push(b[i]);
        i = i + 1;
        assert(r@ =~= b@.subrange(0, i as int));
    }
    assert(b@.subrange(0, b@.len() as int) =~= b@);
    r
}

fn tweet_seeds_of(topic: &str, author: &Address) -> (r: Vec<Vec<u8>>)
    ensures
        seeds_view(r@) == tweet_seeds(encode_utf8(topic@), author@),
{
    let mut r: Vec<Vec<u8>> = Vec::new();
    r.push(utf8_bytes(topic));
    r.push(vec![84u8, 87u8, 69u8, 69u8, 84u8, 95u8, 83u8, 69u8, 69u8, 68u8]);
    r.push(author.to_seed());
    assert(seeds_view(r@) =~= tweet_seeds(encode_utf8(topic@), author@));
    r
}

/// The address of the post of `author` on `topic` and its canonical bump.
pub fn tweet_address(program_id: &Address, topic: &str, author: &Address) -> (r: Option<(Address, u8)>)
    ensures
        match r {
            Some((a, b)) => {
                &&& is_canonical_bump(tweet_seeds(encode_utf8(topic@), author@), program_id@, b)
                &&& tweet_derives(program_id@, encode_utf8(topic@), author@, b, a@)
            },
            None => forall|c: u8|
                1 <= c ==> program_address(
                    with_bump(tweet_seeds(encode_utf8(topic@), author@), c),
                    program_id@,
                ) is None,
        },
{
    let seeds = tweet_seeds_of(topic, author);
    find_address(&seeds, program_id)
}

/// Accounts of a post's creation: its author (signer and payer), the post to
/// create, the system program.
#[derive(Clone, Copy, Debug)]
pub struct InitializeTweet {
    pub tweet_authority: AccountMeta,
    pub tweet: AccountMeta,
    pub system_program: AccountMeta,
}

/// The address and canonical bump of the post of `author` on `topic`, if any
/// bump derives one.
pub open spec fn canonical_tweet(program_id: Seq<u8>, topic: Seq<u8>, author: Seq<u8>) -> Option<(Seq<u8>, u8)> {
    let seeds = tweet_seeds(topic, author);
    match canonical_bump(seeds, program_id) {
        Some(b) => Some((program_address(with_bump(seeds, b), program_id)->Some_0, b)),
        None => None,
    }
}

/// The first check a post's creation fails, if any, where `found` is the
/// derived address and bump of the post.
pub open spec fn initialize_tweet_error(
    c: Chain,
    a: InitializeTweet,
    topic: Seq<char>,
    content: Seq<char>,
    rent: u64,
    found: Option<(Seq<u8>, u8)>,
) -> Option<ErrorCode> {
    if wallet_slot_error(c, a.tweet_authority) is Some {
        wallet_slot_error(c, a.tweet_authority)
    } else if !a.tweet.is_writable {
        Some(ErrorCode::ConstraintViolation)
    } else if a.system_program.key@ != system_program_id() {
        Some(ErrorCode::ConstraintViolation)
    } else if encode_utf8(topic).len() > TOPIC_LENGTH {
        Some(ErrorCode::TopicTooLong)
    } else if encode_utf8(content).len() > CONTENT_LENGTH {
        Some(ErrorCode::ContentTooLong)
    } else if found is None {
        Some(ErrorCode::ConstraintViolation)
    } else if found->Some_0.0 != a.tweet.key@ {
        Some(ErrorCode::ConstraintViolation)
    } else if c.has(a.tweet.key@) {
        Some(ErrorCode::AlreadyInitialized)
    } else if c.account(a.tweet_authority.key@).lamports < rent {
        Some(ErrorCode::InsufficientBalance)
    } else {
        None
    }
}

/// The ledger after a post's creation.
pub open spec fn new_tweet(c: Chain, a: InitializeTweet, topic: String, content: String, rent: u64, bump: u8) -> Seq<
    AccountInfo,
> {
    create_account(
        c.accounts@,
        c.index(a.tweet_authority.key@),
        rent,
        AccountInfo {
            key: a.tweet.key,
            lamports: rent,
            rent_exempt_minimum: rent,
            data: AccountData::Tweet(
                Tweet { tweet_author: a.tweet_authority.key, topic, content, likes: 0, dislikes: 0, bump },
            ),
        },
    )
}

/// A post's creation once its address has been derived: `found` is the
/// address and bump derived for the author and topic, or nothing.
pub fn process_initialize_tweet(
    chain: &mut Chain,
    accounts: &InitializeTweet,
    topic: String,
    content: String,
    rent: u64,
    found: Option<(Address, u8)>,
) -> (r: Result<(), ErrorCode>)
    requires
        old(chain).wf(),
    ensures
        final(chain).wf(),
        match r {
            Ok(()) => initialize_tweet_error(*old(chain), *accounts, topic@, content@, rent, found_view(found)) is None,
            Err(e) => initialize_tweet_error(*old(chain), *accounts, topic@, content@, rent, found_view(found))
                == Some(e),
        },
        r is Ok ==> final(chain).accounts@ == new_tweet(*old(chain), *accounts, topic, content, rent, found->Some_0.1),
        r is Ok ==> encode_utf8(topic@).len() <= TOPIC_LENGTH && encode_utf8(content@).len()
            <= CONTENT_LENGTH,
        r is Ok ==> final(chain).events@ == old(chain).events@,
        r is Err ==> *final(chain) == *old(chain),
        final(chain).program_id == old(chain).program_id,
        total(final(chain).accounts@) == total(old(chain).accounts@),
        tweets_bounded(old(chain).accounts@) ==> tweets_bounded(final(chain).accounts@),
        rent_funded(old(chain).accounts@) ==> rent_funded(final(chain).accounts@),
{
    let p = match load_wallet(chain, &accounts.tweet_authority) {
        Ok(i) => i,
        Err(e) => return Err(e),
    };
    if !accounts.tweet.is_writable {
        return Err(ErrorCode::ConstraintViolation);
    }
    if let Err(e) = check_system_program(&accounts.system_program) {
        return Err(e);
    }
    if utf8_bytes(topic.as_str()).len() > TOPIC_LENGTH {
        return Err(ErrorCode::TopicTooLong);
    }
    if utf8_bytes(content.as_str()).len() > CONTENT_LENGTH {
        return Err(ErrorCode::ContentTooLong);
    }
    let (address, bump) = match found {
        Some(x) => x,
        None => return Err(ErrorCode::ConstraintViolation),
    };
    if !(address == accounts.tweet.key) {
        return Err(ErrorCode::ConstraintViolation);
    }
    if chain.find(&accounts.tweet.key).is_some() {
        return Err(ErrorCode::AlreadyInitialized);
    }
    if chain.accounts[p].lamports < rent {
        return Err(ErrorCode::InsufficientBalance);
    }
    let ghost s0 = chain.accounts@;
    let created = AccountInfo {
        key: accounts.tweet.key,
        lamports: rent,
        rent_exempt_minimum: rent,
        data: AccountData::Tweet(
            Tweet {
                tweet_author: accounts.tweet_authority.key,
                topic,
                content,
                likes: 0,
                dislikes: 0,
                bump,
            },
        ),
    };
    pay_into_new_account(chain, p, rent, created);
    proof {
        let s2 = chain.accounts@;
        if tweets_bounded(s0) {
            assert forall|j: int| 0 <= j < s2.len() && (#[trigger] s2[j]).data is Tweet implies encode_utf8(
                s2[j].data->Tweet_0.topic@,
            ).len() <= TOPIC_LENGTH && encode_utf8(s2[j].data->Tweet_0.content@).len() <= CONTENT_LENGTH by {
                if j < s0.len() {
                    assert(s0[j].data is Tweet);
                }
            }
        }
    }
    Ok(())
}

/// Creates the post of the signing author on `topic`, at the address derived
/// from `(topic, "TWEET_SEED", author)` with the canonical bump, with no likes
/// or dislikes, paid with `rent` lamports (the host's rent-exempt minimum for
/// the record) from the author. Fails, changing nothing, at the first check of
/// `initialize_tweet_error`; so an author has at most one post per topic.
pub fn initialize_tweet(
    chain: &mut Chain,
    accounts: &InitializeTweet,
    topic: String,
    content: String,
    rent: u64,
) -> (r: Result<(), ErrorCode>)
    requires
        old(chain).wf(),
    ensures
        final(chain).wf(),
        match r {
            Ok(()) => initialize_tweet_error(
                *old(chain),
                *accounts,
                topic@,
                content@,
                rent,
                canonical_tweet(old(chain).program_id@, encode_utf8(topic@), accounts.tweet_authority.key@),
            ) is None,
            Err(e) => initialize_tweet_error(
                *old(chain),
                *accounts,
                topic@,
                content@,
                rent,
                canonical_tweet(old(chain).program_id@, encode_utf8(topic@), accounts.tweet_authority.key@),
            ) == Some(e),
        },
        r is Ok ==> final(chain).accounts@ == new_tweet(
            *old(chain),
            *accounts,
            topic,
            content,
            rent,
            canonical_bump(
                tweet_seeds(encode_utf8(topic@), accounts.tweet_authority.key@),
                old(chain).program_id@,
            )->Some_0,
        ),
        r is Ok ==> encode_utf8(topic@).len() <= TOPIC_LENGTH && encode_utf8(content@).len()
            <= CONTENT_LENGTH,
        r is Ok ==> final(chain).events@ == old(chain).events@,
        r is Err ==> *final(chain) == *old(chain),
        final(chain).program_id == old(chain).program_id,
        total(final(chain).accounts@) == total(old(chain).accounts@),
        vaults_derived(*old(chain)) ==> vaults_derived(*final(chain)),
        tweets_bounded(old(chain).accounts@) ==> tweets_bounded(final(chain).accounts@),
        rent_funded(old(chain).accounts@) ==> rent_funded(final(chain).accounts@),
{
    let found = tweet_address(&chain.program_id, topic.as_str(), &accounts.tweet_authority.key);
    let ghost seeds = tweet_seeds(encode_utf8(topic@), accounts.tweet_authority.key@);
    proof {
        match found {
            Some((a, bump)) => {
                let b = canonical_bump(seeds, chain.program_id@)->Some_0;
                assert(is_canonical_bump(seeds, chain.program_id@, b));
                lemma_canonical_unique(seeds, chain.program_id@, b, bump);
            },
            None => {
                assert(!exists|b: u8| is_canonical_bump(seeds, chain.program_id@, b));
            },
        }
    }
    let ghost c0 = *chain;
    let r = process_initialize_tweet(chain, accounts, topic, content, rent, found);
    proof {
        let s0 = c0.accounts@;
        let s2 = chain.accounts@;
        if r is Ok && vaults_derived(c0) {
            assert forall|j: int|
                0 <= j < s2.len() && (#[trigger] chain.accounts@[j]).data is Vault implies vault_derives(
                chain.program_id@,
                chain.accounts@[j].data->Vault_0.vault_authority@,
                chain.accounts@[j].data->Vault_0.bump,
                chain.accounts@[j].key@,
            ) by {
                if j < s0.len() {
                    assert(c0.accounts@[j].data is Vault);
                }
            }
        }
    }
    r
}

} // verus!
