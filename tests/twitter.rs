use chain_programs::address::Address;
use chain_programs::errors::ErrorCode;
use chain_programs::ledger::Chain;
use chain_programs::state::{AccountMeta, CONTENT_LENGTH, TOPIC_LENGTH};
use chain_programs::twitter::{
    initialize_tweet, process_initialize_tweet, tweet_address, InitializeTweet,
};

fn addr(b: u8) -> Address {
    Address::new([b; 32])
}

fn program() -> Address {
    addr(7)
}

fn accounts(author: Address, topic: &str) -> InitializeTweet {
    let (t, _) = tweet_address(&program(), topic, &author).unwrap();
    InitializeTweet {
        tweet_authority: AccountMeta::new(author, true, true),
        tweet: AccountMeta::new(t, false, true),
        system_program: AccountMeta::new(Address::system_program(), false, false),
    }
}

fn funded(author: Address) -> Chain {
    let mut chain = Chain::new(program());
    chain.airdrop(&author, 1_000_000).unwrap();
    chain
}

#[test]
fn creates_tweet() {
    let a = addr(1);
    let mut chain = funded(a);
    let acc = accounts(a, "solana");
    let r = initialize_tweet(&mut chain, &acc, "solana".to_string(), "hello".to_string(), 5_000);
    assert_eq!(r, Ok(()));
    let (_, bump) = tweet_address(&program(), "solana", &a).unwrap();
    let t = chain.tweet(&acc.tweet.key).unwrap();
    assert_eq!(t.tweet_author, a);
    assert_eq!(t.topic, "solana");
    assert_eq!(t.content, "hello");
    assert_eq!(t.likes, 0);
    assert_eq!(t.dislikes, 0);
    assert_eq!(t.bump, bump);
    assert_eq!(chain.balance(&acc.tweet.key), Some(5_000));
    assert_eq!(chain.balance(&a), Some(995_000));
    assert!(chain.events.is_empty());
}

#[test]
fn tweet_too_long() {
    let a = addr(1);
    let mut chain = funded(a);
    let acc = accounts(a, "ok");
    let content = "x".repeat(CONTENT_LENGTH + 1);
    let r = initialize_tweet(&mut chain, &acc, "ok".to_string(), content, 0);
    assert_eq!(r, Err(ErrorCode::ContentTooLong));
    assert_eq!(chain.balance(&acc.tweet.key), None);
    assert_eq!(chain.accounts.len(), 1);
}

#[test]
fn content_at_bound_accepted() {
    let a = addr(1);
    let mut chain = funded(a);
    let acc = accounts(a, "ok");
    let content = "x".repeat(CONTENT_LENGTH);
    assert_eq!(initialize_tweet(&mut chain, &acc, "ok".to_string(), content, 0), Ok(()));
}

#[test]
fn topic_too_long() {
    let a = addr(1);
    let mut chain = funded(a);
    let acc = accounts(a, "ok");
    let topic = "t".repeat(TOPIC_LENGTH + 1);
    assert_eq!(
        initialize_tweet(&mut chain, &acc, topic, "c".to_string(), 0),
        Err(ErrorCode::TopicTooLong)
    );
}

#[test]
fn topic_length_counts_bytes() {
    let a = addr(1);
    let mut chain = funded(a);
    // 17 two-byte characters: 34 bytes.
    let topic = "é".repeat(17);
    let acc = accounts(a, "ok");
    assert_eq!(
        initialize_tweet(&mut chain, &acc, topic, "c".to_string(), 0),
        Err(ErrorCode::TopicTooLong)
    );
    let topic = "é".repeat(16);
    let acc = accounts(a, &topic);
    assert_eq!(initialize_tweet(&mut chain, &acc, topic, "c".to_string(), 0), Ok(()));
}

#[test]
fn duplicate_tweet() {
    let a = addr(1);
    let mut chain = funded(a);
    let acc = accounts(a, "solana");
    assert_eq!(initialize_tweet(&mut chain, &acc, "solana".to_string(), "c1".to_string(), 10), Ok(()));
    assert_eq!(
        initialize_tweet(&mut chain, &acc, "solana".to_string(), "c2".to_string(), 10),
        Err(ErrorCode::AlreadyInitialized)
    );
    assert_eq!(chain.tweet(&acc.tweet.key).unwrap().content, "c1");
    assert_eq!(chain.balance(&a), Some(999_990));
}

#[test]
fn other_topic_or_author_gets_other_address() {
    let a = addr(1);
    let b = addr(2);
    let mut chain = funded(a);
    chain.airdrop(&b, 100).unwrap();
    let first = accounts(a, "solana");
    assert_eq!(initialize_tweet(&mut chain, &first, "solana".to_string(), "c".to_string(), 0), Ok(()));
    let second = accounts(a, "rust");
    assert_ne!(second.tweet.key, first.tweet.key);
    assert_eq!(initialize_tweet(&mut chain, &second, "rust".to_string(), "c".to_string(), 0), Ok(()));
    let third = accounts(b, "solana");
    assert_ne!(third.tweet.key, first.tweet.key);
    assert_eq!(initialize_tweet(&mut chain, &third, "solana".to_string(), "c".to_string(), 0), Ok(()));
}

#[test]
fn tweet_at_foreign_address_rejected() {
    let a = addr(1);
    let mut chain = funded(a);
    let acc = accounts(a, "rust");
    assert_eq!(
        initialize_tweet(&mut chain, &acc, "solana".to_string(), "c".to_string(), 0),
        Err(ErrorCode::ConstraintViolation)
    );
}

#[test]
fn tweet_without_funds_rejected() {
    let a = addr(1);
    let mut chain = funded(a);
    let acc = accounts(a, "solana");
    assert_eq!(
        initialize_tweet(&mut chain, &acc, "solana".to_string(), "c".to_string(), 1_000_001),
        Err(ErrorCode::InsufficientBalance)
    );
}

#[test]
fn process_tweet_uses_given_address() {
    let a = addr(1);
    let mut chain = funded(a);
    let t = addr(9);
    let acc = InitializeTweet {
        tweet_authority: AccountMeta::new(a, true, true),
        tweet: AccountMeta::new(t, false, true),
        system_program: AccountMeta::new(Address::system_program(), false, false),
    };
    assert_eq!(
        process_initialize_tweet(&mut chain, &acc, "t".to_string(), "c".to_string(), 0, None),
        Err(ErrorCode::ConstraintViolation)
    );
    assert_eq!(
        process_initialize_tweet(&mut chain, &acc, "t".repeat(TOPIC_LENGTH + 1), "c".to_string(), 0, None),
        Err(ErrorCode::TopicTooLong)
    );
    assert_eq!(
        process_initialize_tweet(&mut chain, &acc, "t".to_string(), "c".to_string(), 3, Some((t, 77))),
        Ok(())
    );
    let post = chain.tweet(&t).unwrap();
    assert_eq!(post.bump, 77);
    assert_eq!(post.topic, "t");
    assert_eq!(chain.balance(&t), Some(3));
}
