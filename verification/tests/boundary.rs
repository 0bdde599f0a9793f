//! Rebuilding library state from stored plain parts, as the environment does
//! between invocations, and exporting it back.

use fakeless::ledger::AccountEntry;
use fakeless::news::{News, NewsStorage};
use fakeless::token::Contract;

#[test]
fn store_round_trips_through_its_parts() {
    let mut s = NewsStorage::new("ft.token".to_string(), "owner".to_string());
    s.add("h1".to_string(), "b1".to_string(), "u1".to_string(), "creator".to_string());
    s.add("h2".to_string(), "b2".to_string(), "u2".to_string(), "creator".to_string());
    s.apply_vote(0, "fan".to_string(), true).unwrap();
    s.nft_mint(0, "creator".to_string()).unwrap();

    let rebuilt = NewsStorage::from_parts(
        s.get_all(),
        s.minted(),
        s.vote_token_address(),
        s.owner_account(),
    )
    .unwrap();
    assert_eq!(rebuilt.minted(), vec![1]);
    assert_eq!(rebuilt.vote_token_address(), "ft.token".to_string());
    assert_eq!(rebuilt.owner_account(), "creator".to_string());
    let n = rebuilt.get_by_index(0).unwrap();
    assert_eq!(n.like, 1);
    assert!(n.published);
    // the rebuilt store keeps enforcing the protocol
    let mut rebuilt = rebuilt;
    assert_eq!(
        rebuilt.apply_vote(0, "fan".to_string(), true),
        Err(fakeless::Error::AlreadyVoted),
    );
}

fn record(id: u32, published: bool, voted: Vec<String>) -> News {
    News {
        id,
        hash_head: "h".to_string(),
        hash_body: "b".to_string(),
        uri: "u".to_string(),
        like: 1,
        dislike: 0,
        voted,
        creator: "creator".to_string(),
        published,
    }
}

#[test]
fn store_parts_are_validated() {
    // an identifier out of sequence
    let bad_id = vec![record(2, false, Vec::new())];
    assert!(NewsStorage::from_parts(bad_id, Vec::new(), "ft".to_string(), "o".to_string())
        .is_none());
    // a voter listed twice
    let dup_voter = vec![record(1, false, vec!["a".to_string(), "a".to_string()])];
    assert!(NewsStorage::from_parts(dup_voter, Vec::new(), "ft".to_string(), "o".to_string())
        .is_none());
    // a published record whose identifier was never minted
    let unminted = vec![record(1, true, Vec::new())];
    assert!(NewsStorage::from_parts(unminted, Vec::new(), "ft".to_string(), "o".to_string())
        .is_none());
    // a minted identifier past the records
    let stray = vec![record(1, false, Vec::new())];
    assert!(NewsStorage::from_parts(stray, vec![2], "ft".to_string(), "o".to_string()).is_none());
    // a consistent store is accepted
    let good = vec![record(1, true, vec!["a".to_string()])];
    assert!(NewsStorage::from_parts(good, vec![1], "ft".to_string(), "o".to_string()).is_some());
}

#[test]
fn ledger_round_trips_through_its_parts() {
    let mut c = Contract::new(100, "custody".to_string());
    let a = "alice".to_string();
    c.give_tokens_to(&a, 30).unwrap();
    c.stake(&a, 10).unwrap();

    let rebuilt = Contract::from_parts(
        c.balance_entries(),
        c.stake_entries(),
        c.free_balance(),
        c.custody_account(),
    )
    .unwrap();
    assert_eq!(rebuilt.balance_of(&a), 20);
    assert_eq!(rebuilt.free_balance(), 70);
    assert!(rebuilt.get_power("alice".to_string()));
}

fn entry(account: &str, amount: u128) -> AccountEntry {
    AccountEntry { account: account.to_string(), amount }
}

#[test]
fn ledger_parts_are_validated() {
    // two entries for one account
    assert!(Contract::from_parts(
        vec![entry("custody", 5), entry("custody", 5)],
        Vec::new(),
        0,
        "custody".to_string(),
    )
    .is_none());
    // a zero stake entry would grant power with nothing at stake
    assert!(Contract::from_parts(
        vec![entry("custody", 10)],
        vec![entry("alice", 0)],
        0,
        "custody".to_string(),
    )
    .is_none());
    // the custody balance must cover the free pool plus everything staked
    assert!(Contract::from_parts(
        vec![entry("custody", 10), entry("alice", 5)],
        vec![entry("alice", 6)],
        5,
        "custody".to_string(),
    )
    .is_none());
    // a covered ledger is accepted
    let c = Contract::from_parts(
        vec![entry("custody", 10), entry("alice", 5)],
        vec![entry("alice", 6)],
        4,
        "custody".to_string(),
    )
    .unwrap();
    assert!(c.get_power("alice".to_string()));
    assert_eq!(c.balance_of(&"alice".to_string()), 5);
}
