//! The two-phase vote protocol, driven end to end: the content store issues
//! authorization requests, the token contract answers them, and the commit
//! callback applies or rejects the vote.

use fakeless::Error;
use fakeless::news::NewsStorage;
use fakeless::token::Contract;
use fakeless::vote::CallResult;

fn setup() -> (NewsStorage, Contract) {
    let mut token = Contract::new(100, "ft.token".to_string());
    token.give_tokens_to(&"voter".to_string(), 10).unwrap();
    token.stake(&"voter".to_string(), 10).unwrap();
    let mut s = NewsStorage::new("ft.token".to_string(), "owner".to_string());
    s.add("h1".to_string(), "b1".to_string(), "u1".to_string(), "creator".to_string());
    (s, token)
}

#[test]
fn initiate_carries_the_pending_context() {
    let (s, _) = setup();
    let q = s.vote(0, true, "voter".to_string()).unwrap();
    assert_eq!(q.ft_account, "ft.token".to_string());
    assert_eq!(q.pending.record_index, 0);
    assert_eq!(q.pending.voter, "voter".to_string());
    assert!(q.pending.is_like);
}

#[test]
fn initiate_rejects_bad_index_and_known_voter() {
    let (mut s, token) = setup();
    assert!(matches!(s.vote(1, true, "voter".to_string()), Err(Error::OutOfRange)));
    let q = s.vote(0, true, "voter".to_string()).unwrap();
    let answer = token.get_power(q.pending.voter.clone());
    s.callback_promise_result(q.pending, CallResult::Successful(answer)).unwrap();
    assert!(matches!(s.vote(0, false, "voter".to_string()), Err(Error::AlreadyVoted)));
}

#[test]
fn racing_initiations_commit_only_once() {
    let (mut s, token) = setup();
    // both initiations pass the local check: the first commit has not landed
    let q1 = s.vote(0, true, "voter".to_string()).unwrap();
    let q2 = s.vote(0, true, "voter".to_string()).unwrap();
    let a1 = token.get_power(q1.pending.voter.clone());
    let a2 = token.get_power(q2.pending.voter.clone());
    assert_eq!(s.callback_promise_result(q1.pending, CallResult::Successful(a1)), Ok(()));
    // the second commit loses the commit-time re-check; lost work, no corruption
    assert_eq!(
        s.callback_promise_result(q2.pending, CallResult::Successful(a2)),
        Err(Error::AlreadyVoted),
    );
    let n = s.get_by_index(0).unwrap();
    assert_eq!(n.like, 1);
    assert_eq!(n.dislike, 0);
    assert_eq!(n.voted, vec!["voter".to_string()]);
}

#[test]
fn unauthorized_answer_commits_nothing() {
    let (mut s, token) = setup();
    let q = s.vote(0, true, "stranger".to_string()).unwrap();
    let answer = token.get_power(q.pending.voter.clone());
    assert!(!answer);
    assert_eq!(
        s.callback_promise_result(q.pending, CallResult::Successful(answer)),
        Err(Error::Unauthorized),
    );
    let n = s.get_by_index(0).unwrap();
    assert_eq!(n.like, 0);
    assert_eq!(n.dislike, 0);
    assert!(n.voted.is_empty());
}

#[test]
fn failed_call_aborts_the_attempt() {
    let (mut s, _) = setup();
    let q = s.vote(0, true, "voter".to_string()).unwrap();
    assert_eq!(
        s.callback_promise_result(q.pending, CallResult::Failed),
        Err(Error::CallFailure),
    );
    let n = s.get_by_index(0).unwrap();
    assert_eq!(n.like, 0);
    assert!(n.voted.is_empty());
    // the attempt is aborted, but a fresh attempt may be initiated and commit
    let q = s.vote(0, true, "voter".to_string()).unwrap();
    assert_eq!(s.callback_promise_result(q.pending, CallResult::Successful(true)), Ok(()));
    assert_eq!(s.get_by_index(0).unwrap().like, 1);
}

#[test]
fn power_lost_between_initiate_and_answer() {
    let (mut s, mut token) = setup();
    let q = s.vote(0, true, "voter".to_string()).unwrap();
    // the voter unstakes everything while the request is in flight
    token.unstake(&"voter".to_string(), 10).unwrap();
    let answer = token.get_power(q.pending.voter.clone());
    assert_eq!(
        s.callback_promise_result(q.pending, CallResult::Successful(answer)),
        Err(Error::Unauthorized),
    );
    assert_eq!(s.get_by_index(0).unwrap().like, 0);
}
