use fakeless::Error;
use fakeless::news::NewsStorage;

fn store() -> NewsStorage {
    NewsStorage::new("ft.token".to_string(), "owner".to_string())
}

#[test]
fn submit_assigns_sequential_ids_and_zeroed_state() {
    let mut s = store();
    s.add("h1".to_string(), "b1".to_string(), "u1".to_string(), "alice".to_string());
    s.add("h2".to_string(), "b2".to_string(), "u2".to_string(), "bob".to_string());
    let first = s.get_by_index(0).unwrap();
    assert_eq!(first.id, 1);
    assert_eq!(first.hash_head, "h1".to_string());
    assert_eq!(first.hash_body, "b1".to_string());
    assert_eq!(first.uri, "u1".to_string());
    assert_eq!(first.like, 0);
    assert_eq!(first.dislike, 0);
    assert!(first.voted.is_empty());
    assert_eq!(first.creator, "alice".to_string());
    assert!(!first.published);
    let second = s.get_by_index(1).unwrap();
    assert_eq!(second.id, 2);
    assert_eq!(second.creator, "bob".to_string());
}

#[test]
fn get_all_returns_every_record_in_order() {
    let mut s = store();
    assert!(s.get_all().is_empty());
    s.add("h1".to_string(), "b1".to_string(), "u1".to_string(), "alice".to_string());
    s.add("h2".to_string(), "b2".to_string(), "u2".to_string(), "alice".to_string());
    let all = s.get_all();
    assert_eq!(all.len(), 2);
    assert_eq!(all[0].id, 1);
    assert_eq!(all[1].id, 2);
    assert_eq!(all[1].hash_head, "h2".to_string());
}

#[test]
fn get_by_index_out_of_range() {
    let s = store();
    assert!(matches!(s.get_by_index(0), Err(Error::OutOfRange)));
}

#[test]
fn apply_vote_out_of_range() {
    let mut s = store();
    assert_eq!(s.apply_vote(0, "bob".to_string(), true), Err(Error::OutOfRange));
}

#[test]
fn apply_vote_at_most_once_per_account() {
    let mut s = store();
    s.add("h1".to_string(), "b1".to_string(), "u1".to_string(), "alice".to_string());
    assert_eq!(s.apply_vote(0, "bob".to_string(), true), Ok(()));
    assert_eq!(s.apply_vote(0, "bob".to_string(), true), Err(Error::AlreadyVoted));
    assert_eq!(s.apply_vote(0, "bob".to_string(), false), Err(Error::AlreadyVoted));
    let n = s.get_by_index(0).unwrap();
    assert_eq!(n.like, 1);
    assert_eq!(n.dislike, 0);
    assert_eq!(n.voted, vec!["bob".to_string()]);
}

#[test]
fn voter_set_size_equals_counters_at_quiescence() {
    let mut s = store();
    s.add("h1".to_string(), "b1".to_string(), "u1".to_string(), "alice".to_string());
    assert_eq!(s.apply_vote(0, "bob".to_string(), true), Ok(()));
    assert_eq!(s.apply_vote(0, "carol".to_string(), false), Ok(()));
    assert_eq!(s.apply_vote(0, "dave".to_string(), true), Ok(()));
    let n = s.get_by_index(0).unwrap();
    assert_eq!(n.like, 2);
    assert_eq!(n.dislike, 1);
    assert_eq!(n.voted.len(), (n.like + n.dislike) as usize);
}

#[test]
fn upvote_and_downvote_share_the_voter_set() {
    let mut s = store();
    s.add("h1".to_string(), "b1".to_string(), "u1".to_string(), "alice".to_string());
    assert_eq!(s.upvote(0, "bob".to_string()), Ok(()));
    assert_eq!(s.downvote(0, "bob".to_string()), Err(Error::AlreadyVoted));
    assert_eq!(s.downvote(0, "carol".to_string()), Ok(()));
    assert_eq!(s.upvote(1, "bob".to_string()), Err(Error::OutOfRange));
    let n = s.get_by_index(0).unwrap();
    assert_eq!(n.like, 1);
    assert_eq!(n.dislike, 1);
    assert_eq!(n.voted, vec!["bob".to_string(), "carol".to_string()]);
}

#[test]
fn votes_on_different_records_are_independent() {
    let mut s = store();
    s.add("h1".to_string(), "b1".to_string(), "u1".to_string(), "alice".to_string());
    s.add("h2".to_string(), "b2".to_string(), "u2".to_string(), "alice".to_string());
    assert_eq!(s.apply_vote(0, "bob".to_string(), true), Ok(()));
    assert_eq!(s.apply_vote(1, "bob".to_string(), true), Ok(()));
    assert_eq!(s.get_by_index(0).unwrap().like, 1);
    assert_eq!(s.get_by_index(1).unwrap().like, 1);
}
