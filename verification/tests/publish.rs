use fakeless::Error;
use fakeless::news::LIKES_FOR_PUBLISH;
use fakeless::news::NewsStorage;

fn store_with_liked_record() -> NewsStorage {
    let mut s = NewsStorage::new("ft.token".to_string(), "owner".to_string());
    s.add("h1".to_string(), "b1".to_string(), "u1".to_string(), "creator".to_string());
    assert_eq!(s.apply_vote(0, "fan".to_string(), true), Ok(()));
    s
}

#[test]
fn publish_out_of_range() {
    let mut s = store_with_liked_record();
    assert!(matches!(s.nft_mint(1, "creator".to_string()), Err(Error::OutOfRange)));
}

#[test]
fn publish_below_threshold() {
    let mut s = NewsStorage::new("ft.token".to_string(), "owner".to_string());
    s.add("h1".to_string(), "b1".to_string(), "u1".to_string(), "creator".to_string());
    assert_eq!(LIKES_FOR_PUBLISH, 1);
    assert!(matches!(s.nft_mint(0, "creator".to_string()), Err(Error::BelowThreshold)));
    assert!(!s.get_by_index(0).unwrap().published);
    // dislikes do not count toward the threshold
    assert_eq!(s.apply_vote(0, "critic".to_string(), false), Ok(()));
    assert!(matches!(s.nft_mint(0, "creator".to_string()), Err(Error::BelowThreshold)));
}

#[test]
fn publish_requires_the_creator() {
    let mut s = store_with_liked_record();
    assert!(matches!(s.nft_mint(0, "fan".to_string()), Err(Error::NotCreator)));
    assert!(!s.get_by_index(0).unwrap().published);
}

#[test]
fn publish_mints_once_for_the_creator() {
    let mut s = store_with_liked_record();
    let t = s.nft_mint(0, "creator".to_string()).unwrap();
    assert_eq!(t.token_id, 1);
    assert_eq!(t.owner_id, "creator".to_string());
    assert_eq!(t.metadata.title, Some("h1".to_string()));
    assert_eq!(t.metadata.description, Some("b1".to_string()));
    assert_eq!(t.metadata.media, None);
    assert_eq!(t.metadata.copies, Some(1));
    assert!(s.get_by_index(0).unwrap().published);
    // the transition is one-time: a second publish is refused
    assert!(matches!(s.nft_mint(0, "creator".to_string()), Err(Error::AlreadyPublished)));
    assert!(s.get_by_index(0).unwrap().published);
}

#[test]
fn publish_checks_run_in_order() {
    let mut s = NewsStorage::new("ft.token".to_string(), "owner".to_string());
    s.add("h1".to_string(), "b1".to_string(), "u1".to_string(), "creator".to_string());
    // with no likes, the threshold check answers before the creator check
    assert!(matches!(s.nft_mint(0, "fan".to_string()), Err(Error::BelowThreshold)));
}

#[test]
fn records_publish_independently() {
    let mut s = NewsStorage::new("ft.token".to_string(), "owner".to_string());
    s.add("h1".to_string(), "b1".to_string(), "u1".to_string(), "creator".to_string());
    s.add("h2".to_string(), "b2".to_string(), "u2".to_string(), "creator".to_string());
    assert_eq!(s.apply_vote(1, "fan".to_string(), true), Ok(()));
    let t = s.nft_mint(1, "creator".to_string()).unwrap();
    assert_eq!(t.token_id, 2);
    assert!(!s.get_by_index(0).unwrap().published);
    assert!(s.get_by_index(1).unwrap().published);
}
