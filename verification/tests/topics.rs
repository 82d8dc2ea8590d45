use solana_mq::ErrorCode;
use solana_mq::Identity;
use solana_mq::topics::TopicSet;

fn owner() -> Identity {
    Identity { id: 1 }
}

#[test]
fn create_then_lookup_shows_topic() {
    let mut ts = TopicSet::initialise(owner());
    assert_eq!(ts.create_topic(b"orders".to_vec()), Ok(()));
    assert!(ts.contains_topic(&b"orders".to_vec()));
    assert_eq!(
        ts.create_topic(b"orders".to_vec()),
        Err(ErrorCode::TopicAlreadyExists)
    );
    assert_eq!(ts.count(), 1);
}

#[test]
fn long_name_always_rejected() {
    let mut ts = TopicSet::initialise(owner());
    let long = vec![b'x'; 65];
    assert_eq!(ts.create_topic(long.clone()), Err(ErrorCode::TopicNameTooLong));
    for i in 0..10u8 {
        assert_eq!(ts.create_topic(vec![i]), Ok(()));
    }
    assert_eq!(ts.create_topic(long), Err(ErrorCode::TopicNameTooLong));
    assert_eq!(ts.count(), 10);
}

#[test]
fn name_at_length_bound_accepted() {
    let mut ts = TopicSet::initialise(owner());
    let name = vec![b'y'; 64];
    assert_eq!(ts.create_topic(name.clone()), Ok(()));
    assert!(ts.contains_topic(&name));
}

#[test]
fn empty_name_accepted_once() {
    let mut ts = TopicSet::initialise(owner());
    assert_eq!(ts.create_topic(Vec::new()), Ok(()));
    assert!(ts.contains_topic(&Vec::new()));
    assert_eq!(ts.create_topic(Vec::new()), Err(ErrorCode::TopicAlreadyExists));
}

#[test]
fn capacity_boundary() {
    let mut ts = TopicSet::initialise(owner());
    for i in 0..128u8 {
        assert_eq!(ts.create_topic(vec![i]), Ok(()));
    }
    assert_eq!(ts.count(), 128);
    assert_eq!(ts.create_topic(vec![200]), Err(ErrorCode::TopicLimitReached));
    assert_eq!(ts.remove_topic(&vec![5u8]), Ok(()));
    assert_eq!(ts.create_topic(vec![200]), Ok(()));
    assert_eq!(ts.create_topic(vec![201]), Err(ErrorCode::TopicLimitReached));
    assert_eq!(ts.count(), 128);
}

#[test]
fn duplicate_reported_even_when_full() {
    let mut ts = TopicSet::initialise(owner());
    for i in 0..128u8 {
        assert_eq!(ts.create_topic(vec![i]), Ok(()));
    }
    assert_eq!(ts.create_topic(vec![5]), Err(ErrorCode::TopicAlreadyExists));
}

#[test]
fn remove_absent_not_found() {
    let mut ts = TopicSet::initialise(owner());
    assert_eq!(ts.create_topic(b"a".to_vec()), Ok(()));
    assert_eq!(ts.create_topic(b"b".to_vec()), Ok(()));
    let before = ts.topics.clone();
    assert_eq!(ts.remove_topic(&b"c".to_vec()), Err(ErrorCode::TopicNotFound));
    assert_eq!(ts.topics, before);
}

#[test]
fn remove_keeps_relative_order() {
    let mut ts = TopicSet::initialise(owner());
    assert_eq!(ts.create_topic(b"a".to_vec()), Ok(()));
    assert_eq!(ts.create_topic(b"b".to_vec()), Ok(()));
    assert_eq!(ts.create_topic(b"c".to_vec()), Ok(()));
    assert_eq!(ts.remove_topic(&b"b".to_vec()), Ok(()));
    assert_eq!(ts.topics, vec![b"a".to_vec(), b"c".to_vec()]);
    assert!(!ts.contains_topic(&b"b".to_vec()));
}
