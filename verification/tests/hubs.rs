use solana_mq::ErrorCode;
use solana_mq::Identity;
use solana_mq::auth::AuthPolicy;
use solana_mq::matching::MatchPolicy;
use solana_mq::registry::CloseHub;
use solana_mq::registry::CreateHub;
use solana_mq::registry::Registry;
use solana_mq::registry::RelayConfig;
use solana_mq::registry::Subscribe;

fn prefix_registry() -> Registry {
    Registry::new(RelayConfig {
        match_policy: MatchPolicy::Prefix,
        auth_policy: AuthPolicy::OwnerSignature,
    })
}

fn id(n: u64) -> Identity {
    Identity { id: n }
}

#[test]
fn create_hub_sets_fields() {
    let mut registry = prefix_registry();
    assert_eq!(
        registry.create_hub(CreateHub { rent_payer: id(7), now: 1234 }),
        Ok(())
    );
    assert_eq!(registry.hubs.len(), 1);
    assert_eq!(registry.hubs[0].owner, id(7));
    assert_eq!(registry.hubs[0].created_at, 1234);
    assert!(registry.hubs[0].subscribers.is_empty());
}

#[test]
fn second_create_for_same_owner_collides() {
    let mut registry = prefix_registry();
    assert_eq!(registry.create_hub(CreateHub { rent_payer: id(7), now: 1 }), Ok(()));
    assert_eq!(
        registry.create_hub(CreateHub { rent_payer: id(7), now: 2 }),
        Err(ErrorCode::HubAlreadyExists)
    );
    assert_eq!(registry.hubs.len(), 1);
    assert_eq!(registry.hubs[0].created_at, 1);
}

#[test]
fn close_by_other_identity_unauthorized() {
    let mut registry = prefix_registry();
    assert_eq!(registry.create_hub(CreateHub { rent_payer: id(7), now: 1 }), Ok(()));
    assert_eq!(
        registry.close_hub(CloseHub { rent_payer: id(8), hub_owner: id(7) }),
        Err(ErrorCode::Unauthorized)
    );
    assert_eq!(registry.hubs.len(), 1);
}

#[test]
fn close_then_recreate_succeeds() {
    let mut registry = prefix_registry();
    assert_eq!(registry.create_hub(CreateHub { rent_payer: id(7), now: 1 }), Ok(()));
    assert_eq!(
        registry.close_hub(CloseHub { rent_payer: id(7), hub_owner: id(7) }),
        Ok(())
    );
    assert_eq!(registry.hubs.len(), 0);
    assert_eq!(registry.create_hub(CreateHub { rent_payer: id(7), now: 2 }), Ok(()));
    assert_eq!(registry.hubs[0].created_at, 2);
}

#[test]
fn close_missing_hub_not_found() {
    let mut registry = prefix_registry();
    assert_eq!(
        registry.close_hub(CloseHub { rent_payer: id(7), hub_owner: id(7) }),
        Err(ErrorCode::HubNotFound)
    );
}

#[test]
fn subscribe_missing_hub_not_found() {
    let mut registry = prefix_registry();
    assert_eq!(
        registry.subscribe(Subscribe { subscriber: id(5), hub_owner: id(7) }, b"orders".to_vec()),
        Err(ErrorCode::HubNotFound)
    );
}

#[test]
fn subscribe_records_entry() {
    let mut registry = prefix_registry();
    assert_eq!(registry.create_hub(CreateHub { rent_payer: id(7), now: 1 }), Ok(()));
    assert_eq!(
        registry.subscribe(Subscribe { subscriber: id(5), hub_owner: id(7) }, b"orders".to_vec()),
        Ok(())
    );
    assert_eq!(registry.hubs[0].subscribers.len(), 1);
    assert_eq!(registry.hubs[0].subscribers[0].subscriber, id(5));
    assert_eq!(registry.hubs[0].subscribers[0].topic, b"orders".to_vec());
}

#[test]
fn duplicate_subscribe_is_noop() {
    let mut registry = prefix_registry();
    assert_eq!(registry.create_hub(CreateHub { rent_payer: id(7), now: 1 }), Ok(()));
    let request = Subscribe { subscriber: id(5), hub_owner: id(7) };
    assert_eq!(registry.subscribe(request, b"orders".to_vec()), Ok(()));
    assert_eq!(registry.subscribe(request, b"orders".to_vec()), Ok(()));
    assert_eq!(registry.hubs[0].subscribers.len(), 1);
}

#[test]
fn same_subscriber_two_topics_two_entries() {
    let mut registry = prefix_registry();
    assert_eq!(registry.create_hub(CreateHub { rent_payer: id(7), now: 1 }), Ok(()));
    let request = Subscribe { subscriber: id(5), hub_owner: id(7) };
    assert_eq!(registry.subscribe(request, b"orders".to_vec()), Ok(()));
    assert_eq!(registry.subscribe(request, b"invoices".to_vec()), Ok(()));
    assert_eq!(registry.hubs[0].subscribers.len(), 2);
}

#[test]
fn subscribe_long_topic_rejected() {
    let mut registry = prefix_registry();
    assert_eq!(registry.create_hub(CreateHub { rent_payer: id(7), now: 1 }), Ok(()));
    assert_eq!(
        registry.subscribe(Subscribe { subscriber: id(5), hub_owner: id(7) }, vec![b'x'; 65]),
        Err(ErrorCode::TopicNameTooLong)
    );
    assert!(registry.hubs[0].subscribers.is_empty());
}

#[test]
fn remove_subscription_deletes_entry() {
    let mut registry = prefix_registry();
    assert_eq!(registry.create_hub(CreateHub { rent_payer: id(7), now: 1 }), Ok(()));
    let request = Subscribe { subscriber: id(5), hub_owner: id(7) };
    assert_eq!(registry.subscribe(request, b"a".to_vec()), Ok(()));
    assert_eq!(registry.subscribe(request, b"b".to_vec()), Ok(()));
    assert_eq!(registry.subscribe(request, b"c".to_vec()), Ok(()));
    assert_eq!(registry.remove_subscription(request, &b"b".to_vec()), Ok(()));
    assert_eq!(registry.hubs[0].subscribers.len(), 2);
    assert_eq!(registry.hubs[0].subscribers[0].topic, b"a".to_vec());
    assert_eq!(registry.hubs[0].subscribers[1].topic, b"c".to_vec());
}

#[test]
fn remove_absent_subscription_not_found() {
    let mut registry = prefix_registry();
    assert_eq!(registry.create_hub(CreateHub { rent_payer: id(7), now: 1 }), Ok(()));
    let request = Subscribe { subscriber: id(5), hub_owner: id(7) };
    assert_eq!(registry.subscribe(request, b"a".to_vec()), Ok(()));
    assert_eq!(
        registry.remove_subscription(request, &b"b".to_vec()),
        Err(ErrorCode::SubscriptionNotFound)
    );
    let other = Subscribe { subscriber: id(6), hub_owner: id(7) };
    assert_eq!(
        registry.remove_subscription(other, &b"a".to_vec()),
        Err(ErrorCode::SubscriptionNotFound)
    );
    assert_eq!(registry.hubs[0].subscribers.len(), 1);
}

#[test]
fn remove_subscription_missing_hub_not_found() {
    let mut registry = prefix_registry();
    assert_eq!(
        registry.remove_subscription(
            Subscribe { subscriber: id(5), hub_owner: id(7) },
            &b"a".to_vec()
        ),
        Err(ErrorCode::HubNotFound)
    );
}

#[test]
fn subscription_capacity_boundary() {
    let mut registry = prefix_registry();
    assert_eq!(registry.create_hub(CreateHub { rent_payer: id(7), now: 1 }), Ok(()));
    for n in 0..64u64 {
        assert_eq!(
            registry.subscribe(Subscribe { subscriber: id(100 + n), hub_owner: id(7) }, b"t".to_vec()),
            Ok(())
        );
    }
    assert_eq!(registry.hubs[0].subscribers.len(), 64);
    assert_eq!(
        registry.subscribe(Subscribe { subscriber: id(500), hub_owner: id(7) }, b"t".to_vec()),
        Err(ErrorCode::SubscriptionLimitReached)
    );
    // A duplicate of an existing pair is still a silent no-op on a full hub.
    assert_eq!(
        registry.subscribe(Subscribe { subscriber: id(100), hub_owner: id(7) }, b"t".to_vec()),
        Ok(())
    );
    assert_eq!(registry.hubs[0].subscribers.len(), 64);
}
