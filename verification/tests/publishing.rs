use solana_mq::ErrorCode;
use solana_mq::Identity;
use solana_mq::auth::AuthPolicy;
use solana_mq::auth::PUBLISH_CAPABILITY_TAG;
use solana_mq::auth::derive_token;
use solana_mq::auth::hub_address;
use solana_mq::matching::MatchPolicy;
use solana_mq::matching::topic_matches;
use solana_mq::registry::CreateHub;
use solana_mq::registry::Publish;
use solana_mq::registry::Registry;
use solana_mq::registry::RelayConfig;
use solana_mq::registry::Subscribe;

fn registry_with(policy: MatchPolicy, auth: AuthPolicy) -> Registry {
    let mut registry = Registry::new(RelayConfig { match_policy: policy, auth_policy: auth });
    assert_eq!(registry.create_hub(CreateHub { rent_payer: id(7), now: 1 }), Ok(()));
    registry
}

fn id(n: u64) -> Identity {
    Identity { id: n }
}

fn open_publish() -> Publish {
    Publish { publisher: id(9), hub_owner: id(7), capability: None }
}

#[test]
fn prefix_match_notifies_subscriber() {
    let mut registry = registry_with(MatchPolicy::Prefix, AuthPolicy::OwnerSignature);
    assert_eq!(
        registry.subscribe(Subscribe { subscriber: id(5), hub_owner: id(7) }, b"orders".to_vec()),
        Ok(())
    );
    let events = registry
        .publish(open_publish(), &b"orders.created".to_vec(), &b"m".to_vec())
        .unwrap();
    assert_eq!(events.len(), 1);
    assert_eq!(events[0].subscriber, id(5));

    let events = registry
        .publish(open_publish(), &b"order".to_vec(), &b"m".to_vec())
        .unwrap();
    assert!(events.is_empty());
}

#[test]
fn prefix_match_includes_exact_topic() {
    let mut registry = registry_with(MatchPolicy::Prefix, AuthPolicy::OwnerSignature);
    assert_eq!(
        registry.subscribe(Subscribe { subscriber: id(5), hub_owner: id(7) }, b"orders".to_vec()),
        Ok(())
    );
    let events = registry
        .publish(open_publish(), &b"orders".to_vec(), &b"m".to_vec())
        .unwrap();
    assert_eq!(events.len(), 1);
}

#[test]
fn exact_match_policy_requires_equality() {
    let mut registry = registry_with(MatchPolicy::Exact, AuthPolicy::OwnerSignature);
    assert_eq!(
        registry.subscribe(Subscribe { subscriber: id(5), hub_owner: id(7) }, b"orders".to_vec()),
        Ok(())
    );
    let events = registry
        .publish(open_publish(), &b"orders".to_vec(), &b"m".to_vec())
        .unwrap();
    assert_eq!(events.len(), 1);
    let events = registry
        .publish(open_publish(), &b"orders.created".to_vec(), &b"m".to_vec())
        .unwrap();
    assert!(events.is_empty());
}

#[test]
fn topic_matches_boundary_cases() {
    assert!(topic_matches(MatchPolicy::Prefix, &b"orders".to_vec(), &b"".to_vec()));
    assert!(topic_matches(MatchPolicy::Prefix, &b"orders".to_vec(), &b"orders".to_vec()));
    assert!(!topic_matches(MatchPolicy::Prefix, &b"order".to_vec(), &b"orders".to_vec()));
    assert!(!topic_matches(MatchPolicy::Exact, &b"orders".to_vec(), &b"order".to_vec()));
    assert!(topic_matches(MatchPolicy::Exact, &b"".to_vec(), &b"".to_vec()));
}

#[test]
fn long_message_rejected_despite_matches() {
    let mut registry = registry_with(MatchPolicy::Prefix, AuthPolicy::OwnerSignature);
    assert_eq!(
        registry.subscribe(Subscribe { subscriber: id(5), hub_owner: id(7) }, b"t".to_vec()),
        Ok(())
    );
    let message = vec![0u8; 257];
    assert_eq!(
        registry.publish(open_publish(), &b"t".to_vec(), &message),
        Err(ErrorCode::MessageTooLong)
    );
}

#[test]
fn message_at_length_bound_accepted() {
    let mut registry = registry_with(MatchPolicy::Prefix, AuthPolicy::OwnerSignature);
    assert_eq!(
        registry.subscribe(Subscribe { subscriber: id(5), hub_owner: id(7) }, b"t".to_vec()),
        Ok(())
    );
    let message = vec![0u8; 256];
    let events = registry
        .publish(open_publish(), &b"t".to_vec(), &message)
        .unwrap();
    assert_eq!(events.len(), 1);
    assert_eq!(events[0].message, message);
}

#[test]
fn long_published_topic_rejected() {
    let registry = registry_with(MatchPolicy::Prefix, AuthPolicy::OwnerSignature);
    let topic = vec![b'x'; 65];
    assert_eq!(
        registry.publish(open_publish(), &topic, &b"m".to_vec()),
        Err(ErrorCode::TopicNameTooLong)
    );
}

#[test]
fn publish_into_missing_hub_not_found() {
    let registry = Registry::new(RelayConfig {
        match_policy: MatchPolicy::Prefix,
        auth_policy: AuthPolicy::OwnerSignature,
    });
    assert_eq!(
        registry.publish(open_publish(), &b"t".to_vec(), &b"m".to_vec()),
        Err(ErrorCode::HubNotFound)
    );
}

#[test]
fn capability_token_gates_publish() {
    let mut registry = registry_with(MatchPolicy::Prefix, AuthPolicy::CapabilityToken);
    assert_eq!(
        registry.subscribe(Subscribe { subscriber: id(5), hub_owner: id(7) }, b"t".to_vec()),
        Ok(())
    );
    let no_token = Publish { publisher: id(9), hub_owner: id(7), capability: None };
    assert_eq!(
        registry.publish(no_token, &b"t".to_vec(), &b"m".to_vec()),
        Err(ErrorCode::Unauthorized)
    );
    let wrong = Publish { publisher: id(9), hub_owner: id(7), capability: Some(12345) };
    assert_eq!(
        registry.publish(wrong, &b"t".to_vec(), &b"m".to_vec()),
        Err(ErrorCode::Unauthorized)
    );
    let token = derive_token(hub_address(id(7)), PUBLISH_CAPABILITY_TAG);
    let right = Publish { publisher: id(9), hub_owner: id(7), capability: Some(token) };
    let events = registry.publish(right, &b"t".to_vec(), &b"m".to_vec()).unwrap();
    assert_eq!(events.len(), 1);
}

#[test]
fn event_carries_all_fields() {
    let mut registry = registry_with(MatchPolicy::Prefix, AuthPolicy::OwnerSignature);
    assert_eq!(
        registry.subscribe(Subscribe { subscriber: id(5), hub_owner: id(7) }, b"or".to_vec()),
        Ok(())
    );
    let request = Publish { publisher: id(9), hub_owner: id(7), capability: None };
    let events = registry.publish(request, &b"orders".to_vec(), &b"hello".to_vec()).unwrap();
    assert_eq!(events.len(), 1);
    assert_eq!(events[0].hub, hub_address(id(7)));
    assert_eq!(events[0].publisher, id(9));
    assert_eq!(events[0].subscriber, id(5));
    assert_eq!(events[0].topic, b"orders".to_vec());
    assert_eq!(events[0].message, b"hello".to_vec());
}

#[test]
fn matches_come_in_subscriber_list_order() {
    let mut registry = registry_with(MatchPolicy::Prefix, AuthPolicy::OwnerSignature);
    assert_eq!(
        registry.subscribe(Subscribe { subscriber: id(1), hub_owner: id(7) }, b"a".to_vec()),
        Ok(())
    );
    assert_eq!(
        registry.subscribe(Subscribe { subscriber: id(2), hub_owner: id(7) }, b"ab".to_vec()),
        Ok(())
    );
    assert_eq!(
        registry.subscribe(Subscribe { subscriber: id(3), hub_owner: id(7) }, b"b".to_vec()),
        Ok(())
    );
    let events = registry
        .publish(open_publish(), &b"abc".to_vec(), &b"m".to_vec())
        .unwrap();
    assert_eq!(events.len(), 2);
    assert_eq!(events[0].subscriber, id(1));
    assert_eq!(events[1].subscriber, id(2));
}

#[test]
fn publish_without_matches_emits_nothing() {
    let mut registry = registry_with(MatchPolicy::Prefix, AuthPolicy::OwnerSignature);
    assert_eq!(
        registry.subscribe(Subscribe { subscriber: id(5), hub_owner: id(7) }, b"orders".to_vec()),
        Ok(())
    );
    let events = registry
        .publish(open_publish(), &b"invoices".to_vec(), &b"m".to_vec())
        .unwrap();
    assert!(events.is_empty());
}
