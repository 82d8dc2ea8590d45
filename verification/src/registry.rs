//! The registry store: the explicit keyed store of hub records.
//!
//! Owners map to hub records deterministically: one record per owner, a
//! second creation for the same owner rejected as a collision, and the
//! record resolvable again for a fresh creation once it has been closed.
//! The store enforces the structural invariants of every record it holds on
//! every mutation, and every mutation is atomic: a rejected call leaves the
//! store exactly as it was.

use vstd::prelude::*;

use crate::ErrorCode;
use crate::Identity;
use crate::MAX_MESSAGE_LEN;
use crate::MAX_TOPIC_NAME_LEN;
use crate::auth::AuthPolicy;
use crate::auth::hub_address;
use crate::auth::publish_authorized;
use crate::auth::spec_hub_address;
use crate::auth::spec_publish_authorized;
use crate::emitter::Publication;
use crate::emitter::PublicationView;
use crate::emitter::emit_publications;
use crate::emitter::publications_view;
use crate::emitter::spec_publications;
use crate::hub::Hub;
use crate::hub::HubView;
use crate::hub::hub_wf;
use crate::hub::lemma_subscribe_preserves_wf;
use crate::hub::lemma_unsubscribe_preserves_wf;
use crate::hub::spec_subscribe_result;
use crate::hub::spec_subscribe_state;
use crate::hub::spec_unsubscribe_result;
use crate::hub::spec_unsubscribe_state;
use crate::hub::subs_view;
use crate::matching::MatchPolicy;
use crate::matching::match_subscribers;
use crate::matching::spec_matches;

verus! {

/// Whether some record in `s` belongs to `owner`.
pub open spec fn has_owner(s: Seq<HubView>, owner: Identity) -> bool {
    exists|i: int| 0 <= i < s.len() && s[i].owner == owner
}

/// The index of `owner`'s record in `s`; meaningful when `has_owner` holds
/// and the owners in `s` are distinct.
pub open spec fn owner_index(s: Seq<HubView>, owner: Identity) -> int {
    choose|i: int| 0 <= i < s.len() && s[i].owner == owner
}

/// Whether no two records in `s` share an owner.
pub open spec fn owners_unique(s: Seq<HubView>) -> bool {
    forall|i: int, j: int| 0 <= i < j < s.len() ==> s[i].owner != s[j].owner
}

/// The keyed store a record sequence denotes: the finite map from each
/// owner present to that owner's record.
pub open spec fn map_of(s: Seq<HubView>) -> Map<Identity, HubView> {
    Map::new(|owner: Identity| has_owner(s, owner), |owner: Identity| s[owner_index(s, owner)])
}

/// With distinct owners, the record at any index is the one its owner maps
/// to.
pub proof fn lemma_owner_index(s: Seq<HubView>, i: int)
    requires
        owners_unique(s),
        0 <= i < s.len(),
    ensures
        has_owner(s, s[i].owner),
        owner_index(s, s[i].owner) == i,
        map_of(s).dom().contains(s[i].owner),
        map_of(s)[s[i].owner] == s[i],
{
    assert(has_owner(s, s[i].owner));
    let j = owner_index(s, s[i].owner);
    assert(0 <= j < s.len() && s[j].owner == s[i].owner);
    if i != j {
        assert(s[i].owner != s[j].owner);
    }
}

/// Appending a record for a new owner inserts it into the keyed store.
pub proof fn lemma_map_of_push(s: Seq<HubView>, hub: HubView)
    requires
        owners_unique(s),
        !has_owner(s, hub.owner),
    ensures
        owners_unique(s.push(hub)),
        map_of(s.push(hub)) == map_of(s).insert(hub.owner, hub),
{
    let s2 = s.push(hub);
    assert forall|i: int, j: int| 0 <= i < j < s2.len() implies s2[i].owner != s2[j].owner by {
        if j == s.len() {
            assert(s2[i] == s[i]);
            if s2[i].owner == hub.owner {
                assert(has_owner(s, hub.owner));
            }
        }
    }
    assert forall|k: Identity| #[trigger] has_owner(s2, k) == (has_owner(s, k) || k == hub.owner)
        by {
        if has_owner(s2, k) {
            let i = choose|i: int| 0 <= i < s2.len() && s2[i].owner == k;
            if i < s.len() {
                assert(s[i].owner == k);
                assert(has_owner(s, k));
            }
        }
        if has_owner(s, k) {
            let i = choose|i: int| 0 <= i < s.len() && s[i].owner == k;
            assert(s2[i].owner == k);
            assert(has_owner(s2, k));
        }
        if k == hub.owner {
            assert(s2[s.len() as int].owner == k);
            assert(has_owner(s2, k));
        }
    }
    assert forall|k: Identity| has_owner(s2, k) implies map_of(s2)[k] == map_of(s).insert(
        hub.owner,
        hub,
    )[k] by {
        if k == hub.owner {
            lemma_owner_index(s2, s.len() as int);
        } else {
            let i = choose|i: int| 0 <= i < s.len() && s[i].owner == k;
            assert(s2[i].owner == k);
            lemma_owner_index(s2, i);
            lemma_owner_index(s, i);
        }
    }
    assert(map_of(s2) =~= map_of(s).insert(hub.owner, hub));
}

/// Removing the record at an index deletes its owner from the keyed store.
pub proof fn lemma_map_of_remove(s: Seq<HubView>, i: int)
    requires
        owners_unique(s),
        0 <= i < s.len(),
    ensures
        owners_unique(s.remove(i)),
        map_of(s.remove(i)) == map_of(s).remove(s[i].owner),
{
    let s2 = s.remove(i);
    assert forall|a: int, b: int| 0 <= a < b < s2.len() implies s2[a].owner != s2[b].owner by {
        assert(s2[a] == (if a < i { s[a] } else { s[a + 1] }));
        assert(s2[b] == (if b < i { s[b] } else { s[b + 1] }));
    }
    assert forall|k: Identity| #[trigger] has_owner(s2, k) == (has_owner(s, k) && k != s[i].owner)
        by {
        if has_owner(s2, k) {
            let a = choose|a: int| 0 <= a < s2.len() && s2[a].owner == k;
            let b: int = if a < i { a } else { a + 1 };
            assert(s[b].owner == k);
            assert(has_owner(s, k));
            if k == s[i].owner {
                lemma_owner_index(s, i);
                lemma_owner_index(s, b);
            }
        }
        if has_owner(s, k) && k != s[i].owner {
            let a = choose|a: int| 0 <= a < s.len() && s[a].owner == k;
            let b: int = if a < i { a } else { a - 1 };
            assert(s2[b].owner == k);
            assert(has_owner(s2, k));
        }
    }
    assert forall|k: Identity| has_owner(s2, k) implies map_of(s2)[k] == map_of(s).remove(
        s[i].owner,
    )[k] by {
        let a = choose|a: int| 0 <= a < s2.len() && s2[a].owner == k;
        let b: int = if a < i { a } else { a + 1 };
        assert(s2[a] == s[b]);
        lemma_owner_index(s2, a);
        lemma_owner_index(s, b);
    }
    assert(map_of(s2) =~= map_of(s).remove(s[i].owner));
}

/// Replacing the record at an index, keeping its owner, updates that
/// owner's record in the keyed store.
pub proof fn lemma_map_of_update(s: Seq<HubView>, i: int, hub: HubView)
    requires
        owners_unique(s),
        0 <= i < s.len(),
        hub.owner == s[i].owner,
    ensures
        owners_unique(s.update(i, hub)),
        map_of(s.update(i, hub)) == map_of(s).insert(hub.owner, hub),
{
    let s2 = s.update(i, hub);
    assert forall|a: int, b: int| 0 <= a < b < s2.len() implies s2[a].owner != s2[b].owner by {
        assert(s[a].owner != s[b].owner);
    }
    assert forall|k: Identity| #[trigger] has_owner(s2, k) == has_owner(s, k) by {
        if has_owner(s2, k) {
            let a = choose|a: int| 0 <= a < s2.len() && s2[a].owner == k;
            assert(s[a].owner == k);
            assert(has_owner(s, k));
        }
        if has_owner(s, k) {
            let a = choose|a: int| 0 <= a < s.len() && s[a].owner == k;
            assert(s2[a].owner == k);
            assert(has_owner(s2, k));
        }
    }
    assert forall|k: Identity| has_owner(s2, k) implies map_of(s2)[k] == map_of(s).insert(
        hub.owner,
        hub,
    )[k] by {
        if k == hub.owner {
            lemma_owner_index(s2, i);
        } else {
            let a = choose|a: int| 0 <= a < s2.len() && s2[a].owner == k;
            assert(s2[a] == s[a]);
            lemma_owner_index(s2, a);
            lemma_owner_index(s, a);
        }
    }
    assert(map_of(s2) =~= map_of(s).insert(hub.owner, hub));
}

/// The two policy choices of a deployment: how published topics are matched
/// and how publishing is authorized.
#[derive(Clone, Copy, Debug, PartialEq, Eq, Structural)]
pub struct RelayConfig {
    pub match_policy: MatchPolicy,
    pub auth_policy: AuthPolicy,
}

/// A request to create a hub: the identity paying for and owning the
/// record, and the creation timestamp the environment supplies.
#[derive(Clone, Copy, Debug, PartialEq, Eq, Structural)]
pub struct CreateHub {
    pub rent_payer: Identity,
    pub now: i64,
}

/// A request to close a hub and refund its backing resources: the calling
/// identity and the owner whose record is addressed.
#[derive(Clone, Copy, Debug, PartialEq, Eq, Structural)]
pub struct CloseHub {
    pub rent_payer: Identity,
    pub hub_owner: Identity,
}

/// A request to register a subscription in another identity's hub.
#[derive(Clone, Copy, Debug, PartialEq, Eq, Structural)]
pub struct Subscribe {
    pub subscriber: Identity,
    pub hub_owner: Identity,
}

/// A request to publish into a hub, optionally presenting a capability
/// token.
#[derive(Clone, Copy, Debug, PartialEq, Eq, Structural)]
pub struct Publish {
    pub publisher: Identity,
    pub hub_owner: Identity,
    pub capability: Option<u64>,
}

/// Invariant of a keyed store value: every record sits under its own
/// owner's key and satisfies the hub invariant.
pub open spec fn store_wf(m: Map<Identity, HubView>) -> bool {
    forall|owner: Identity| #[trigger]
        m.dom().contains(owner) ==> m[owner].owner == owner && hub_wf(m[owner])
}

/// What `create_hub` answers on a store with value `m`: a second creation
/// for an owner that already has a record collides.
pub open spec fn spec_create_hub_result(m: Map<Identity, HubView>, owner: Identity) -> Result<
    (),
    ErrorCode,
> {
    if m.dom().contains(owner) {
        Err(ErrorCode::HubAlreadyExists)
    } else {
        Ok(())
    }
}

/// The store after `create_hub`: a fresh, empty record for `owner` with
/// creation time `now`, exactly when the creation is accepted.
pub open spec fn spec_create_hub_state(
    m: Map<Identity, HubView>,
    owner: Identity,
    now: i64,
) -> Map<Identity, HubView> {
    if m.dom().contains(owner) {
        m
    } else {
        m.insert(
            owner,
            HubView { owner, created_at: now, subscribers: Seq::<(Identity, Seq<u8>)>::empty() },
        )
    }
}

/// What `close_hub` answers on a store with value `m`: only the stored
/// owner may close its record.
pub open spec fn spec_close_hub_result(
    m: Map<Identity, HubView>,
    caller: Identity,
    hub_owner: Identity,
) -> Result<(), ErrorCode> {
    if !m.dom().contains(hub_owner) {
        Err(ErrorCode::HubNotFound)
    } else if m[hub_owner].owner != caller {
        Err(ErrorCode::Unauthorized)
    } else {
        Ok(())
    }
}

/// The store after `close_hub`: the record is gone exactly when the close
/// is accepted; afterwards the owner's address is free for a fresh
/// creation.
pub open spec fn spec_close_hub_state(
    m: Map<Identity, HubView>,
    caller: Identity,
    hub_owner: Identity,
) -> Map<Identity, HubView> {
    if m.dom().contains(hub_owner) && m[hub_owner].owner == caller {
        m.remove(hub_owner)
    } else {
        m
    }
}

/// What `subscribe` answers on a store with value `m`: the hub must exist,
/// then the hub-level subscription rules decide.
pub open spec fn spec_subscribe_hub_result(
    m: Map<Identity, HubView>,
    hub_owner: Identity,
    subscriber: Identity,
    topic: Seq<u8>,
) -> Result<(), ErrorCode> {
    if !m.dom().contains(hub_owner) {
        Err(ErrorCode::HubNotFound)
    } else {
        spec_subscribe_result(m[hub_owner], subscriber, topic)
    }
}

/// The store after `subscribe`.
pub open spec fn spec_subscribe_hub_state(
    m: Map<Identity, HubView>,
    hub_owner: Identity,
    subscriber: Identity,
    topic: Seq<u8>,
) -> Map<Identity, HubView> {
    if !m.dom().contains(hub_owner) {
        m
    } else {
        m.insert(hub_owner, spec_subscribe_state(m[hub_owner], subscriber, topic))
    }
}

/// What `remove_subscription` answers on a store with value `m`: the hub
/// must exist and the exact pair must be registered.
pub open spec fn spec_remove_subscription_result(
    m: Map<Identity, HubView>,
    hub_owner: Identity,
    subscriber: Identity,
    topic: Seq<u8>,
) -> Result<(), ErrorCode> {
    if !m.dom().contains(hub_owner) {
        Err(ErrorCode::HubNotFound)
    } else {
        spec_unsubscribe_result(m[hub_owner], subscriber, topic)
    }
}

/// The store after `remove_subscription`.
pub open spec fn spec_remove_subscription_state(
    m: Map<Identity, HubView>,
    hub_owner: Identity,
    subscriber: Identity,
    topic: Seq<u8>,
) -> Map<Identity, HubView> {
    if !m.dom().contains(hub_owner) {
        m
    } else {
        m.insert(hub_owner, spec_unsubscribe_state(m[hub_owner], subscriber, topic))
    }
}

/// What `publish` answers on a store with value `m`.
///
/// The checks run in this order: the hub must exist, the authorization
/// guard must pass, then the topic length bound, then the message length
/// bound.  An accepted publish yields one event per matching subscriber in
/// subscriber-list order and changes no stored state; a rejected publish
/// emits nothing.
pub open spec fn spec_publish_result(
    m: Map<Identity, HubView>,
    config: RelayConfig,
    hub_owner: Identity,
    publisher: Identity,
    capability: Option<u64>,
    topic: Seq<u8>,
    message: Seq<u8>,
) -> Result<Seq<PublicationView>, ErrorCode> {
    if !m.dom().contains(hub_owner) {
        Err(ErrorCode::HubNotFound)
    } else if !spec_publish_authorized(config.auth_policy, spec_hub_address(hub_owner), capability) {
        Err(ErrorCode::Unauthorized)
    } else if topic.len() > MAX_TOPIC_NAME_LEN {
        Err(ErrorCode::TopicNameTooLong)
    } else if message.len() > MAX_MESSAGE_LEN {
        Err(ErrorCode::MessageTooLong)
    } else {
        Ok(
            spec_publications(
                spec_hub_address(hub_owner),
                publisher,
                spec_matches(config.match_policy, m[hub_owner].subscribers, topic),
                topic,
                message,
            ),
        )
    }
}

/// The keyed store of hub records, with the deployment's policy choices.
pub struct Registry {
    pub config: RelayConfig,
    pub hubs: Vec<Hub>,
}

impl View for Registry {
    type V = Map<Identity, HubView>;

    open spec fn view(&self) -> Map<Identity, HubView> {
        map_of(self.hub_views())
    }
}

impl Registry {
    /// The hub records as a sequence of mathematical values.
    pub open spec fn hub_views(&self) -> Seq<HubView> {
        Seq::new(self.hubs@.len(), |i: int| self.hubs@[i]@)
    }

    /// Structural invariant of the registry: no two records share an owner,
    /// and every record satisfies the hub invariant.
    pub open spec fn wf(&self) -> bool {
        &&& owners_unique(self.hub_views())
        &&& forall|i: int| 0 <= i < self.hub_views().len() ==> hub_wf(#[trigger] self.hub_views()[i])
    }

    /// An empty registry under the given policy configuration.
    pub fn new(config: RelayConfig) -> (registry: Registry)
        ensures
            registry.wf(),
            registry.config == config,
            registry@ == Map::<Identity, HubView>::empty(),
    {
        let registry = Registry { config, hubs: Vec::new() };
        proof {
            assert(registry.hub_views() =~= Seq::<HubView>::empty());
            assert forall|k: Identity| !has_owner(registry.hub_views(), k) by {}
            assert(registry@ =~= Map::<Identity, HubView>::empty());
        }
        registry
    }

    /// The index of `owner`'s record, if it has one.
    fn find_hub(&self, owner: Identity) -> (found: Option<usize>)
        ensures
            match found {
                Some(i) => i < self.hub_views().len() && self.hub_views()[i as int].owner == owner,
                None => !has_owner(self.hub_views(), owner),
            },
    {
        let mut i: usize = 0;
        while i < self.hubs.len()
            invariant
                i <= self.hubs@.len(),
                forall|j: int| 0 <= j < i ==> self.hub_views()[j].owner != owner,
            decreases self.hubs@.len() - i,
        {
            if self.hubs[i].owner == owner {
                return Some(i);
            }
            i += 1;
        }
        None
    }

    /// Allocates the record for `ctx.rent_payer`, initially empty, stamped
    /// with `ctx.now`.
    ///
    /// The same owner always addresses the same record, so a second
    /// creation for an owner that already has one fails with
    /// `HubAlreadyExists`.
    pub fn create_hub(&mut self, ctx: CreateHub) -> (result: Result<(), ErrorCode>)
        requires
            old(self).wf(),
        ensures
            final(self).wf(),
            final(self).config == old(self).config,
            result == spec_create_hub_result(old(self)@, ctx.rent_payer),
            final(self)@ == spec_create_hub_state(old(self)@, ctx.rent_payer, ctx.now),
    {
        match self.find_hub(ctx.rent_payer) {
            Some(i) => {
                proof {
                    lemma_owner_index(self.hub_views(), i as int);
                }
                Err(ErrorCode::HubAlreadyExists)
            },
            None => {
                let ghost s = self.hub_views();
                let hub = Hub::new(ctx.rent_payer, ctx.now);
                let ghost hv = hub@;
                self.hubs.push(hub);
                proof {
                    assert(self.hub_views() =~= s.push(hv));
                    lemma_map_of_push(s, hv);
                    assert forall|i: int|
                        0 <= i < self.hub_views().len() implies hub_wf(
                        #[trigger] self.hub_views()[i],
                    ) by {
                        if i < s.len() {
                            assert(self.hub_views()[i] == s[i]);
                        }
                    }
                }
                Ok(())
            },
        }
    }

    /// Deallocates `ctx.hub_owner`'s record and refunds its backing
    /// resources.
    ///
    /// Fails with `Unauthorized` unless the caller is the stored owner.
    /// Closing is terminal: the record no longer resolves afterwards, and a
    /// fresh creation for the same owner succeeds again.
    pub fn close_hub(&mut self, ctx: CloseHub) -> (result: Result<(), ErrorCode>)
        requires
            old(self).wf(),
        ensures
            final(self).wf(),
            final(self).config == old(self).config,
            result == spec_close_hub_result(old(self)@, ctx.rent_payer, ctx.hub_owner),
            final(self)@ == spec_close_hub_state(old(self)@, ctx.rent_payer, ctx.hub_owner),
    {
        match self.find_hub(ctx.hub_owner) {
            None => Err(ErrorCode::HubNotFound),
            Some(i) => {
                proof {
                    lemma_owner_index(self.hub_views(), i as int);
                }
                if self.hubs[i].owner != ctx.rent_payer {
                    return Err(ErrorCode::Unauthorized);
                }
                let ghost s = self.hub_views();
                self.hubs.remove(i);
                proof {
                    assert(self.hub_views() =~= s.remove(i as int));
                    lemma_map_of_remove(s, i as int);
                    assert forall|j: int|
                        0 <= j < self.hub_views().len() implies hub_wf(
                        #[trigger] self.hub_views()[j],
                    ) by {
                        assert(self.hub_views()[j] == (if j < i { s[j] } else { s[j + 1] }));
                    }
                }
                Ok(())
            },
        }
    }

    /// Registers `ctx.subscriber`'s interest in `topic` within
    /// `ctx.hub_owner`'s hub.
    ///
    /// The hub must exist; the hub-level rules (length bound, duplicate
    /// no-op, capacity bound) then decide.
    pub fn subscribe(&mut self, ctx: Subscribe, topic: Vec<u8>) -> (result: Result<(), ErrorCode>)
        requires
            old(self).wf(),
        ensures
            final(self).wf(),
            final(self).config == old(self).config,
            result == spec_subscribe_hub_result(old(self)@, ctx.hub_owner, ctx.subscriber, topic@),
            final(self)@ == spec_subscribe_hub_state(
                old(self)@,
                ctx.hub_owner,
                ctx.subscriber,
                topic@,
            ),
    {
        match self.find_hub(ctx.hub_owner) {
            None => Err(ErrorCode::HubNotFound),
            Some(i) => {
                let ghost s = self.hub_views();
                let ghost t = topic@;
                proof {
                    lemma_owner_index(s, i as int);
                    lemma_subscribe_preserves_wf(s[i as int], ctx.subscriber, t);
                }
                let result = self.hubs[i].subscribe(ctx.subscriber, topic);
                proof {
                    let hv2 = spec_subscribe_state(s[i as int], ctx.subscriber, t);
                    assert(self.hub_views() =~= s.update(i as int, hv2));
                    lemma_map_of_update(s, i as int, hv2);
                    assert forall|j: int|
                        0 <= j < self.hub_views().len() implies hub_wf(
                        #[trigger] self.hub_views()[j],
                    ) by {
                        if j != i {
                            assert(self.hub_views()[j] == s[j]);
                        }
                    }
                }
                result
            },
        }
    }

    /// Removes `ctx.subscriber`'s registered interest in `topic` from
    /// `ctx.hub_owner`'s hub; symmetric to `remove_topic` on a topic set.
    ///
    /// The hub must exist and the exact pair must be registered; a
    /// rejected call leaves the store unchanged.
    pub fn remove_subscription(&mut self, ctx: Subscribe, topic: &Vec<u8>) -> (result: Result<
        (),
        ErrorCode,
    >)
        requires
            old(self).wf(),
        ensures
            final(self).wf(),
            final(self).config == old(self).config,
            result == spec_remove_subscription_result(
                old(self)@,
                ctx.hub_owner,
                ctx.subscriber,
                topic@,
            ),
            final(self)@ == spec_remove_subscription_state(
                old(self)@,
                ctx.hub_owner,
                ctx.subscriber,
                topic@,
            ),
    {
        match self.find_hub(ctx.hub_owner) {
            None => Err(ErrorCode::HubNotFound),
            Some(i) => {
                let ghost s = self.hub_views();
                proof {
                    lemma_owner_index(s, i as int);
                    lemma_unsubscribe_preserves_wf(s[i as int], ctx.subscriber, topic@);
                }
                let result = self.hubs[i].unsubscribe(ctx.subscriber, topic);
                proof {
                    let hv2 = spec_unsubscribe_state(s[i as int], ctx.subscriber, topic@);
                    assert(self.hub_views() =~= s.update(i as int, hv2));
                    lemma_map_of_update(s, i as int, hv2);
                    assert forall|j: int|
                        0 <= j < self.hub_views().len() implies hub_wf(
                        #[trigger] self.hub_views()[j],
                    ) by {
                        if j != i {
                            assert(self.hub_views()[j] == s[j]);
                        }
                    }
                }
                result
            },
        }
    }

    /// Publishes `message` under `topic` into `ctx.hub_owner`'s hub.
    ///
    /// An accepted publish returns the emitted events, one per matching
    /// subscriber in subscriber-list order, and changes no stored state.  A
    /// rejected publish returns its error and emits nothing.
    pub fn publish(&self, ctx: Publish, topic: &Vec<u8>, message: &Vec<u8>) -> (result: Result<
        Vec<Publication>,
        ErrorCode,
    >)
        requires
            self.wf(),
        ensures
            ({
                let expected = spec_publish_result(
                    self@,
                    self.config,
                    ctx.hub_owner,
                    ctx.publisher,
                    ctx.capability,
                    topic@,
                    message@,
                );
                match result {
                    Ok(events) => expected == Ok::<Seq<PublicationView>, ErrorCode>(
                        publications_view(events@),
                    ),
                    Err(e) => expected == Err::<Seq<PublicationView>, ErrorCode>(e),
                }
            }),
    {
        match self.find_hub(ctx.hub_owner) {
            None => Err(ErrorCode::HubNotFound),
            Some(i) => {
                proof {
                    lemma_owner_index(self.hub_views(), i as int);
                }
                let address = hub_address(ctx.hub_owner);
                if !publish_authorized(self.config.auth_policy, address, ctx.capability) {
                    return Err(ErrorCode::Unauthorized);
                }
                if topic.len() > MAX_TOPIC_NAME_LEN {
                    return Err(ErrorCode::TopicNameTooLong);
                }
                if message.len() > MAX_MESSAGE_LEN {
                    return Err(ErrorCode::MessageTooLong);
                }
                let matched = match_subscribers(
                    self.config.match_policy,
                    &self.hubs[i].subscribers,
                    topic,
                );
                let events = emit_publications(address, ctx.publisher, &matched, topic, message);
                proof {
                    assert(self@[ctx.hub_owner].subscribers == subs_view(
                        self.hubs@[i as int].subscribers@,
                    ));
                }
                Ok(events)
            },
        }
    }
}

/// An over-long message is always rejected with `MessageTooLong` and emits
/// zero notifications, however many matching subscribers the hub holds: the
/// publish returns the error instead of any event sequence.
pub proof fn lemma_long_message_rejected(
    m: Map<Identity, HubView>,
    config: RelayConfig,
    hub_owner: Identity,
    publisher: Identity,
    capability: Option<u64>,
    topic: Seq<u8>,
    message: Seq<u8>,
)
    requires
        m.dom().contains(hub_owner),
        spec_publish_authorized(config.auth_policy, spec_hub_address(hub_owner), capability),
        topic.len() <= MAX_TOPIC_NAME_LEN,
        message.len() > MAX_MESSAGE_LEN,
    ensures
        spec_publish_result(m, config, hub_owner, publisher, capability, topic, message)
            == Err::<Seq<PublicationView>, ErrorCode>(ErrorCode::MessageTooLong),
{
}

/// Only the stored owner may close a hub, and closing frees the address:
/// a close by any other identity fails with `Unauthorized` and changes
/// nothing, while a close by the owner removes the record, after which a
/// fresh creation for the same owner succeeds again.
pub proof fn lemma_close_then_recreate(
    m: Map<Identity, HubView>,
    owner: Identity,
    intruder: Identity,
    now: i64,
)
    requires
        store_wf(m),
        m.dom().contains(owner),
        intruder != owner,
    ensures
        spec_close_hub_result(m, intruder, owner) == Err::<(), ErrorCode>(ErrorCode::Unauthorized),
        spec_close_hub_state(m, intruder, owner) == m,
        spec_create_hub_result(m, owner) == Err::<(), ErrorCode>(ErrorCode::HubAlreadyExists),
        spec_close_hub_result(m, owner, owner) is Ok,
        spec_create_hub_result(spec_close_hub_state(m, owner, owner), owner) is Ok,
        spec_create_hub_state(spec_close_hub_state(m, owner, owner), owner, now)[owner]
            == (HubView { owner, created_at: now, subscribers: Seq::<(Identity, Seq<u8>)>::empty() }),
{
}

/// A well-formed registry denotes a well-formed keyed store.
pub proof fn lemma_registry_store_wf(registry: &Registry)
    requires
        registry.wf(),
    ensures
        store_wf(registry@),
{
    let s = registry.hub_views();
    assert forall|owner: Identity| #[trigger]
        registry@.dom().contains(owner) implies registry@[owner].owner == owner && hub_wf(
        registry@[owner],
    ) by {
        let i = owner_index(s, owner);
        assert(0 <= i < s.len() && s[i].owner == owner);
        assert(hub_wf(s[i]));
    }
}

} // verus!
