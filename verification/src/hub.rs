//! The hub record: owner, creation time, and its subscriber list.
//!
//! A hub is the record a publisher identity owns.  It holds an ordered,
//! capacity-bounded sequence of (subscriber, topic) entries.  Duplicate
//! subscribe calls are a silent no-op: the relay never stores the same
//! (subscriber, topic) pair twice.

use vstd::prelude::*;

use crate::ErrorCode;
use crate::Identity;
use crate::MAX_SUBSCRIBERS;
use crate::MAX_TOPIC_NAME_LEN;
use crate::bytes_eq;

verus! {

/// One registered interest: `subscriber` wants messages whose topic matches
/// `topic` under the deployment's matching policy.
pub struct Subscription {
    pub subscriber: Identity,
    pub topic: Vec<u8>,
}

impl View for Subscription {
    type V = (Identity, Seq<u8>);

    open spec fn view(&self) -> (Identity, Seq<u8>) {
        (self.subscriber, self.topic@)
    }
}

/// The mathematical shape of a subscriber list: (subscriber, topic name)
/// pairs in insertion order.
pub open spec fn subs_view(subs: Seq<Subscription>) -> Seq<(Identity, Seq<u8>)> {
    Seq::new(subs.len(), |i: int| subs[i]@)
}

/// The record one publisher identity owns.
pub struct Hub {
    /// Identity of the creator; immutable after creation.
    pub owner: Identity,
    /// Creation timestamp; immutable after creation.
    pub created_at: i64,
    /// Ordered sequence of (subscriber, topic) entries; bounded length.
    pub subscribers: Vec<Subscription>,
}

/// The mathematical value of a hub.
pub struct HubView {
    pub owner: Identity,
    pub created_at: i64,
    pub subscribers: Seq<(Identity, Seq<u8>)>,
}

impl View for Hub {
    type V = HubView;

    open spec fn view(&self) -> HubView {
        HubView {
            owner: self.owner,
            created_at: self.created_at,
            subscribers: subs_view(self.subscribers@),
        }
    }
}

/// Structural invariant of a hub: the subscriber list is within capacity,
/// every stored topic name is within the length bound, and no
/// (subscriber, topic) pair occurs twice.
pub open spec fn hub_wf(h: HubView) -> bool {
    &&& h.subscribers.len() <= MAX_SUBSCRIBERS
    &&& forall|i: int|
        0 <= i < h.subscribers.len() ==> (#[trigger] h.subscribers[i]).1.len()
            <= MAX_TOPIC_NAME_LEN
    &&& forall|i: int, j: int|
        0 <= i < j < h.subscribers.len() ==> h.subscribers[i] != h.subscribers[j]
}

/// What `subscribe` answers on a hub with value `h`.
///
/// The checks run in this order: the topic length bound first, then the
/// duplicate check (a duplicate is accepted as a no-op), then the capacity
/// bound.  A duplicate subscribe therefore succeeds even on a full hub.
pub open spec fn spec_subscribe_result(h: HubView, subscriber: Identity, topic: Seq<u8>) -> Result<
    (),
    ErrorCode,
> {
    if topic.len() > MAX_TOPIC_NAME_LEN {
        Err(ErrorCode::TopicNameTooLong)
    } else if h.subscribers.contains((subscriber, topic)) {
        Ok(())
    } else if h.subscribers.len() >= MAX_SUBSCRIBERS {
        Err(ErrorCode::SubscriptionLimitReached)
    } else {
        Ok(())
    }
}

/// The hub value after `subscribe`: the pair is appended exactly when the
/// call is accepted and the pair was not already present; every other
/// outcome leaves the hub unchanged.
pub open spec fn spec_subscribe_state(h: HubView, subscriber: Identity, topic: Seq<u8>) -> HubView {
    if topic.len() <= MAX_TOPIC_NAME_LEN && !h.subscribers.contains((subscriber, topic))
        && h.subscribers.len() < MAX_SUBSCRIBERS {
        HubView { owner: h.owner, created_at: h.created_at, subscribers: h.subscribers.push((subscriber, topic)) }
    } else {
        h
    }
}

/// What `unsubscribe` answers on a hub with value `h`: removing a pair
/// that is not registered is rejected.
pub open spec fn spec_unsubscribe_result(h: HubView, subscriber: Identity, topic: Seq<u8>) -> Result<
    (),
    ErrorCode,
> {
    if h.subscribers.contains((subscriber, topic)) {
        Ok(())
    } else {
        Err(ErrorCode::SubscriptionNotFound)
    }
}

/// The hub value after `unsubscribe`: the first (and, under the invariant,
/// only) occurrence of the pair is removed, the relative order of the rest
/// preserved; removing an absent pair leaves the hub unchanged.
pub open spec fn spec_unsubscribe_state(h: HubView, subscriber: Identity, topic: Seq<u8>) -> HubView {
    HubView {
        owner: h.owner,
        created_at: h.created_at,
        subscribers: h.subscribers.remove_value((subscriber, topic)),
    }
}

/// `unsubscribe` preserves the hub invariant.
pub proof fn lemma_unsubscribe_preserves_wf(h: HubView, subscriber: Identity, topic: Seq<u8>)
    requires
        hub_wf(h),
    ensures
        hub_wf(spec_unsubscribe_state(h, subscriber, topic)),
{
    let pair = (subscriber, topic);
    h.subscribers.index_of_first_ensures(pair);
    let subs2 = spec_unsubscribe_state(h, subscriber, topic).subscribers;
    if h.subscribers.contains(pair) {
        let f = h.subscribers.index_of_first(pair).unwrap();
        assert(subs2 =~= h.subscribers.remove(f));
        assert forall|i: int, j: int| 0 <= i < j < subs2.len() implies subs2[i] != subs2[j] by {
            assert(subs2[i] == (if i < f { h.subscribers[i] } else { h.subscribers[i + 1] }));
            assert(subs2[j] == (if j < f { h.subscribers[j] } else { h.subscribers[j + 1] }));
        }
        assert forall|i: int| 0 <= i < subs2.len() implies (#[trigger] subs2[i]).1.len()
            <= MAX_TOPIC_NAME_LEN by {
            assert(subs2[i] == (if i < f { h.subscribers[i] } else { h.subscribers[i + 1] }));
        }
    }
}

/// `subscribe` preserves the hub invariant.
pub proof fn lemma_subscribe_preserves_wf(h: HubView, subscriber: Identity, topic: Seq<u8>)
    requires
        hub_wf(h),
    ensures
        hub_wf(spec_subscribe_state(h, subscriber, topic)),
{
    let h2 = spec_subscribe_state(h, subscriber, topic);
    if h2 != h {
        let pushed = h.subscribers.push((subscriber, topic));
        assert forall|i: int, j: int| 0 <= i < j < pushed.len() implies pushed[i] != pushed[j] by {
            if j == h.subscribers.len() {
                assert(pushed[i] == h.subscribers[i]);
                if pushed[i] == pushed[j] {
                    assert(h.subscribers[i] == (subscriber, topic));
                    assert(h.subscribers.contains((subscriber, topic)));
                }
            }
        }
    }
}

/// Subscribing an identical (subscriber, topic) pair twice never stores two
/// entries: the second call is a no-op that still succeeds, so the state
/// after two identical subscribes equals the state after one, and the
/// invariant (which forbids duplicate pairs) still holds.
pub proof fn lemma_subscribe_idempotent(h: HubView, subscriber: Identity, topic: Seq<u8>)
    requires
        hub_wf(h),
    ensures
        hub_wf(spec_subscribe_state(h, subscriber, topic)),
        spec_subscribe_state(spec_subscribe_state(h, subscriber, topic), subscriber, topic)
            == spec_subscribe_state(h, subscriber, topic),
        spec_subscribe_result(h, subscriber, topic) is Ok ==> spec_subscribe_state(
            h,
            subscriber,
            topic,
        ).subscribers.contains((subscriber, topic)),
        spec_subscribe_result(h, subscriber, topic) is Ok ==> spec_subscribe_result(
            spec_subscribe_state(h, subscriber, topic),
            subscriber,
            topic,
        ) is Ok,
{
    lemma_subscribe_preserves_wf(h, subscriber, topic);
    let h2 = spec_subscribe_state(h, subscriber, topic);
    if h2 != h {
        let pushed = h.subscribers.push((subscriber, topic));
        assert(pushed[h.subscribers.len() as int] == (subscriber, topic));
        assert(h2.subscribers.contains((subscriber, topic)));
    }
}

impl Hub {
    /// A fresh hub: the given owner, the given creation time, no
    /// subscribers.
    pub fn new(owner: Identity, created_at: i64) -> (hub: Hub)
        ensures
            hub@ == (HubView { owner, created_at, subscribers: Seq::<(Identity, Seq<u8>)>::empty() }),
            hub_wf(hub@),
    {
        let hub = Hub { owner, created_at, subscribers: Vec::new() };
        proof {
            assert(hub@.subscribers =~= Seq::<(Identity, Seq<u8>)>::empty());
        }
        hub
    }

    /// The index of the exact (subscriber, topic) pair, if it is
    /// registered.
    fn subscription_index(&self, subscriber: Identity, topic: &Vec<u8>) -> (found: Option<usize>)
        ensures
            match found {
                Some(i) => i < self@.subscribers.len() && self@.subscribers[i as int] == (
                    subscriber,
                    topic@,
                ),
                None => !self@.subscribers.contains((subscriber, topic@)),
            },
    {
        let mut i: usize = 0;
        while i < self.subscribers.len()
            invariant
                i <= self.subscribers@.len(),
                forall|j: int| 0 <= j < i ==> self@.subscribers[j] != (subscriber, topic@),
            decreases self.subscribers@.len() - i,
        {
            let entry = &self.subscribers[i];
            if entry.subscriber == subscriber && bytes_eq(&entry.topic, topic) {
                proof {
                    assert(self@.subscribers[i as int] == (subscriber, topic@));
                }
                return Some(i);
            }
            i += 1;
        }
        None
    }

    /// Whether the exact (subscriber, topic) pair is already registered.
    pub fn is_subscribed(&self, subscriber: Identity, topic: &Vec<u8>) -> (present: bool)
        ensures
            present == self@.subscribers.contains((subscriber, topic@)),
    {
        match self.subscription_index(subscriber, topic) {
            Some(i) => {
                proof {
                    assert(self@.subscribers[i as int] == (subscriber, topic@));
                }
                true
            },
            None => false,
        }
    }

    /// Registers `subscriber`'s interest in `topic`.
    ///
    /// Rejects a topic name over `MAX_TOPIC_NAME_LEN` bytes and a list
    /// already at `MAX_SUBSCRIBERS` entries; accepts a duplicate pair as a
    /// silent no-op.  A rejected call leaves the hub unchanged.
    pub fn subscribe(&mut self, subscriber: Identity, topic: Vec<u8>) -> (result: Result<
        (),
        ErrorCode,
    >)
        requires
            hub_wf(old(self)@),
        ensures
            hub_wf(final(self)@),
            result == spec_subscribe_result(old(self)@, subscriber, topic@),
            final(self)@ == spec_subscribe_state(old(self)@, subscriber, topic@),
    {
        proof {
            lemma_subscribe_preserves_wf(old(self)@, subscriber, topic@);
        }
        if topic.len() > MAX_TOPIC_NAME_LEN {
            return Err(ErrorCode::TopicNameTooLong);
        }
        if self.is_subscribed(subscriber, &topic) {
            return Ok(());
        }
        if self.subscribers.len() >= MAX_SUBSCRIBERS {
            return Err(ErrorCode::SubscriptionLimitReached);
        }
        let ghost prior = self@;
        let ghost t = topic@;
        self.subscribers.push(Subscription { subscriber, topic });
        proof {
            assert(self@.subscribers =~= prior.subscribers.push((subscriber, t)));
        }
        Ok(())
    }

    /// Removes `subscriber`'s registered interest in `topic`.
    ///
    /// Rejects a pair that is not registered; the rejected call leaves the
    /// hub unchanged.  Removal preserves the relative order of the
    /// remaining entries.
    pub fn unsubscribe(&mut self, subscriber: Identity, topic: &Vec<u8>) -> (result: Result<
        (),
        ErrorCode,
    >)
        requires
            hub_wf(old(self)@),
        ensures
            hub_wf(final(self)@),
            result == spec_unsubscribe_result(old(self)@, subscriber, topic@),
            final(self)@ == spec_unsubscribe_state(old(self)@, subscriber, topic@),
    {
        let ghost prior = self@;
        let ghost pair = (subscriber, topic@);
        match self.subscription_index(subscriber, topic) {
            None => {
                proof {
                    prior.subscribers.index_of_first_ensures(pair);
                }
                Err(ErrorCode::SubscriptionNotFound)
            },
            Some(i) => {
                self.subscribers.remove(i);
                proof {
                    assert(prior.subscribers[i as int] == pair);
                    assert(prior.subscribers.contains(pair));
                    prior.subscribers.index_of_first_ensures(pair);
                    let f = prior.subscribers.index_of_first(pair).unwrap();
                    assert(prior.subscribers[f] == pair);
                    if f != i {
                        assert(prior.subscribers[f] != prior.subscribers[i as int]);
                    }
                    assert(self@.subscribers =~= prior.subscribers.remove(i as int));
                    lemma_unsubscribe_preserves_wf(prior, subscriber, topic@);
                }
                Ok(())
            },
        }
    }
}

} // verus!
