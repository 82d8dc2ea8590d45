//! The matching engine: which subscribers a published topic reaches.
//!
//! Matching is deterministic and yields zero or more matches in
//! subscriber-list order; matching nobody is not an error.  The policy is a
//! deployment choice: exact equality of topic names, or prefix matching,
//! where a subscription to `"orders"` matches publishes to `"orders"` and
//! `"orders.created"` but not to `"order"`.

use vstd::prelude::*;

use crate::Identity;
use crate::hub::Subscription;
use crate::hub::subs_view;

verus! {

/// How a published topic is compared against a stored topic name; chosen
/// per deployment.
#[derive(Clone, Copy, Debug, PartialEq, Eq, Structural)]
pub enum MatchPolicy {
    /// A subscriber is notified iff its stored topic name equals the
    /// published topic exactly.
    Exact,
    /// A subscriber is notified iff the published topic starts with its
    /// stored topic name.
    Prefix,
}

/// Whether a publish to `published` reaches a subscription to `subscribed`
/// under `policy`.
pub open spec fn spec_topic_matches(policy: MatchPolicy, published: Seq<u8>, subscribed: Seq<u8>) -> bool {
    match policy {
        MatchPolicy::Exact => published == subscribed,
        MatchPolicy::Prefix => subscribed.is_prefix_of(published),
    }
}

/// Decides whether a publish to `published` reaches a subscription to
/// `subscribed` under `policy`.
pub fn topic_matches(policy: MatchPolicy, published: &Vec<u8>, subscribed: &Vec<u8>) -> (matched: bool)
    ensures
        matched == spec_topic_matches(policy, published@, subscribed@),
{
    if subscribed.len() > published.len() {
        return false;
    }
    if matches!(policy, MatchPolicy::Exact) && subscribed.len() != published.len() {
        return false;
    }
    let mut i: usize = 0;
    while i < subscribed.len()
        invariant
            subscribed@.len() <= published@.len(),
            i <= subscribed@.len(),
            forall|j: int| 0 <= j < i ==> published@[j] == subscribed@[j],
        decreases subscribed@.len() - i,
    {
        if published[i] != subscribed[i] {
            proof {
                if spec_topic_matches(policy, published@, subscribed@) {
                    assert(subscribed@ == published@.subrange(0, subscribed@.len() as int));
                    assert(subscribed@[i as int] == published@[i as int]);
                }
            }
            return false;
        }
        i += 1;
    }
    proof {
        assert(subscribed@ =~= published@.subrange(0, subscribed@.len() as int));
        if matches!(policy, MatchPolicy::Exact) {
            assert(published@ =~= subscribed@);
        }
    }
    true
}

/// The subscribers a publish to `published` reaches, in subscriber-list
/// order, one occurrence per matching entry.
pub open spec fn spec_matches(
    policy: MatchPolicy,
    subs: Seq<(Identity, Seq<u8>)>,
    published: Seq<u8>,
) -> Seq<Identity>
    decreases subs.len(),
{
    if subs.len() == 0 {
        Seq::empty()
    } else {
        let init = spec_matches(policy, subs.drop_last(), published);
        if spec_topic_matches(policy, published, subs.last().1) {
            init.push(subs.last().0)
        } else {
            init
        }
    }
}

/// Computes the subscribers a publish to `published` reaches, walking the
/// subscriber list in order.
pub fn match_subscribers(
    policy: MatchPolicy,
    subscribers: &Vec<Subscription>,
    published: &Vec<u8>,
) -> (matched: Vec<Identity>)
    ensures
        matched@ == spec_matches(policy, subs_view(subscribers@), published@),
{
    let ghost sv = subs_view(subscribers@);
    let mut matched: Vec<Identity> = Vec::new();
    let mut i: usize = 0;
    while i < subscribers.len()
        invariant
            sv == subs_view(subscribers@),
            i <= subscribers@.len(),
            matched@ == spec_matches(policy, sv.take(i as int), published@),
        decreases subscribers@.len() - i,
    {
        let entry = &subscribers[i];
        proof {
            assert(sv.take(i + 1).drop_last() =~= sv.take(i as int));
            assert(sv.take(i + 1).last() == sv[i as int]);
            assert(sv[i as int] == (entry.subscriber, entry.topic@));
        }
        if topic_matches(policy, published, &entry.topic) {
            matched.push(entry.subscriber);
        }
        i += 1;
    }
    proof {
        assert(sv.take(subscribers@.len() as int) =~= sv);
    }
    matched
}

} // verus!
