//! A minimal publish/subscribe relay.
//!
//! State lives in small, fixed-capacity records owned by a publisher
//! identity.  Subscribers register interest in named topics, publishers emit
//! topic-tagged messages, and at publish time the relay computes which
//! registered subscribers should receive the message, signalling delivery by
//! an append-only sequence of notification events.
//!
//! The crate covers the topic/subscription registry and the publish-time
//! matching engine: record layout, validation and capacity rules, the
//! matching algorithm, and the authorization scheme gating who may create,
//! close, or publish into a hub.  Record funding, transport of the emitted
//! events, and everything else around the core is left to the embedding
//! application.

use vstd::prelude::*;

pub mod auth;
pub mod emitter;
pub mod hub;
pub mod matching;
pub mod registry;
pub mod topics;

verus! {

/// Largest length, in bytes, of a topic name.
pub const MAX_TOPIC_NAME_LEN: usize = 64;

/// Largest number of distinct topic names one owner may hold.
pub const MAX_TOPICS: usize = 128;

/// Largest number of (subscriber, topic) entries one hub may hold.
pub const MAX_SUBSCRIBERS: usize = 64;

/// Largest length, in bytes, of a published message.
pub const MAX_MESSAGE_LEN: usize = 256;

/// An identity: a caller, owner, subscriber or publisher.
///
/// The relay never looks inside an identity; it only compares identities for
/// equality and derives record addresses from them, so a fixed-width value
/// suffices.
#[derive(Clone, Copy, Debug, PartialEq, Eq, Hash, Structural)]
pub struct Identity {
    pub id: u64,
}

/// The single error kind a rejected operation reports.
///
/// Every error aborts the whole operation atomically: a rejected call leaves
/// all records exactly as they were.
#[derive(Clone, Copy, Debug, PartialEq, Eq, Structural)]
pub enum ErrorCode {
    /// The caller's identity or capability fails the authorization check.
    Unauthorized,
    /// A topic name is longer than `MAX_TOPIC_NAME_LEN` bytes.
    TopicNameTooLong,
    /// A message is longer than `MAX_MESSAGE_LEN` bytes.
    MessageTooLong,
    /// A removal targets a topic name that is not present.
    TopicNotFound,
    /// A removal targets a (subscriber, topic) pair that is not present.
    SubscriptionNotFound,
    /// A creation targets a topic name that is already present.
    TopicAlreadyExists,
    /// A topic set already holds `MAX_TOPICS` names.
    TopicLimitReached,
    /// A hub already holds `MAX_SUBSCRIBERS` subscription entries.
    SubscriptionLimitReached,
    /// An operation targets a hub that is not present in the registry.
    HubNotFound,
    /// A hub creation targets an owner that already has a hub.
    HubAlreadyExists,
}

/// Byte-for-byte equality of two byte strings.
pub fn bytes_eq(a: &Vec<u8>, b: &Vec<u8>) -> (eq: bool)
    ensures
        eq <==> a@ == b@,
{
    if a.len() != b.len() {
        return false;
    }
    let mut i: usize = 0;
    while i < a.len()
        invariant
            a@.len() == b@.len(),
            i <= a@.len(),
            forall|j: int| 0 <= j < i ==> a@[j] == b@[j],
        decreases a@.len() - i,
    {
        if a[i] != b[i] {
            return false;
        }
        i += 1;
    }
    proof {
        assert(a@ =~= b@);
    }
    true
}

} // verus!
