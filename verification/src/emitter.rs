//! The notification emitter: one event record per match.
//!
//! Emission is fire-and-forget.  The relay produces the ordered sequence of
//! event records for a publish; transporting them downstream, and any
//! failure to deliver there, is invisible to the publish operation's own
//! success or failure.  Nothing is stored.

use vstd::prelude::*;

use crate::Identity;

verus! {

/// The observable event for one matched subscriber.
#[derive(Clone, Debug, PartialEq, Eq)]
pub struct Publication {
    /// Address of the hub published into.
    pub hub: u64,
    /// Identity that published the message.
    pub publisher: Identity,
    /// Identity to be notified.
    pub subscriber: Identity,
    /// The published topic, as sent (not the stored topic name it matched).
    pub topic: Vec<u8>,
    /// The published message body.
    pub message: Vec<u8>,
}

/// The mathematical value of one publication event.
pub struct PublicationView {
    pub hub: u64,
    pub publisher: Identity,
    pub subscriber: Identity,
    pub topic: Seq<u8>,
    pub message: Seq<u8>,
}

impl View for Publication {
    type V = PublicationView;

    open spec fn view(&self) -> PublicationView {
        PublicationView {
            hub: self.hub,
            publisher: self.publisher,
            subscriber: self.subscriber,
            topic: self.topic@,
            message: self.message@,
        }
    }
}

/// The mathematical shape of an emitted event sequence.
pub open spec fn publications_view(events: Seq<Publication>) -> Seq<PublicationView> {
    Seq::new(events.len(), |i: int| events[i]@)
}

/// The events a publish emits: one per matched subscriber, in match order,
/// each carrying the hub address, the publisher, that subscriber, and the
/// published topic and message.
pub open spec fn spec_publications(
    hub: u64,
    publisher: Identity,
    matched: Seq<Identity>,
    topic: Seq<u8>,
    message: Seq<u8>,
) -> Seq<PublicationView> {
    Seq::new(
        matched.len(),
        |i: int| PublicationView { hub, publisher, subscriber: matched[i], topic, message },
    )
}

/// An owned copy of a byte string.
fn copy_bytes(src: &Vec<u8>) -> (copy: Vec<u8>)
    ensures
        copy@ == src@,
{
    let mut copy: Vec<u8> = Vec::new();
    let mut i: usize = 0;
    while i < src.len()
        invariant
            i <= src@.len(),
            copy@ == src@.take(i as int),
        decreases src@.len() - i,
    {
        copy.push(src[i]);
        proof {
            assert(copy@ =~= src@.take(i + 1));
        }
        i += 1;
    }
    proof {
        assert(src@.take(src@.len() as int) =~= src@);
    }
    copy
}

/// Builds the event records for the matched subscribers of one publish.
pub fn emit_publications(
    hub: u64,
    publisher: Identity,
    matched: &Vec<Identity>,
    topic: &Vec<u8>,
    message: &Vec<u8>,
) -> (events: Vec<Publication>)
    ensures
        publications_view(events@) == spec_publications(hub, publisher, matched@, topic@, message@),
{
    let mut events: Vec<Publication> = Vec::new();
    let mut i: usize = 0;
    while i < matched.len()
        invariant
            i <= matched@.len(),
            publications_view(events@) =~= spec_publications(
                hub,
                publisher,
                matched@.take(i as int),
                topic@,
                message@,
            ),
        decreases matched@.len() - i,
    {
        let event = Publication {
            hub,
            publisher,
            subscriber: matched[i],
            topic: copy_bytes(topic),
            message: copy_bytes(message),
        };
        let ghost before = events@;
        events.push(event);
        proof {
            let now = spec_publications(hub, publisher, matched@.take(i + 1), topic@, message@);
            assert(publications_view(before).len() == before.len());
            assert(matched@.take(i as int).len() == i);
            assert(before.len() == i);
            assert(events@ == before.push(event));
            assert forall|k: int| 0 <= k < events@.len() implies publications_view(events@)[k]
                == now[k] by {
                if k < i {
                    assert(events@[k] == before[k]);
                    assert(publications_view(before)[k] == spec_publications(
                        hub,
                        publisher,
                        matched@.take(i as int),
                        topic@,
                        message@,
                    )[k]);
                } else {
                    assert(events@[k] == event);
                }
            }
            assert(publications_view(events@) =~= now);
        }
        i += 1;
    }
    proof {
        assert(matched@.take(matched@.len() as int) =~= matched@);
        assert(publications_view(events@) =~= spec_publications(
            hub,
            publisher,
            matched@,
            topic@,
            message@,
        ));
    }
    events
}

} // verus!
