//! The topic set: distinct topic names managed independently of
//! subscriptions.
//!
//! One set exists per owning identity.  Names are unique, each at most
//! `MAX_TOPIC_NAME_LEN` bytes, and at most `MAX_TOPICS` are held at once.
//! Creation preserves insertion order; removal preserves the relative order
//! of the remaining names.  A rejected call leaves the set unchanged.

use vstd::prelude::*;

use crate::ErrorCode;
use crate::Identity;
use crate::MAX_TOPICS;
use crate::MAX_TOPIC_NAME_LEN;
use crate::bytes_eq;

verus! {

/// The set of distinct topic names one identity owns, in insertion order.
pub struct TopicSet {
    /// Identity of the creator; immutable after initialisation.
    pub owner: Identity,
    /// The topic names, oldest first.
    pub topics: Vec<Vec<u8>>,
}

impl View for TopicSet {
    type V = Seq<Seq<u8>>;

    open spec fn view(&self) -> Seq<Seq<u8>> {
        Seq::new(self.topics@.len(), |i: int| self.topics@[i]@)
    }
}

/// Structural invariant of a topic set: within capacity, every name within
/// the length bound, and no name occurs twice.
pub open spec fn topics_wf(ts: Seq<Seq<u8>>) -> bool {
    &&& ts.len() <= MAX_TOPICS
    &&& forall|i: int| 0 <= i < ts.len() ==> (#[trigger] ts[i]).len() <= MAX_TOPIC_NAME_LEN
    &&& forall|i: int, j: int| 0 <= i < j < ts.len() ==> ts[i] != ts[j]
}

/// What `create_topic` answers on a set with value `ts`.
///
/// The checks run in this order: the name length bound first, then the
/// duplicate check, then the capacity bound.  Creating an already-present
/// name therefore reports the duplicate even on a full set.
pub open spec fn spec_create_topic_result(ts: Seq<Seq<u8>>, name: Seq<u8>) -> Result<
    (),
    ErrorCode,
> {
    if name.len() > MAX_TOPIC_NAME_LEN {
        Err(ErrorCode::TopicNameTooLong)
    } else if ts.contains(name) {
        Err(ErrorCode::TopicAlreadyExists)
    } else if ts.len() >= MAX_TOPICS {
        Err(ErrorCode::TopicLimitReached)
    } else {
        Ok(())
    }
}

/// The set value after `create_topic`: the name is appended exactly when
/// the call is accepted; a rejected call leaves the set unchanged.
pub open spec fn spec_create_topic_state(ts: Seq<Seq<u8>>, name: Seq<u8>) -> Seq<Seq<u8>> {
    if name.len() <= MAX_TOPIC_NAME_LEN && !ts.contains(name) && ts.len() < MAX_TOPICS {
        ts.push(name)
    } else {
        ts
    }
}

/// What `remove_topic` answers on a set with value `ts`.
pub open spec fn spec_remove_topic_result(ts: Seq<Seq<u8>>, name: Seq<u8>) -> Result<
    (),
    ErrorCode,
> {
    if ts.contains(name) {
        Ok(())
    } else {
        Err(ErrorCode::TopicNotFound)
    }
}

/// The set value after `remove_topic`: the first (and, under the
/// invariant, only) occurrence of the name is removed, the relative order
/// of the rest preserved; removing an absent name leaves the set unchanged.
pub open spec fn spec_remove_topic_state(ts: Seq<Seq<u8>>, name: Seq<u8>) -> Seq<Seq<u8>> {
    ts.remove_value(name)
}

impl TopicSet {
    /// An initialised, empty topic set for `owner`.
    pub fn initialise(owner: Identity) -> (ts: TopicSet)
        ensures
            ts.owner == owner,
            ts@ == Seq::<Seq<u8>>::empty(),
            topics_wf(ts@),
    {
        let ts = TopicSet { owner, topics: Vec::new() };
        proof {
            assert(ts@ =~= Seq::<Seq<u8>>::empty());
        }
        ts
    }

    /// How many names the set currently holds.
    pub fn count(&self) -> (n: usize)
        ensures
            n == self@.len(),
    {
        self.topics.len()
    }

    /// The index of `name` in the list, if it is present.
    fn find(&self, name: &Vec<u8>) -> (found: Option<usize>)
        ensures
            match found {
                Some(i) => i < self@.len() && self@[i as int] == name@,
                None => !self@.contains(name@),
            },
    {
        let mut i: usize = 0;
        while i < self.topics.len()
            invariant
                i <= self.topics@.len(),
                forall|j: int| 0 <= j < i ==> self@[j] != name@,
            decreases self.topics@.len() - i,
        {
            if bytes_eq(&self.topics[i], name) {
                return Some(i);
            }
            i += 1;
        }
        None
    }

    /// Whether `name` is currently present.
    pub fn contains_topic(&self, name: &Vec<u8>) -> (present: bool)
        ensures
            present == self@.contains(name@),
    {
        match self.find(name) {
            Some(i) => {
                proof {
                    assert(self@[i as int] == name@);
                }
                true
            },
            None => false,
        }
    }

    /// Appends `name` to the set.
    ///
    /// Rejects a name over `MAX_TOPIC_NAME_LEN` bytes, a name already
    /// present, and a set already holding `MAX_TOPICS` names.  A rejected
    /// call leaves the set unchanged.
    pub fn create_topic(&mut self, name: Vec<u8>) -> (result: Result<(), ErrorCode>)
        requires
            topics_wf(old(self)@),
        ensures
            topics_wf(final(self)@),
            final(self).owner == old(self).owner,
            result == spec_create_topic_result(old(self)@, name@),
            final(self)@ == spec_create_topic_state(old(self)@, name@),
    {
        proof {
            lemma_create_topic_preserves_wf(old(self)@, name@);
        }
        if name.len() > MAX_TOPIC_NAME_LEN {
            return Err(ErrorCode::TopicNameTooLong);
        }
        if self.contains_topic(&name) {
            return Err(ErrorCode::TopicAlreadyExists);
        }
        if self.topics.len() >= MAX_TOPICS {
            return Err(ErrorCode::TopicLimitReached);
        }
        let ghost prior = self@;
        let ghost n = name@;
        self.topics.push(name);
        proof {
            assert(self@ =~= prior.push(n));
        }
        Ok(())
    }

    /// Removes `name` from the set.
    ///
    /// Rejects a name that is not present; the rejected call leaves the set
    /// unchanged, length and order identical to before.
    pub fn remove_topic(&mut self, name: &Vec<u8>) -> (result: Result<(), ErrorCode>)
        requires
            topics_wf(old(self)@),
        ensures
            topics_wf(final(self)@),
            final(self).owner == old(self).owner,
            result == spec_remove_topic_result(old(self)@, name@),
            final(self)@ == spec_remove_topic_state(old(self)@, name@),
    {
        let ghost prior = self@;
        match self.find(name) {
            None => {
                proof {
                    prior.index_of_first_ensures(name@);
                }
                Err(ErrorCode::TopicNotFound)
            },
            Some(i) => {
                self.topics.remove(i);
                proof {
                    assert(prior[i as int] == name@);
                    assert(prior.contains(name@));
                    prior.index_of_first_ensures(name@);
                    let f = prior.index_of_first(name@).unwrap();
                    assert(prior[f] == name@);
                    if f != i {
                        assert(prior[f] != prior[i as int]);
                    }
                    assert(self@ =~= prior.remove(i as int));
                    lemma_remove_topic_preserves_wf(prior, name@);
                }
                Ok(())
            },
        }
    }
}

/// `create_topic` preserves the topic-set invariant.
pub proof fn lemma_create_topic_preserves_wf(ts: Seq<Seq<u8>>, name: Seq<u8>)
    requires
        topics_wf(ts),
    ensures
        topics_wf(spec_create_topic_state(ts, name)),
{
    let ts2 = spec_create_topic_state(ts, name);
    if ts2 != ts {
        let pushed = ts.push(name);
        assert forall|i: int, j: int| 0 <= i < j < pushed.len() implies pushed[i] != pushed[j] by {
            if j == ts.len() {
                assert(pushed[i] == ts[i]);
                if pushed[i] == pushed[j] {
                    assert(ts[i] == name);
                    assert(ts.contains(name));
                }
            }
        }
    }
}

/// `remove_topic` preserves the topic-set invariant.
pub proof fn lemma_remove_topic_preserves_wf(ts: Seq<Seq<u8>>, name: Seq<u8>)
    requires
        topics_wf(ts),
    ensures
        topics_wf(spec_remove_topic_state(ts, name)),
{
    ts.index_of_first_ensures(name);
    let ts2 = spec_remove_topic_state(ts, name);
    if ts.contains(name) {
        let f = ts.index_of_first(name).unwrap();
        assert(ts2 =~= ts.remove(f));
        assert forall|i: int, j: int| 0 <= i < j < ts2.len() implies ts2[i] != ts2[j] by {
            assert(ts2[i] == (if i < f { ts[i] } else { ts[i + 1] }));
            assert(ts2[j] == (if j < f { ts[j] } else { ts[j + 1] }));
        }
        assert forall|i: int| 0 <= i < ts2.len() implies (#[trigger] ts2[i]).len()
            <= MAX_TOPIC_NAME_LEN by {
            assert(ts2[i] == (if i < f { ts[i] } else { ts[i + 1] }));
        }
    }
}

/// A created topic is visible at once, and creating the same name again
/// fails as a duplicate: whenever `create_topic` accepts a name, a lookup
/// in the resulting set finds it, and a second creation of the same name on
/// that set is rejected with `TopicAlreadyExists`.
pub proof fn lemma_create_topic_then_lookup(ts: Seq<Seq<u8>>, name: Seq<u8>)
    requires
        topics_wf(ts),
        name.len() <= MAX_TOPIC_NAME_LEN,
    ensures
        spec_create_topic_result(ts, name) is Ok ==> spec_create_topic_state(ts, name).contains(
            name,
        ),
        spec_create_topic_result(ts, name) is Ok ==> spec_create_topic_result(
            spec_create_topic_state(ts, name),
            name,
        ) == Err::<(), ErrorCode>(ErrorCode::TopicAlreadyExists),
{
    if spec_create_topic_result(ts, name) is Ok {
        let ts2 = spec_create_topic_state(ts, name);
        assert(ts2[ts.len() as int] == name);
        assert(ts2.contains(name));
    }
}

/// An over-long topic name is always rejected with `TopicNameTooLong`,
/// whatever the set currently holds.
pub proof fn lemma_long_name_rejected(ts: Seq<Seq<u8>>, name: Seq<u8>)
    requires
        name.len() > MAX_TOPIC_NAME_LEN,
    ensures
        spec_create_topic_result(ts, name) == Err::<(), ErrorCode>(ErrorCode::TopicNameTooLong),
        spec_create_topic_state(ts, name) == ts,
{
}

/// The capacity boundary: a fresh, short enough name is accepted while the
/// set is below `MAX_TOPICS`, rejected with `TopicLimitReached` once the
/// set is full, and accepted again after one present name is removed.
pub proof fn lemma_topic_capacity_boundary(ts: Seq<Seq<u8>>, fresh: Seq<u8>, present: Seq<u8>)
    requires
        topics_wf(ts),
        fresh.len() <= MAX_TOPIC_NAME_LEN,
        !ts.contains(fresh),
        ts.contains(present),
    ensures
        ts.len() < MAX_TOPICS ==> spec_create_topic_result(ts, fresh) is Ok,
        ts.len() == MAX_TOPICS ==> spec_create_topic_result(ts, fresh) == Err::<(), ErrorCode>(
            ErrorCode::TopicLimitReached,
        ),
        ts.len() == MAX_TOPICS ==> spec_create_topic_result(
            spec_remove_topic_state(ts, present),
            fresh,
        ) is Ok,
{
    ts.index_of_first_ensures(present);
    if ts.len() == MAX_TOPICS {
        let f = ts.index_of_first(present).unwrap();
        let ts2 = ts.remove(f);
        assert(spec_remove_topic_state(ts, present) == ts2);
        assert(ts2.len() < MAX_TOPICS);
        if ts2.contains(fresh) {
            let k = choose|k: int| 0 <= k < ts2.len() && ts2[k] == fresh;
            assert(ts2[k] == (if k < f { ts[k] } else { ts[k + 1] }));
            assert(ts.contains(fresh));
        }
    }
}

/// Removing an absent name fails with `TopicNotFound` and leaves the topic
/// sequence unchanged, length and order identical to before the call.
pub proof fn lemma_remove_absent_unchanged(ts: Seq<Seq<u8>>, name: Seq<u8>)
    requires
        !ts.contains(name),
    ensures
        spec_remove_topic_result(ts, name) == Err::<(), ErrorCode>(ErrorCode::TopicNotFound),
        spec_remove_topic_state(ts, name) == ts,
{
    ts.index_of_first_ensures(name);
}

} // verus!
