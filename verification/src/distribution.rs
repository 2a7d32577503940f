//! The bounded queue between the producer and the fan-out.
//!
//! Its capacity is the relay's only backpressure control. What happens to an
//! offer that finds the queue full is a choice made when the queue is built:
//! the offer is handed back so that the producer waits and tries again, or
//! the oldest waiting payload gives way.

use crate::frame::text_views;
use std::collections::VecDeque;
use vstd::prelude::*;

verus! {

/// What a full queue does with an offer.
#[derive(Clone, Copy, PartialEq, Eq, Structural, Debug)]
pub enum Policy {
    /// Hand the payload back: the producer stalls until there is room.
    Block,
    /// Make room by giving up the oldest payload that waits.
    DropOldest,
}

/// How an offer ended.
#[derive(Debug, PartialEq, Eq)]
pub enum Offer {
    /// The payload waits in the queue.
    Accepted,
    /// The queue is full and keeps what it has: here is the payload back.
    Blocked(String),
    /// The payload went in and this one, the oldest, was given up for it; a
    /// queue without any room gives up the offered payload itself.
    Displaced(String),
    /// The queue takes nothing any more: here is the payload back.
    Closed(String),
}

/// What an [`Offer`] is.
pub ghost enum OfferModel {
    Accepted,
    Blocked(Seq<char>),
    Displaced(Seq<char>),
    Closed(Seq<char>),
}

impl View for Offer {
    type V = OfferModel;

    open spec fn view(&self) -> OfferModel {
        match self {
            Offer::Accepted => OfferModel::Accepted,
            Offer::Blocked(payload) => OfferModel::Blocked(payload@),
            Offer::Displaced(payload) => OfferModel::Displaced(payload@),
            Offer::Closed(payload) => OfferModel::Closed(payload@),
        }
    }
}

/// The queue as mathematics: what waits, oldest first, how much may wait,
/// what a full queue does, and whether the producer is done.
pub ghost struct DistributionModel {
    pub capacity: nat,
    pub policy: Policy,
    pub queue: Seq<Seq<char>>,
    pub closed: bool,
}

impl DistributionModel {
    /// An empty queue that takes offers.
    pub open spec fn empty(capacity: nat, policy: Policy) -> DistributionModel {
        DistributionModel { capacity, policy, queue: Seq::empty(), closed: false }
    }

    /// Never more waits than the capacity allows.
    pub open spec fn bounded(self) -> bool {
        self.queue.len() <= self.capacity
    }

    /// The producer offers a payload.
    pub open spec fn offer(self, payload: Seq<char>) -> (DistributionModel, OfferModel) {
        if self.closed {
            (self, OfferModel::Closed(payload))
        } else if self.queue.len() < self.capacity {
            (DistributionModel { queue: self.queue.push(payload), ..self }, OfferModel::Accepted)
        } else if self.policy == Policy::Block {
            (self, OfferModel::Blocked(payload))
        } else if self.queue.len() == 0 {
            (self, OfferModel::Displaced(payload))
        } else {
            (
                DistributionModel { queue: self.queue.drop_first().push(payload), ..self },
                OfferModel::Displaced(self.queue[0]),
            )
        }
    }

    /// The fan-out takes the oldest payload, if any waits.
    pub open spec fn take(self) -> (DistributionModel, Option<Seq<char>>) {
        if self.queue.len() > 0 {
            (DistributionModel { queue: self.queue.drop_first(), ..self }, Some(self.queue[0]))
        } else {
            (self, None)
        }
    }

    /// The producer is done: nothing more goes in, what waits still comes out.
    pub open spec fn close(self) -> DistributionModel {
        DistributionModel { closed: true, ..self }
    }

    /// The producer is done and nothing waits any more.
    pub open spec fn drained(self) -> bool {
        self.closed && self.queue.len() == 0
    }

    /// The queue after the producer has offered `payloads` one after the
    /// other.
    pub open spec fn offer_all(self, payloads: Seq<Seq<char>>) -> DistributionModel
        decreases payloads.len(),
    {
        if payloads.len() == 0 {
            self
        } else {
            self.offer_all(payloads.drop_last()).offer(payloads.last()).0
        }
    }
}

/// The bounded queue of serialized samples between the producer and the
/// fan-out.
pub struct Distribution {
    capacity: usize,
    policy: Policy,
    queue: VecDeque<String>,
    closed: bool,
}

impl View for Distribution {
    type V = DistributionModel;

    closed spec fn view(&self) -> DistributionModel {
        DistributionModel {
            capacity: self.capacity as nat,
            policy: self.policy,
            queue: text_views(self.queue@),
            closed: self.closed,
        }
    }
}

impl Distribution {
    #[verifier::type_invariant]
    spec fn within_capacity(self) -> bool {
        self.queue@.len() <= self.capacity
    }

    /// An empty queue for at most `capacity` payloads.
    pub fn new(capacity: usize, policy: Policy) -> (distribution: Distribution)
        ensures
            distribution@ == DistributionModel::empty(capacity as nat, policy),
    {
        let distribution = Distribution { capacity, policy, queue: VecDeque::new(), closed: false };
        assert(distribution@.queue =~= Seq::empty());
        distribution
    }

    /// How many payloads may wait.
    pub fn capacity(&self) -> (capacity: usize)
        ensures
            capacity == self@.capacity,
    {
        self.capacity
    }

    /// What a full queue does with an offer.
    pub fn policy(&self) -> (policy: Policy)
        ensures
            policy == self@.policy,
    {
        self.policy
    }

    /// How many payloads wait; never more than the capacity.
    pub fn len(&self) -> (len: usize)
        ensures
            len == self@.queue.len(),
            self@.bounded(),
    {
        proof {
            use_type_invariant(self);
        }
        self.queue.len()
    }

    /// Whether an offer would find no room.
    pub fn is_full(&self) -> (full: bool)
        ensures
            full == (self@.queue.len() >= self@.capacity),
    {
        self.queue.len() >= self.capacity
    }

    /// Whether the producer is done.
    pub fn is_closed(&self) -> (closed: bool)
        ensures
            closed == self@.closed,
    {
        self.closed
    }

    /// Whether the producer is done and nothing waits any more: the fan-out
    /// can stop.
    pub fn is_drained(&self) -> (drained: bool)
        ensures
            drained == self@.drained(),
    {
        self.closed && self.queue.len() == 0
    }

    /// Offers a payload. It is accepted exactly when the queue is open and
    /// has room; otherwise the queue's policy decides.
    pub fn offer(&mut self, payload: String) -> (outcome: Offer)
        ensures
            (final(self)@, outcome@) == old(self)@.offer(payload@),
            final(self)@.bounded(),
    {
        proof {
            use_type_invariant(&*self);
        }
        if self.closed {
            return Offer::Closed(payload);
        }
        let room = self.queue.len() < self.capacity;
        if !room && self.policy == Policy::Block {
            return Offer::Blocked(payload);
        }
        let mut queue: VecDeque<String> = VecDeque::new();
        std::mem::swap(&mut self.queue, &mut queue);
        let outcome = if room {
            queue.push_back(payload);
            assert(text_views(queue@) =~= old(self)@.queue.push(payload@));
            Offer::Accepted
        } else {
            match queue.pop_front() {
                Some(oldest) => {
                    queue.push_back(payload);
                    assert(text_views(queue@) =~= old(self)@.queue.drop_first().push(payload@));
                    Offer::Displaced(oldest)
                },
                None => Offer::Displaced(payload),
            }
        };
        self.queue = queue;
        outcome
    }

    /// Takes the oldest payload for the fan-out, if any waits. A closed queue
    /// still gives out what it holds.
    pub fn take(&mut self) -> (payload: Option<String>)
        ensures
            final(self)@ == old(self)@.take().0,
            match payload {
                Some(payload) => old(self)@.take().1 == Some(payload@),
                None => old(self)@.take().1 is None,
            },
            final(self)@.bounded(),
    {
        proof {
            use_type_invariant(&*self);
        }
        let mut queue: VecDeque<String> = VecDeque::new();
        std::mem::swap(&mut self.queue, &mut queue);
        let payload = queue.pop_front();
        assert(payload is Some ==> text_views(queue@) =~= old(self)@.queue.drop_first());
        self.queue = queue;
        payload
    }

    /// Closes the queue for new payloads: the producer has reached the end of
    /// its input.
    pub fn close(&mut self)
        ensures
            final(self)@ == old(self)@.close(),
    {
        proof {
            use_type_invariant(&*self);
        }
        self.closed = true;
    }
}

/// An open queue accepts every offer that finds room: offered one after the
/// other, payloads that fit beside what waits already are all queued, in the
/// order of the offers, behind what waited.
pub proof fn lemma_offers_that_fit_are_queued(queue: DistributionModel, payloads: Seq<Seq<char>>)
    requires
        !queue.closed,
        queue.queue.len() + payloads.len() <= queue.capacity,
    ensures
        queue.offer_all(payloads) == (DistributionModel {
            queue: queue.queue + payloads,
            ..queue
        }),
        forall|i: int|
            0 <= i < payloads.len() ==> #[trigger] queue.offer_all(payloads.take(i)).offer(
                payloads[i],
            ).1 == OfferModel::Accepted,
    decreases payloads.len(),
{
    if payloads.len() == 0 {
        assert(queue.queue + payloads =~= queue.queue);
    } else {
        let earlier = payloads.drop_last();
        lemma_offers_that_fit_are_queued(queue, earlier);
        assert((queue.queue + earlier).push(payloads.last()) =~= queue.queue + payloads);
        assert forall|i: int| 0 <= i < payloads.len() implies #[trigger] queue.offer_all(
            payloads.take(i),
        ).offer(payloads[i]).1 == OfferModel::Accepted by {
            if i < earlier.len() {
                assert(payloads.take(i) =~= earlier.take(i));
                assert(payloads[i] == earlier[i]);
            } else {
                assert(payloads.take(i) =~= earlier);
            }
        }
    }
}

/// A full queue that blocks keeps what it has and hands the offer back; one
/// that drops gives up its oldest payload and queues the new one last.
pub proof fn lemma_full_queue_follows_policy(queue: DistributionModel, payload: Seq<char>)
    requires
        !queue.closed,
        queue.capacity > 0,
        queue.queue.len() == queue.capacity,
    ensures
        queue.policy == Policy::Block ==> queue.offer(payload) == (
            queue,
            OfferModel::Blocked(payload),
        ),
        queue.policy == Policy::DropOldest ==> queue.offer(payload).1 == OfferModel::Displaced(
            queue.queue[0],
        ) && queue.offer(payload).0.queue == queue.queue.drop_first().push(payload),
        queue.offer(payload).0.queue.len() == queue.capacity,
{
}

/// No offer and no taking ever leaves more waiting than the capacity allows.
pub proof fn lemma_queue_stays_bounded(queue: DistributionModel, payload: Seq<char>)
    requires
        queue.bounded(),
    ensures
        queue.offer(payload).0.bounded(),
        queue.take().0.bounded(),
        queue.close().bounded(),
{
}

} // verus!
