//! The relay as a whole: the distribution queue in front of the hub.
//!
//! The producer offers serialized samples to the queue; the fan-out takes
//! them out one by one and publishes each to every registered peer; each
//! peer's worker writes them to its socket. Nothing here waits or touches a
//! socket: the relay is told what happened and answers what to do.

use crate::distribution::{Distribution, DistributionModel, Offer, OfferModel, Policy};
use crate::frame::FrameModel;
use crate::hub::{
    fed_by_fan_out, lemma_every_sample_reaches_every_peer, lemma_run_is_consistent, published,
    stays, written_to, Hub, HubModel, HubStep,
};
use crate::worker::{texts_of, Action, ActionModel, Event, Phase, Step};
use vstd::prelude::*;

verus! {

/// The relay as mathematics: its queue and its hub.
pub ghost struct RelayModel {
    pub distribution: DistributionModel,
    pub hub: HubModel,
}

impl RelayModel {
    /// A relay with an empty queue and no peers.
    pub open spec fn empty(capacity: nat, policy: Policy) -> RelayModel {
        RelayModel { distribution: DistributionModel::empty(capacity, policy), hub: HubModel::empty() }
    }

    /// The producer offers a payload to the queue.
    pub open spec fn offer(self, payload: Seq<char>) -> (RelayModel, OfferModel) {
        (
            RelayModel { distribution: self.distribution.offer(payload).0, ..self },
            self.distribution.offer(payload).1,
        )
    }

    /// The producer's input has ended.
    pub open spec fn end_of_input(self) -> RelayModel {
        RelayModel { distribution: self.distribution.close(), ..self }
    }

    /// The fan-out moves the oldest waiting payload, if there is one, from
    /// the queue to every registered peer.
    pub open spec fn dispatch(self) -> (RelayModel, bool) {
        match self.distribution.take().1 {
            Some(payload) => (
                RelayModel {
                    distribution: self.distribution.take().0,
                    hub: self.hub.publish(payload),
                },
                true,
            ),
            None => (self, false),
        }
    }

    /// A connection was accepted and its handshake ended: a peer that
    /// upgraded is registered, any other is turned away and changes nothing.
    pub open spec fn accept(self, upgraded: bool) -> (RelayModel, Option<u64>) {
        if upgraded {
            (RelayModel { hub: self.hub.join().0, ..self }, self.hub.join().1)
        } else {
            (self, None)
        }
    }

    /// A peer's connection ended.
    pub open spec fn leave(self, id: u64) -> RelayModel {
        RelayModel { hub: self.hub.leave(id), ..self }
    }

    /// Something happened to one peer's connection.
    pub open spec fn handle(self, id: u64, step: Step) -> (RelayModel, Option<ActionModel>) {
        (RelayModel { hub: self.hub.handle(id, step).0, ..self }, self.hub.handle(id, step).1)
    }

    /// The producer is done, and everything it was able to queue has been
    /// published.
    pub open spec fn finished(self) -> bool {
        self.distribution.drained()
    }
}

/// The relay: a bounded queue of serialized samples and the peers they go
/// to.
pub struct Relay {
    distribution: Distribution,
    hub: Hub,
}

impl View for Relay {
    type V = RelayModel;

    closed spec fn view(&self) -> RelayModel {
        RelayModel { distribution: self.distribution@, hub: self.hub@ }
    }
}

impl Relay {
    /// A relay whose queue holds at most `capacity` payloads, with no peers.
    pub fn new(capacity: usize, policy: Policy) -> (relay: Relay)
        ensures
            relay@ == RelayModel::empty(capacity as nat, policy),
            relay@.hub.consistent(),
    {
        Relay { distribution: Distribution::new(capacity, policy), hub: Hub::new() }
    }

    /// Offers one serialized sample to the queue.
    pub fn offer(&mut self, payload: String) -> (outcome: Offer)
        ensures
            (final(self)@, outcome@) == old(self)@.offer(payload@),
    {
        self.distribution.offer(payload)
    }

    /// Tells the relay that the producer's input has ended: the queue takes
    /// nothing more, and what it holds is still published.
    pub fn end_of_input(&mut self)
        ensures
            final(self)@ == old(self)@.end_of_input(),
    {
        self.distribution.close();
    }

    /// Moves the oldest waiting payload to every registered peer. Returns
    /// whether there was one.
    pub fn dispatch(&mut self) -> (moved: bool)
        ensures
            (final(self)@, moved) == old(self)@.dispatch(),
            final(self)@.hub.consistent(),
    {
        match self.distribution.take() {
            Some(payload) => {
                self.hub.publish(payload.as_str());
                true
            },
            None => {
                proof {
                    self.hub.lemma_consistent();
                }
                false
            },
        }
    }

    /// Registers the peer of an accepted connection if its handshake
    /// succeeded and returns its number. A failed handshake registers
    /// nobody and leaves every other peer as it was.
    pub fn accept(&mut self, upgraded: bool) -> (id: Option<u64>)
        ensures
            (final(self)@, id) == old(self)@.accept(upgraded),
            final(self)@.hub.consistent(),
    {
        if upgraded {
            self.hub.join()
        } else {
            proof {
                self.hub.lemma_consistent();
            }
            None
        }
    }

    /// Drops a peer. Returns whether it was registered.
    pub fn leave(&mut self, id: u64) -> (present: bool)
        ensures
            final(self)@ == old(self)@.leave(id),
            present == old(self)@.hub.peers.contains_key(id),
            final(self)@.hub.consistent(),
    {
        self.hub.leave(id)
    }

    /// Hands an event to one peer's worker and returns what it asks for, or
    /// nothing if no such peer is registered.
    pub fn handle(&mut self, id: u64, event: Event) -> (action: Option<Action>)
        ensures
            final(self)@ == old(self)@.handle(id, event@).0,
            match action {
                Some(action) => old(self)@.handle(id, event@).1 == Some(action@),
                None => old(self)@.handle(id, event@).1 is None,
            },
            final(self)@.hub.consistent(),
    {
        self.hub.handle(id, event)
    }

    /// How many payloads wait in the queue.
    pub fn waiting(&self) -> (count: usize)
        ensures
            count == self@.distribution.queue.len(),
            self@.distribution.bounded(),
    {
        self.distribution.len()
    }

    /// How many peers are registered.
    pub fn peers(&self) -> (count: usize)
        ensures
            count == self@.hub.peers.dom().len(),
            self@.hub.consistent(),
    {
        self.hub.len()
    }

    /// The phase of a peer's connection, if the peer is registered.
    pub fn phase(&self, id: u64) -> (phase: Option<Phase>)
        ensures
            phase == (if self@.hub.peers.contains_key(id) {
                Some(self@.hub.peers[id].phase)
            } else {
                None
            }),
    {
        self.hub.phase(id)
    }

    /// Whether the producer is done and everything it queued has been
    /// published.
    pub fn is_finished(&self) -> (finished: bool)
        ensures
            finished == self@.finished(),
    {
        self.distribution.is_drained()
    }
}

/// One thing that happens to the relay.
pub ghost enum RelayStep {
    /// The producer offers a payload.
    Offer(Seq<char>),
    /// The producer's input has ended.
    EndOfInput,
    /// The fan-out moves one payload.
    Dispatch,
    /// A connection was accepted; its handshake succeeded or not.
    Accept(bool),
    /// The connection of this peer ended.
    Leave(u64),
    /// Something happened to the connection of this peer.
    Peer(u64, Step),
}

impl RelayModel {
    /// The relay after one step.
    pub open spec fn step(self, step: RelayStep) -> RelayModel {
        match step {
            RelayStep::Offer(payload) => self.offer(payload).0,
            RelayStep::EndOfInput => self.end_of_input(),
            RelayStep::Dispatch => self.dispatch().0,
            RelayStep::Accept(upgraded) => self.accept(upgraded).0,
            RelayStep::Leave(id) => self.leave(id),
            RelayStep::Peer(id, step) => self.handle(id, step).0,
        }
    }

    /// The relay after a run of steps.
    pub open spec fn run(self, steps: Seq<RelayStep>) -> RelayModel
        decreases steps.len(),
    {
        if steps.len() == 0 {
            self
        } else {
            self.run(steps.drop_last()).step(steps.last())
        }
    }

    /// What the hub goes through during a run of the relay.
    pub open spec fn hub_steps(self, steps: Seq<RelayStep>) -> Seq<HubStep>
        decreases steps.len(),
    {
        if steps.len() == 0 {
            Seq::empty()
        } else {
            let earlier = self.hub_steps(steps.drop_last());
            let before = self.run(steps.drop_last());
            match steps.last() {
                RelayStep::Dispatch => match before.distribution.take().1 {
                    Some(payload) => earlier.push(HubStep::Publish(payload)),
                    None => earlier,
                },
                RelayStep::Accept(true) => earlier.push(HubStep::Join),
                RelayStep::Leave(id) => earlier.push(HubStep::Leave(id)),
                RelayStep::Peer(id, step) => earlier.push(HubStep::Peer(id, step)),
                _ => earlier,
            }
        }
    }

    /// The payloads that the queue accepted during a run, in order.
    pub open spec fn accepted(self, steps: Seq<RelayStep>) -> Seq<Seq<char>>
        decreases steps.len(),
    {
        if steps.len() == 0 {
            Seq::empty()
        } else {
            let earlier = self.accepted(steps.drop_last());
            let before = self.run(steps.drop_last());
            match steps.last() {
                RelayStep::Offer(payload) => if before.offer(payload).1 == OfferModel::Accepted {
                    earlier.push(payload)
                } else {
                    earlier
                },
                _ => earlier,
            }
        }
    }

    /// The frames written to one peer during a run, in order.
    pub open spec fn written_to(self, steps: Seq<RelayStep>, id: u64) -> Seq<FrameModel> {
        written_to(self.hub, self.hub_steps(steps), id)
    }
}

/// The peer is not dropped during the run.
pub open spec fn remains(steps: Seq<RelayStep>, id: u64) -> bool {
    forall|k: int| 0 <= k < steps.len() ==> steps[k] != RelayStep::Leave(id)
}

/// The peer gets its samples through the queue alone.
pub open spec fn fed_by_queue(steps: Seq<RelayStep>, id: u64) -> bool {
    forall|k: int, payload: Seq<char>|
        0 <= k < steps.len() ==> steps[k] != RelayStep::Peer(id, Step::Arrive(payload))
}

proof fn lemma_hub_follows(relay: RelayModel, steps: Seq<RelayStep>)
    ensures
        relay.run(steps).hub == relay.hub.run(relay.hub_steps(steps)),
        relay.run(steps).distribution.policy == relay.distribution.policy,
        relay.run(steps).distribution.capacity == relay.distribution.capacity,
    decreases steps.len(),
{
    if steps.len() > 0 {
        let earlier = relay.hub_steps(steps.drop_last());
        let before = relay.run(steps.drop_last());
        lemma_hub_follows(relay, steps.drop_last());
        match steps.last() {
            RelayStep::Dispatch => {
                match before.distribution.take().1 {
                    Some(payload) => {
                        assert(earlier.push(HubStep::Publish(payload)).drop_last() =~= earlier);
                    },
                    None => {},
                }
            },
            RelayStep::Accept(upgraded) => {
                if upgraded {
                    assert(earlier.push(HubStep::Join).drop_last() =~= earlier);
                }
            },
            RelayStep::Leave(id) => {
                assert(earlier.push(HubStep::Leave(id)).drop_last() =~= earlier);
            },
            RelayStep::Peer(id, step) => {
                assert(earlier.push(HubStep::Peer(id, step)).drop_last() =~= earlier);
            },
            _ => {},
        }
    }
}

proof fn lemma_hub_steps_keep(relay: RelayModel, steps: Seq<RelayStep>, id: u64)
    ensures
        remains(steps, id) ==> stays(relay.hub_steps(steps), id),
        fed_by_queue(steps, id) ==> fed_by_fan_out(relay.hub_steps(steps), id),
    decreases steps.len(),
{
    if steps.len() > 0 {
        let rest = steps.drop_last();
        let earlier = relay.hub_steps(rest);
        lemma_hub_steps_keep(relay, rest, id);
        if remains(steps, id) {
            assert(remains(rest, id)) by {
                assert forall|k: int| 0 <= k < rest.len() implies rest[k] != RelayStep::Leave(
                    id,
                ) by {
                    assert(rest[k] == steps[k]);
                }
            }
            assert(steps[steps.len() - 1] != RelayStep::Leave(id));
            let now = relay.hub_steps(steps);
            assert forall|k: int| 0 <= k < now.len() implies now[k] != HubStep::Leave(id) by {
                if k < earlier.len() {
                    assert(now[k] == earlier[k]);
                }
            }
        }
        if fed_by_queue(steps, id) {
            assert(fed_by_queue(rest, id)) by {
                assert forall|k: int, payload: Seq<char>| 0 <= k < rest.len() implies rest[k]
                    != RelayStep::Peer(id, Step::Arrive(payload)) by {
                    assert(rest[k] == steps[k]);
                }
            }
            let now = relay.hub_steps(steps);
            assert forall|k: int, payload: Seq<char>| 0 <= k < now.len() implies now[k]
                != HubStep::Peer(id, Step::Arrive(payload)) by {
                if k < earlier.len() {
                    assert(now[k] == earlier[k]);
                } else {
                    assert(steps[steps.len() - 1] != RelayStep::Peer(id, Step::Arrive(payload)));
                }
            }
        }
    }
}

/// A queue that blocks is first in, first out and loses nothing: what the
/// fan-out has published, followed by what still waits, is what waited at the
/// start followed by every payload accepted since.
pub proof fn lemma_blocking_queue_loses_nothing(relay: RelayModel, steps: Seq<RelayStep>)
    requires
        relay.distribution.policy == Policy::Block,
    ensures
        published(relay.hub_steps(steps)) + relay.run(steps).distribution.queue
            == relay.distribution.queue + relay.accepted(steps),
    decreases steps.len(),
{
    let start = relay.distribution.queue;
    if steps.len() == 0 {
        assert(published(relay.hub_steps(steps)) + start =~= start + relay.accepted(steps));
    } else {
        let rest = steps.drop_last();
        let earlier = relay.hub_steps(rest);
        let before = relay.run(rest);
        lemma_blocking_queue_loses_nothing(relay, rest);
        lemma_hub_follows(relay, rest);
        let held = published(earlier) + before.distribution.queue;
        let after = relay.run(steps);
        let now = published(relay.hub_steps(steps)) + after.distribution.queue;
        match steps.last() {
            RelayStep::Offer(payload) => {
                if before.offer(payload).1 == OfferModel::Accepted {
                    assert(now =~= held.push(payload));
                    assert(held.push(payload) =~= start + relay.accepted(steps));
                } else {
                    assert(now =~= held);
                }
            },
            RelayStep::Dispatch => {
                match before.distribution.take().1 {
                    Some(payload) => {
                        assert(earlier.push(HubStep::Publish(payload)).drop_last() =~= earlier);
                        assert(published(relay.hub_steps(steps)) == published(earlier).push(
                            payload,
                        ));
                        assert(now =~= held);
                    },
                    None => {
                        assert(now =~= held);
                    },
                }
            },
            RelayStep::Accept(upgraded) => {
                if upgraded {
                    assert(earlier.push(HubStep::Join).drop_last() =~= earlier);
                }
                assert(now =~= held);
            },
            RelayStep::Leave(id) => {
                assert(earlier.push(HubStep::Leave(id)).drop_last() =~= earlier);
                assert(now =~= held);
            },
            RelayStep::Peer(id, step) => {
                assert(earlier.push(HubStep::Peer(id, step)).drop_last() =~= earlier);
                assert(now =~= held);
            },
            RelayStep::EndOfInput => {
                assert(now =~= held);
            },
        }
    }
}

/// Every accepted sample reaches every connected peer, in the order in which
/// the producer queued it.
///
/// Take a relay whose queue blocks when full, and a peer that is registered,
/// is not dropped during the run and whose connection is still open at its
/// end. Then the texts written to that peer, followed by the samples that
/// wait in its worker, followed by the payloads that wait in the queue, are
/// what waited for it at the start followed by every payload accepted since:
/// nothing is lost, doubled or reordered, whatever other peers do meanwhile.
pub proof fn lemma_accepted_samples_reach_peer(relay: RelayModel, steps: Seq<RelayStep>, id: u64)
    requires
        relay.distribution.policy == Policy::Block,
        relay.hub.consistent(),
        relay.hub.peers.contains_key(id),
        remains(steps, id),
        fed_by_queue(steps, id),
        relay.run(steps).hub.peers[id].phase == Phase::Open,
    ensures
        texts_of(relay.written_to(steps, id)) + relay.run(steps).hub.peers[id].samples + relay.run(
            steps,
        ).distribution.queue == relay.hub.peers[id].samples + relay.distribution.queue
            + relay.accepted(steps),
{
    lemma_hub_follows(relay, steps);
    lemma_hub_steps_keep(relay, steps, id);
    lemma_blocking_queue_loses_nothing(relay, steps);
    lemma_every_sample_reaches_every_peer(relay.hub, relay.hub_steps(steps), id);
    let written = texts_of(relay.written_to(steps, id));
    let pending = relay.run(steps).hub.peers[id].samples;
    let queue = relay.run(steps).distribution.queue;
    let fanned = published(relay.hub_steps(steps));
    assert(written + pending + queue =~= relay.hub.peers[id].samples + (fanned + queue));
    assert(relay.hub.peers[id].samples + (relay.distribution.queue + relay.accepted(steps))
        =~= relay.hub.peers[id].samples + relay.distribution.queue + relay.accepted(steps));
}

/// A run can be taken in two parts: what holds of every run from every state
/// holds of the rest of a run from the state its first part ended in, such
/// as the state in which a peer has just joined.
pub proof fn lemma_run_continues(relay: RelayModel, first: Seq<RelayStep>, rest: Seq<RelayStep>)
    ensures
        relay.run(first + rest) == relay.run(first).run(rest),
    decreases rest.len(),
{
    if rest.len() == 0 {
        assert(first + rest =~= first);
    } else {
        lemma_run_continues(relay, first, rest.drop_last());
        assert((first + rest).drop_last() =~= first + rest.drop_last());
        assert((first + rest).last() == rest.last());
    }
}

/// The relay's registry stays consistent over every run, so a peer's number
/// is never given to another peer.
pub proof fn lemma_numbers_are_never_reused(relay: RelayModel, steps: Seq<RelayStep>)
    requires
        relay.hub.consistent(),
    ensures
        relay.run(steps).hub.consistent(),
        relay.hub.next_id <= relay.run(steps).hub.next_id,
{
    lemma_hub_follows(relay, steps);
    lemma_run_is_consistent(relay.hub, relay.hub_steps(steps));
}

} // verus!
