//! The registry of connected peers and the fan-out to them.
//!
//! Every peer has a connection worker of its own. The hub is the one place
//! that knows them all: a peer is added when its handshake succeeds, removed
//! when its connection ends, and every sample that leaves the distribution
//! queue is offered to each of them.

use crate::frame::FrameModel;
use crate::worker::{
    arrived, lemma_every_reply_is_accounted_for, lemma_replies_not_starved,
    lemma_samples_in_order, replies_of, selections, texts_of, Action, ActionModel, Event, Phase,
    Step, Worker, WorkerModel,
};
use vstd::prelude::*;

verus! {

/// The hub as mathematics: the worker of every registered peer, by the
/// peer's number, and the number the next peer gets.
pub ghost struct HubModel {
    pub peers: Map<u64, WorkerModel>,
    pub next_id: nat,
}

impl HubModel {
    /// A hub without peers.
    pub open spec fn empty() -> HubModel {
        HubModel { peers: Map::empty(), next_id: 0 }
    }

    /// Every number in use was issued before: the next peer's number is new.
    pub open spec fn consistent(self) -> bool {
        forall|id: u64| self.peers.contains_key(id) ==> id < self.next_id
    }

    /// A peer's handshake succeeded: it gets the next number and a fresh
    /// worker. Numbers are never reused; when they run out, nobody joins.
    pub open spec fn join(self) -> (HubModel, Option<u64>) {
        if self.next_id < u64::MAX {
            (
                HubModel {
                    peers: self.peers.insert(self.next_id as u64, WorkerModel::fresh()),
                    next_id: self.next_id + 1,
                },
                Some(self.next_id as u64),
            )
        } else {
            (self, None)
        }
    }

    /// A peer's connection ended: its worker is dropped from the registry.
    pub open spec fn leave(self, id: u64) -> HubModel {
        HubModel { peers: self.peers.remove(id), ..self }
    }

    /// A sample leaves the distribution queue: every registered worker is
    /// offered it.
    pub open spec fn publish(self, payload: Seq<char>) -> HubModel {
        HubModel {
            peers: Map::new(
                |id: u64| self.peers.contains_key(id),
                |id: u64| self.peers[id].arrive(payload),
            ),
            ..self
        }
    }

    /// Something happens to one peer's connection: that worker takes the
    /// step, and no other worker changes.
    pub open spec fn handle(self, id: u64, step: Step) -> (HubModel, Option<ActionModel>) {
        if self.peers.contains_key(id) {
            (
                HubModel { peers: self.peers.insert(id, self.peers[id].step(step).0), ..self },
                Some(self.peers[id].step(step).1),
            )
        } else {
            (self, None)
        }
    }
}

struct Peer {
    id: u64,
    worker: Worker,
}

spec fn distinct(peers: Seq<Peer>) -> bool {
    forall|i: int, j: int| 0 <= i < j < peers.len() ==> peers[i].id != peers[j].id
}

spec fn holds(peers: Seq<Peer>, id: u64) -> bool {
    exists|i: int| 0 <= i < peers.len() && #[trigger] peers[i].id == id
}

spec fn place(peers: Seq<Peer>, id: u64) -> int {
    choose|i: int| 0 <= i < peers.len() && #[trigger] peers[i].id == id
}

spec fn table(peers: Seq<Peer>) -> Map<u64, WorkerModel> {
    Map::new(|id: u64| holds(peers, id), |id: u64| peers[place(peers, id)].worker@)
}

proof fn lemma_place(peers: Seq<Peer>, i: int)
    requires
        distinct(peers),
        0 <= i < peers.len(),
    ensures
        holds(peers, peers[i].id),
        place(peers, peers[i].id) == i,
        table(peers).contains_key(peers[i].id),
        table(peers)[peers[i].id] == peers[i].worker@,
{
    let id = peers[i].id;
    assert(0 <= i < peers.len() && peers[i].id == id);
    let found = place(peers, id);
    assert(0 <= found < peers.len() && peers[found].id == id);
    if found < i {
        assert(peers[found].id != peers[i].id);
    } else if i < found {
        assert(peers[i].id != peers[found].id);
    }
}

proof fn lemma_held(peers: Seq<Peer>, id: u64)
    requires
        holds(peers, id),
    ensures
        0 <= place(peers, id) < peers.len(),
        peers[place(peers, id)].id == id,
{
}

spec fn registry(peers: Seq<Peer>, next_id: u64) -> Map<u64, WorkerModel> {
    Map::new(
        |id: u64| holds(peers, id) && id < next_id,
        |id: u64| peers[place(peers, id)].worker@,
    )
}

proof fn lemma_numbers_issued(peers: Seq<Peer>, next_id: u64)
    requires
        forall|i: int| 0 <= i < peers.len() ==> (#[trigger] peers[i]).id < next_id,
    ensures
        forall|id: u64| table(peers).contains_key(id) ==> id < next_id,
        registry(peers, next_id) == table(peers),
{
    assert forall|id: u64| table(peers).contains_key(id) implies id < next_id by {
        lemma_held(peers, id);
    }
    assert(registry(peers, next_id) =~= table(peers));
}

/// The peers of a relay, each with its connection worker.
pub struct Hub {
    peers: Vec<Peer>,
    next_id: u64,
}

impl View for Hub {
    type V = HubModel;

    closed spec fn view(&self) -> HubModel {
        HubModel { peers: registry(self.peers@, self.next_id), next_id: self.next_id as nat }
    }
}

impl Hub {
    #[verifier::type_invariant]
    spec fn registered_once(self) -> bool {
        &&& distinct(self.peers@)
        &&& forall|i: int| 0 <= i < self.peers@.len() ==> (#[trigger] self.peers@[i]).id < self.next_id
    }

    /// A hub without peers.
    pub fn new() -> (hub: Hub)
        ensures
            hub@ == HubModel::empty(),
            hub@.consistent(),
    {
        let hub = Hub { peers: Vec::new(), next_id: 0 };
        assert(hub@.peers =~= Map::empty());
        hub
    }

    /// Every number in use in a hub was issued by it before.
    pub proof fn lemma_consistent(&self)
        ensures
            self@.consistent(),
    {
    }

    /// How many peers are registered.
    pub fn len(&self) -> (len: usize)
        ensures
            len == self@.peers.dom().len(),
            self@.peers.dom().finite(),
            self@.consistent(),
    {
        proof {
            use_type_invariant(self);
            lemma_table_size(self.peers@);
            lemma_numbers_issued(self.peers@, self.next_id);
        }
        self.peers.len()
    }

    /// Whether a peer with this number is registered.
    pub fn contains(&self, id: u64) -> (present: bool)
        ensures
            present == self@.peers.contains_key(id),
    {
        proof {
            use_type_invariant(self);
            lemma_numbers_issued(self.peers@, self.next_id);
        }
        self.find(id).is_some()
    }

    /// The phase of a peer's connection, if the peer is registered.
    pub fn phase(&self, id: u64) -> (phase: Option<Phase>)
        ensures
            phase == (if self@.peers.contains_key(id) {
                Some(self@.peers[id].phase)
            } else {
                None
            }),
    {
        proof {
            use_type_invariant(self);
            lemma_numbers_issued(self.peers@, self.next_id);
        }
        match self.find(id) {
            Some(i) => Some(self.peers[i].worker.phase()),
            None => None,
        }
    }

    fn find(&self, id: u64) -> (index: Option<usize>)
        ensures
            match index {
                Some(i) => i < self.peers@.len() && self.peers@[i as int].id == id && holds(
                    self.peers@,
                    id,
                ) && place(self.peers@, id) == i,
                None => !holds(self.peers@, id),
            },
            distinct(self.peers@),
    {
        proof {
            use_type_invariant(self);
        }
        let mut i: usize = 0;
        while i < self.peers.len()
            invariant
                i <= self.peers@.len(),
                distinct(self.peers@),
                forall|j: int| 0 <= j < i ==> (#[trigger] self.peers@[j]).id != id,
            decreases self.peers@.len() - i,
        {
            if self.peers[i].id == id {
                proof {
                    lemma_place(self.peers@, i as int);
                }
                return Some(i);
            }
            i += 1;
        }
        None
    }

    /// Registers a peer whose handshake succeeded and gives it a fresh, open
    /// worker. Returns the peer's number, or nothing when the numbers have
    /// run out.
    pub fn join(&mut self) -> (id: Option<u64>)
        ensures
            (final(self)@, id) == old(self)@.join(),
            final(self)@.consistent(),
    {
        proof {
            use_type_invariant(&*self);
            lemma_numbers_issued(self.peers@, self.next_id);
        }
        if self.next_id == u64::MAX {
            return None;
        }
        let id = self.next_id;
        let mut peers: Vec<Peer> = Vec::new();
        std::mem::swap(&mut self.peers, &mut peers);
        let ghost before = peers@;
        peers.push(Peer { id, worker: Worker::new() });
        proof {
            let after = peers@;
            assert(distinct(after));
            assert forall|key: u64| #[trigger] table(after).contains_key(key) == (key == id
                || table(before).contains_key(key)) by {
                if holds(before, key) {
                    lemma_held(before, key);
                    assert(after[place(before, key)].id == key);
                }
                if key == id {
                    assert(after[before.len() as int].id == key);
                }
                if holds(after, key) && key != id {
                    lemma_held(after, key);
                    assert(before[place(after, key)].id == key);
                }
            }
            assert forall|key: u64| table(after).contains_key(key) implies #[trigger] table(
                after,
            )[key] == (if key == id {
                WorkerModel::fresh()
            } else {
                table(before)[key]
            }) by {
                if key == id {
                    lemma_place(after, before.len() as int);
                } else {
                    lemma_held(before, key);
                    lemma_place(after, place(before, key));
                }
            }
            assert(table(after) =~= table(before).insert(id, WorkerModel::fresh()));
        }
        self.next_id = id + 1;
        self.peers = peers;
        proof {
            lemma_numbers_issued(self.peers@, self.next_id);
        }
        Some(id)
    }

    /// Drops a peer from the registry, whatever its connection's phase: it is
    /// offered no further sample. Returns whether the peer was registered.
    pub fn leave(&mut self, id: u64) -> (present: bool)
        ensures
            final(self)@ == old(self)@.leave(id),
            present == old(self)@.peers.contains_key(id),
            final(self)@.consistent(),
    {
        proof {
            use_type_invariant(&*self);
            lemma_numbers_issued(self.peers@, self.next_id);
        }
        match self.find(id) {
            None => {
                assert(self@.peers =~= old(self)@.peers.remove(id));
                false
            },
            Some(i) => {
                let mut peers: Vec<Peer> = Vec::new();
                std::mem::swap(&mut self.peers, &mut peers);
                let ghost before = peers@;
                let _ = peers.remove(i);
                proof {
                    let after = peers@;
                    assert(after =~= before.remove(i as int));
                    assert forall|a: int, b: int| 0 <= a < b < after.len() implies after[a].id
                        != after[b].id by {
                        let a_before = if a < i { a } else { a + 1 };
                        let b_before = if b < i { b } else { b + 1 };
                        assert(after[a] == before[a_before]);
                        assert(after[b] == before[b_before]);
                    }
                    assert forall|key: u64| #[trigger] table(after).contains_key(key) == (key
                        != id && table(before).contains_key(key)) by {
                        if holds(before, key) && key != id {
                            lemma_held(before, key);
                            let at = place(before, key);
                            let moved = if at < i { at } else { at - 1 };
                            assert(after[moved].id == key);
                        }
                        if holds(after, key) {
                            lemma_held(after, key);
                            let at = place(after, key);
                            let from = if at < i { at } else { at + 1 };
                            assert(before[from].id == key);
                            if key == id {
                                lemma_place(before, from);
                            }
                        }
                    }
                    assert forall|key: u64| table(after).contains_key(key) implies #[trigger] table(
                        after,
                    )[key] == table(before)[key] by {
                        lemma_held(after, key);
                        let at = place(after, key);
                        let from = if at < i { at } else { at + 1 };
                        assert(after[at] == before[from]);
                        lemma_place(before, from);
                    }
                    assert(table(after) =~= table(before).remove(id));
                    assert forall|j: int| 0 <= j < after.len() implies (#[trigger] after[j]).id
                        < self.next_id by {
                        let from = if j < i { j } else { j + 1 };
                        assert(after[j] == before[from]);
                    }
                }
                self.peers = peers;
                proof {
                    lemma_numbers_issued(self.peers@, self.next_id);
                }
                true
            },
        }
    }

    /// Offers a sample to every registered peer. An open connection queues
    /// it behind what it already holds; any other drops it.
    pub fn publish(&mut self, payload: &str)
        ensures
            final(self)@ == old(self)@.publish(payload@),
            final(self)@.consistent(),
    {
        proof {
            use_type_invariant(&*self);
            lemma_numbers_issued(self.peers@, self.next_id);
        }
        let mut peers: Vec<Peer> = Vec::new();
        std::mem::swap(&mut self.peers, &mut peers);
        let ghost before = peers@;
        let mut i: usize = 0;
        while i < peers.len()
            invariant
                i <= peers@.len(),
                peers@.len() == before.len(),
                forall|j: int| 0 <= j < peers@.len() ==> (#[trigger] peers@[j]).id == before[j].id,
                forall|j: int|
                    0 <= j < i ==> (#[trigger] peers@[j]).worker@ == before[j].worker@.arrive(
                        payload@,
                    ),
                forall|j: int| i <= j < peers@.len() ==> (#[trigger] peers@[j]).worker@ == before[j].worker@,
            decreases peers@.len() - i,
        {
            peers[i].worker.on_sample(payload.to_owned());
            i += 1;
        }
        proof {
            let after = peers@;
            assert(distinct(after)) by {
                assert forall|a: int, b: int| 0 <= a < b < after.len() implies after[a].id
                    != after[b].id by {
                    assert(after[a].id == before[a].id);
                    assert(after[b].id == before[b].id);
                }
            }
            assert forall|key: u64| #[trigger] table(after).contains_key(key) == table(
                before,
            ).contains_key(key) by {
                if holds(before, key) {
                    lemma_held(before, key);
                    assert(after[place(before, key)].id == key);
                }
                if holds(after, key) {
                    lemma_held(after, key);
                    assert(before[place(after, key)].id == key);
                }
            }
            assert forall|key: u64| table(after).contains_key(key) implies #[trigger] table(
                after,
            )[key] == table(before)[key].arrive(payload@) by {
                lemma_held(before, key);
                let at = place(before, key);
                assert(after[at].id == key);
                lemma_place(after, at);
            }
            assert(table(after) =~= old(self)@.publish(payload@).peers);
            assert forall|j: int| 0 <= j < after.len() implies (#[trigger] after[j]).id
                < self.next_id by {
                assert(after[j].id == before[j].id);
            }
        }
        self.peers = peers;
        proof {
            lemma_numbers_issued(self.peers@, self.next_id);
        }
    }

    /// Hands an event to the worker of one peer and returns what that worker
    /// asks for, or nothing if no such peer is registered. No other peer's
    /// worker changes.
    pub fn handle(&mut self, id: u64, event: Event) -> (action: Option<Action>)
        ensures
            final(self)@ == old(self)@.handle(id, event@).0,
            match action {
                Some(action) => old(self)@.handle(id, event@).1 == Some(action@),
                None => old(self)@.handle(id, event@).1 is None,
            },
            final(self)@.consistent(),
    {
        proof {
            use_type_invariant(&*self);
            lemma_numbers_issued(self.peers@, self.next_id);
        }
        match self.find(id) {
            None => None,
            Some(i) => {
                let mut peers: Vec<Peer> = Vec::new();
                std::mem::swap(&mut self.peers, &mut peers);
                let ghost before = peers@;
                let action = peers[i].worker.handle(event);
                proof {
                    let after = peers@;
                    assert(after.len() == before.len());
                    assert forall|j: int| 0 <= j < after.len() implies (#[trigger] after[j]).id
                        == before[j].id by {
                        if j != i {
                            assert(after[j] == before[j]);
                        }
                    }
                    assert(distinct(after)) by {
                        assert forall|a: int, b: int| 0 <= a < b < after.len() implies after[a].id
                            != after[b].id by {
                            assert(after[a].id == before[a].id);
                            assert(after[b].id == before[b].id);
                        }
                    }
                    assert forall|key: u64| #[trigger] table(after).contains_key(key) == table(
                        before,
                    ).contains_key(key) by {
                        if holds(before, key) {
                            lemma_held(before, key);
                            assert(after[place(before, key)].id == key);
                        }
                        if holds(after, key) {
                            lemma_held(after, key);
                            assert(before[place(after, key)].id == key);
                        }
                    }
                    assert forall|key: u64| table(after).contains_key(key) implies #[trigger] table(
                        after,
                    )[key] == (if key == id {
                        table(before)[id].step(event@).0
                    } else {
                        table(before)[key]
                    }) by {
                        lemma_held(before, key);
                        let at = place(before, key);
                        assert(after[at].id == key);
                        lemma_place(after, at);
                        if at != i {
                            assert(after[at] == before[at]);
                        }
                    }
                    assert(table(after) =~= table(before).insert(
                        id,
                        table(before)[id].step(event@).0,
                    ));
                }
                self.peers = peers;
                proof {
                    lemma_numbers_issued(self.peers@, self.next_id);
                }
                Some(action)
            },
        }
    }
}

proof fn lemma_table_size(peers: Seq<Peer>)
    requires
        distinct(peers),
    ensures
        table(peers).dom().finite(),
        table(peers).dom().len() == peers.len(),
    decreases peers.len(),
{
    if peers.len() == 0 {
        assert(table(peers).dom() =~= Set::empty());
    } else {
        let rest = peers.drop_last();
        let last = peers.last();
        assert(distinct(rest));
        lemma_table_size(rest);
        assert(!table(rest).dom().contains(last.id)) by {
            if holds(rest, last.id) {
                lemma_held(rest, last.id);
                assert(peers[place(rest, last.id)].id == last.id);
            }
        }
        assert(table(peers).dom() =~= table(rest).dom().insert(last.id)) by {
            assert forall|key: u64| #[trigger] table(peers).dom().contains(key) == (key == last.id
                || table(rest).dom().contains(key)) by {
                if holds(rest, key) {
                    lemma_held(rest, key);
                    assert(peers[place(rest, key)].id == key);
                }
                if key == last.id {
                    assert(peers[peers.len() - 1].id == key);
                }
                if holds(peers, key) && key != last.id {
                    lemma_held(peers, key);
                    assert(rest[place(peers, key)].id == key);
                }
            }
        }
    }
}


/// One thing that happens to the hub.
pub ghost enum HubStep {
    /// A peer's handshake succeeded.
    Join,
    /// The connection of this peer ended.
    Leave(u64),
    /// A sample left the distribution queue.
    Publish(Seq<char>),
    /// Something happened to the connection of this peer.
    Peer(u64, Step),
}

impl HubModel {
    /// The hub after one step.
    pub open spec fn step(self, step: HubStep) -> HubModel {
        match step {
            HubStep::Join => self.join().0,
            HubStep::Leave(id) => self.leave(id),
            HubStep::Publish(payload) => self.publish(payload),
            HubStep::Peer(id, step) => self.handle(id, step).0,
        }
    }

    /// The hub after a run of steps.
    pub open spec fn run(self, steps: Seq<HubStep>) -> HubModel
        decreases steps.len(),
    {
        if steps.len() == 0 {
            self
        } else {
            self.run(steps.drop_last()).step(steps.last())
        }
    }
}

/// What one peer's worker sees of a run: every published sample as an
/// arrival, and the steps of its own connection. What happens to other peers
/// is not in it.
pub open spec fn seen_by(steps: Seq<HubStep>, id: u64) -> Seq<Step>
    decreases steps.len(),
{
    if steps.len() == 0 {
        Seq::empty()
    } else {
        match steps.last() {
            HubStep::Publish(payload) => seen_by(steps.drop_last(), id).push(Step::Arrive(payload)),
            HubStep::Peer(peer, step) if peer == id => seen_by(steps.drop_last(), id).push(step),
            _ => seen_by(steps.drop_last(), id),
        }
    }
}

/// The samples published during a run, in order.
pub open spec fn published(steps: Seq<HubStep>) -> Seq<Seq<char>>
    decreases steps.len(),
{
    if steps.len() == 0 {
        Seq::empty()
    } else {
        match steps.last() {
            HubStep::Publish(payload) => published(steps.drop_last()).push(payload),
            _ => published(steps.drop_last()),
        }
    }
}

/// The peer is not dropped from the registry during the run.
pub open spec fn stays(steps: Seq<HubStep>, id: u64) -> bool {
    forall|k: int| 0 <= k < steps.len() ==> steps[k] != HubStep::Leave(id)
}

/// The peer gets its samples through the fan-out alone: nobody hands its
/// worker a sample directly.
pub open spec fn fed_by_fan_out(steps: Seq<HubStep>, id: u64) -> bool {
    forall|k: int, payload: Seq<char>|
        0 <= k < steps.len() ==> steps[k] != HubStep::Peer(id, Step::Arrive(payload))
}

/// The frames written to one peer during a run, in order.
pub open spec fn written_to(hub: HubModel, steps: Seq<HubStep>, id: u64) -> Seq<FrameModel> {
    hub.peers[id].written(seen_by(steps, id))
}

/// The numbers in use stay below the next number, whatever happens.
pub proof fn lemma_run_is_consistent(hub: HubModel, steps: Seq<HubStep>)
    requires
        hub.consistent(),
    ensures
        hub.run(steps).consistent(),
        hub.next_id <= hub.run(steps).next_id,
    decreases steps.len(),
{
    if steps.len() > 0 {
        lemma_run_is_consistent(hub, steps.drop_last());
    }
}

/// Peers do not interfere: as long as a peer stays registered, its worker
/// goes through exactly the steps that concern it, as if it were alone with
/// the fan-out. Other peers joining, misbehaving, failing or leaving change
/// nothing for it.
pub proof fn lemma_peers_do_not_interfere(hub: HubModel, steps: Seq<HubStep>, id: u64)
    requires
        hub.consistent(),
        hub.peers.contains_key(id),
        stays(steps, id),
    ensures
        hub.run(steps).peers.contains_key(id),
        hub.run(steps).peers[id] == hub.peers[id].run(seen_by(steps, id)),
    decreases steps.len(),
{
    if steps.len() > 0 {
        let earlier = steps.drop_last();
        assert(stays(earlier, id)) by {
            assert forall|k: int| 0 <= k < earlier.len() implies earlier[k] != HubStep::Leave(
                id,
            ) by {
                assert(earlier[k] == steps[k]);
            }
        }
        lemma_peers_do_not_interfere(hub, earlier, id);
        lemma_run_is_consistent(hub, earlier);
        let before = hub.run(earlier);
        let seen = seen_by(earlier, id);
        assert(steps[steps.len() - 1] != HubStep::Leave(id));
        match steps.last() {
            HubStep::Publish(payload) => {
                assert(seen.push(Step::Arrive(payload)).drop_last() =~= seen);
            },
            HubStep::Peer(peer, step) => {
                if peer == id {
                    assert(seen.push(step).drop_last() =~= seen);
                }
            },
            _ => {},
        }
    }
}

/// Dropping one peer changes nothing for another: the sample published next
/// finds the other peer's worker in the same state and leaves it in the same
/// state as it would have without the drop.
pub proof fn lemma_leaving_does_not_disturb(hub: HubModel, gone: u64, id: u64, payload: Seq<char>)
    requires
        hub.peers.contains_key(id),
        gone != id,
    ensures
        hub.leave(gone).peers.contains_key(id),
        hub.leave(gone).peers[id] == hub.peers[id],
        hub.leave(gone).publish(payload).peers[id] == hub.publish(payload).peers[id],
{
}

proof fn lemma_fan_out_is_what_arrives(steps: Seq<HubStep>, id: u64)
    requires
        fed_by_fan_out(steps, id),
    ensures
        arrived(seen_by(steps, id)) == published(steps),
    decreases steps.len(),
{
    if steps.len() > 0 {
        let earlier = steps.drop_last();
        assert(fed_by_fan_out(earlier, id)) by {
            assert forall|k: int, payload: Seq<char>| 0 <= k < earlier.len() implies earlier[k]
                != HubStep::Peer(id, Step::Arrive(payload)) by {
                assert(earlier[k] == steps[k]);
            }
        }
        lemma_fan_out_is_what_arrives(earlier, id);
        let seen = seen_by(earlier, id);
        match steps.last() {
            HubStep::Publish(payload) => {
                assert(seen.push(Step::Arrive(payload)).drop_last() =~= seen);
            },
            HubStep::Peer(peer, step) => {
                if peer == id {
                    assert(seen.push(step).drop_last() =~= seen);
                    match step {
                        Step::Arrive(payload) => {
                            assert(steps[steps.len() - 1] != HubStep::Peer(
                                id,
                                Step::Arrive(payload),
                            ));
                        },
                        _ => {},
                    }
                }
            },
            _ => {},
        }
    }
}

/// Every sample reaches every peer, in order: for a peer that stays
/// registered and whose connection is still open, the texts written to it,
/// followed by the samples that wait in its worker, are the samples that
/// waited there at the start followed by every sample published since, in
/// the order of publication.
pub proof fn lemma_every_sample_reaches_every_peer(hub: HubModel, steps: Seq<HubStep>, id: u64)
    requires
        hub.consistent(),
        hub.peers.contains_key(id),
        stays(steps, id),
        fed_by_fan_out(steps, id),
        hub.run(steps).peers[id].phase == Phase::Open,
    ensures
        texts_of(written_to(hub, steps, id)) + hub.run(steps).peers[id].samples
            == hub.peers[id].samples + published(steps),
{
    lemma_peers_do_not_interfere(hub, steps, id);
    lemma_fan_out_is_what_arrives(steps, id);
    lemma_samples_in_order(hub.peers[id], seen_by(steps, id));
}

/// Every ping gets its pong, whatever the traffic and whatever other peers
/// do: for a peer that stays registered, the pongs written to it, followed
/// by the replies that wait in its worker, followed by those given up at its
/// release, are the replies that waited at the start followed by one pong for
/// each ping that came while its connection was open, in the order of the
/// pings; before the release nothing is given up. And samples cannot hold
/// the replies back: until the connection is closed, of the replies that
/// waited at the start either all are written, or at least one for every two
/// frames that the peer's writer asked for.
pub proof fn lemma_every_ping_gets_its_pong(hub: HubModel, steps: Seq<HubStep>, id: u64)
    requires
        hub.consistent(),
        hub.peers.contains_key(id),
        stays(steps, id),
    ensures
        replies_of(written_to(hub, steps, id)) + hub.run(steps).peers[id].control
            + hub.peers[id].given_up(seen_by(steps, id)) == hub.peers[id].control
            + hub.peers[id].owed(seen_by(steps, id)),
        hub.run(steps).peers[id].phase != Phase::Closed ==> {
            &&& hub.peers[id].given_up(seen_by(steps, id)) == Seq::<
                crate::frame::ControlModel,
            >::empty()
            &&& (replies_of(written_to(hub, steps, id)).len() >= hub.peers[id].control.len() || 2
                * replies_of(written_to(hub, steps, id)).len() + 1 >= selections(
                seen_by(steps, id),
            ))
        },
{
    lemma_peers_do_not_interfere(hub, steps, id);
    lemma_every_reply_is_accounted_for(hub.peers[id], seen_by(steps, id));
    if hub.run(steps).peers[id].phase != Phase::Closed {
        lemma_replies_not_starved(hub.peers[id], seen_by(steps, id));
    }
}

} // verus!
