//! The state machine of one connection.

use crate::frame::{control_views, text_views, Control, ControlModel, Frame, FrameModel};
use std::collections::VecDeque;
use vstd::prelude::*;

verus! {

/// Where a connection stands in its life.
#[derive(Clone, Copy, PartialEq, Eq, Structural, Debug)]
pub enum Phase {
    /// Frames flow in both directions.
    Open,
    /// The connection is going down: nothing more is taken in, and only the
    /// replies it still owes are written.
    Closing,
    /// Everything is released. No transition leaves this phase.
    Closed,
}

/// One thing that happens to a connection.
#[derive(Debug, PartialEq, Eq)]
pub enum Event {
    /// The fan-out offers a sample.
    Sample(String),
    /// The reader got a frame from the peer.
    Frame(Frame),
    /// The socket can take the next outgoing frame.
    Writable,
    /// A read or a write on the socket failed, or the peer hung up.
    Failed,
    /// The socket is shut and the connection's tasks have stopped.
    Released,
}

/// What an [`Event`] is.
pub ghost enum Step {
    Arrive(Seq<char>),
    Receive(FrameModel),
    Select,
    Fail,
    Release,
}

impl View for Event {
    type V = Step;

    open spec fn view(&self) -> Step {
        match self {
            Event::Sample(payload) => Step::Arrive(payload@),
            Event::Frame(frame) => Step::Receive(frame@),
            Event::Writable => Step::Select,
            Event::Failed => Step::Fail,
            Event::Released => Step::Release,
        }
    }
}

/// What whoever runs the connection has to do after an event.
#[derive(Debug, PartialEq, Eq)]
pub enum Action {
    /// Nothing.
    Nothing,
    /// Write this frame to the socket.
    Write(Frame),
    /// Hand this application payload to the output sink.
    Sink(String),
    /// Stop reading, stop the writer and release the connection.
    Shutdown,
}

/// What an [`Action`] is.
pub ghost enum ActionModel {
    Nothing,
    Write(FrameModel),
    Sink(Seq<char>),
    Shutdown,
}

impl View for Action {
    type V = ActionModel;

    open spec fn view(&self) -> ActionModel {
        match self {
            Action::Nothing => ActionModel::Nothing,
            Action::Write(frame) => ActionModel::Write(frame@),
            Action::Sink(text) => ActionModel::Sink(text@),
            Action::Shutdown => ActionModel::Shutdown,
        }
    }
}

impl ActionModel {
    /// The frame that the action puts on the wire, if it is a write.
    pub open spec fn frame(self) -> Option<FrameModel> {
        match self {
            ActionModel::Write(frame) => Some(frame),
            _ => None,
        }
    }
}

/// The state of one connection as mathematics: its phase, the samples and the
/// replies that wait to be written (oldest first), and whose turn it is when
/// both wait.
pub ghost struct WorkerModel {
    pub phase: Phase,
    pub samples: Seq<Seq<char>>,
    pub control: Seq<ControlModel>,
    pub control_turn: bool,
}

impl WorkerModel {
    /// A connection right after the handshake.
    pub open spec fn fresh() -> WorkerModel {
        WorkerModel { phase: Phase::Open, samples: Seq::empty(), control: Seq::empty(), control_turn: false }
    }

    /// A sample comes from the fan-out: an open connection queues it, any
    /// other drops it.
    pub open spec fn arrive(self, payload: Seq<char>) -> WorkerModel {
        if self.phase == Phase::Open {
            WorkerModel { samples: self.samples.push(payload), ..self }
        } else {
            self
        }
    }

    /// A frame comes from the peer.
    ///
    /// An open connection queues a pong for a ping, hands application text to
    /// the sink, starts closing on a close frame and ignores the rest. A
    /// connection that is not open ignores every frame.
    pub open spec fn receive(self, frame: FrameModel) -> (WorkerModel, ActionModel) {
        if self.phase != Phase::Open {
            (self, ActionModel::Nothing)
        } else {
            match frame {
                FrameModel::Ping(bytes) => (
                    WorkerModel { control: self.control.push(ControlModel::Pong(bytes)), ..self },
                    ActionModel::Nothing,
                ),
                FrameModel::Text(text) => (self, ActionModel::Sink(text)),
                FrameModel::Close => (
                    WorkerModel { phase: Phase::Closing, ..self },
                    ActionModel::Shutdown,
                ),
                FrameModel::Binary(_) => (self, ActionModel::Nothing),
                FrameModel::Pong(_) => (self, ActionModel::Nothing),
            }
        }
    }

    /// A read or a write on the socket failed: an open connection starts
    /// closing and asks to be shut down.
    pub open spec fn fail(self) -> (WorkerModel, ActionModel) {
        if self.phase == Phase::Open {
            (WorkerModel { phase: Phase::Closing, ..self }, ActionModel::Shutdown)
        } else {
            (self, ActionModel::Nothing)
        }
    }

    /// The writer asks for the next frame.
    ///
    /// An open connection writes replies and samples; when both wait, the
    /// two queues take turns. A closing connection still writes the replies
    /// it owes, so that a ping taken before the end gets its pong, and no
    /// sample. A closed connection writes nothing. Each queue is first in,
    /// first out.
    pub open spec fn select(self) -> (WorkerModel, Option<FrameModel>) {
        if self.phase == Phase::Closed {
            (self, None)
        } else if self.control.len() > 0 && (self.phase == Phase::Closing || self.control_turn
            || self.samples.len() == 0) {
            (
                WorkerModel { control: self.control.drop_first(), control_turn: false, ..self },
                Some(self.control[0].frame()),
            )
        } else if self.phase == Phase::Open && self.samples.len() > 0 {
            (
                WorkerModel { samples: self.samples.drop_first(), control_turn: true, ..self },
                Some(FrameModel::Text(self.samples[0])),
            )
        } else {
            (self, None)
        }
    }

    /// The closing connection gives up what it still holds and is closed.
    /// Whoever runs it lets the writer ask until nothing comes before this
    /// step, so that no reply is among what is given up.
    pub open spec fn release(self) -> WorkerModel {
        if self.phase == Phase::Closing {
            WorkerModel { phase: Phase::Closed, samples: Seq::empty(), control: Seq::empty(), ..self }
        } else {
            self
        }
    }
}

/// One connection: its phase, its share of the fan-out and its private queue
/// of replies.
pub struct Worker {
    phase: Phase,
    samples: VecDeque<String>,
    control: VecDeque<Control>,
    control_turn: bool,
}

impl View for Worker {
    type V = WorkerModel;

    closed spec fn view(&self) -> WorkerModel {
        WorkerModel {
            phase: self.phase,
            samples: text_views(self.samples@),
            control: control_views(self.control@),
            control_turn: self.control_turn,
        }
    }
}

impl Worker {
    /// A connection right after the handshake: open, with nothing to write.
    pub fn new() -> (worker: Worker)
        ensures
            worker@ == WorkerModel::fresh(),
    {
        let worker = Worker {
            phase: Phase::Open,
            samples: VecDeque::new(),
            control: VecDeque::new(),
            control_turn: false,
        };
        assert(worker@.samples =~= Seq::empty());
        assert(worker@.control =~= Seq::empty());
        worker
    }

    /// The phase the connection is in.
    pub fn phase(&self) -> (phase: Phase)
        ensures
            phase == self@.phase,
    {
        self.phase
    }

    /// How many samples wait to be written.
    pub fn pending_samples(&self) -> (count: usize)
        ensures
            count == self@.samples.len(),
    {
        self.samples.len()
    }

    /// How many replies wait to be written.
    pub fn pending_control(&self) -> (count: usize)
        ensures
            count == self@.control.len(),
    {
        self.control.len()
    }

    /// Takes one sample from the fan-out. Returns whether it was queued: a
    /// connection that is not open drops it.
    pub fn on_sample(&mut self, payload: String) -> (queued: bool)
        ensures
            final(self)@ == old(self)@.arrive(payload@),
            queued == (old(self)@.phase == Phase::Open),
    {
        match self.phase {
            Phase::Open => {
                self.samples.push_back(payload);
                assert(self@.samples =~= old(self)@.samples.push(payload@));
                true
            },
            _ => false,
        }
    }

    /// Takes one frame that the reader got from the peer.
    pub fn on_frame(&mut self, frame: Frame) -> (reaction: Action)
        ensures
            (final(self)@, reaction@) == old(self)@.receive(frame@),
    {
        match self.phase {
            Phase::Open => {
                match frame {
                    Frame::Ping(bytes) => {
                        self.control.push_back(Control::Pong(bytes));
                        assert(self@.control =~= old(self)@.control.push(ControlModel::Pong(bytes@)));
                        Action::Nothing
                    },
                    Frame::Text(text) => Action::Sink(text),
                    Frame::Close => {
                        self.phase = Phase::Closing;
                        Action::Shutdown
                    },
                    Frame::Binary(_) => Action::Nothing,
                    Frame::Pong(_) => Action::Nothing,
                }
            },
            _ => Action::Nothing,
        }
    }

    /// Records that a read or a write on the socket failed, or that the peer
    /// hung up.
    pub fn on_failure(&mut self) -> (action: Action)
        ensures
            (final(self)@, action@) == old(self)@.fail(),
    {
        match self.phase {
            Phase::Open => {
                self.phase = Phase::Closing;
                Action::Shutdown
            },
            _ => Action::Nothing,
        }
    }

    /// Picks the next frame for the socket: for an open connection a reply
    /// or a sample, in turns; for a closing one the replies it still owes.
    pub fn next_write(&mut self) -> (frame: Option<Frame>)
        ensures
            final(self)@ == old(self)@.select().0,
            match frame {
                Some(frame) => old(self)@.select().1 == Some(frame@),
                None => old(self)@.select().1 is None,
            },
    {
        let open = match self.phase {
            Phase::Open => true,
            Phase::Closing => false,
            Phase::Closed => {
                return None;
            },
        };
        if self.control.len() > 0 && (!open || self.control_turn || self.samples.len() == 0) {
            match self.control.pop_front() {
                Some(reply) => {
                    self.control_turn = false;
                    assert(self@.control =~= old(self)@.control.drop_first());
                    Some(reply.into_frame())
                },
                None => None,
            }
        } else if open {
            match self.samples.pop_front() {
                Some(payload) => {
                    self.control_turn = true;
                    assert(self@.samples =~= old(self)@.samples.drop_first());
                    Some(Frame::Text(payload))
                },
                None => None,
            }
        } else {
            None
        }
    }

    /// Ends a closing connection: what still waits is given up. Returns
    /// whether the connection went from closing to closed by this call. Let
    /// the writer ask until nothing comes before calling this, so that every
    /// reply is on the wire.
    pub fn release(&mut self) -> (released: bool)
        ensures
            final(self)@ == old(self)@.release(),
            released == (old(self)@.phase == Phase::Closing),
    {
        match self.phase {
            Phase::Closing => {
                self.phase = Phase::Closed;
                self.samples.clear();
                self.control.clear();
                assert(self@.samples =~= Seq::empty());
                assert(self@.control =~= Seq::empty());
                true
            },
            _ => false,
        }
    }

    /// Takes one event and says what to do about it: the whole of the
    /// connection's decisions in one call.
    pub fn handle(&mut self, event: Event) -> (action: Action)
        ensures
            (final(self)@, action@) == old(self)@.step(event@),
    {
        match event {
            Event::Sample(payload) => {
                self.on_sample(payload);
                Action::Nothing
            },
            Event::Frame(frame) => self.on_frame(frame),
            Event::Writable => match self.next_write() {
                Some(frame) => Action::Write(frame),
                None => Action::Nothing,
            },
            Event::Failed => self.on_failure(),
            Event::Released => {
                self.release();
                Action::Nothing
            },
        }
    }
}


impl WorkerModel {
    /// The state after one step, and what the step asks for.
    pub open spec fn step(self, step: Step) -> (WorkerModel, ActionModel) {
        match step {
            Step::Arrive(payload) => (self.arrive(payload), ActionModel::Nothing),
            Step::Receive(frame) => self.receive(frame),
            Step::Select => match self.select().1 {
                Some(frame) => (self.select().0, ActionModel::Write(frame)),
                None => (self.select().0, ActionModel::Nothing),
            },
            Step::Fail => self.fail(),
            Step::Release => (self.release(), ActionModel::Nothing),
        }
    }

    /// The state after a run of steps.
    pub open spec fn run(self, steps: Seq<Step>) -> WorkerModel
        decreases steps.len(),
    {
        if steps.len() == 0 {
            self
        } else {
            self.run(steps.drop_last()).step(steps.last()).0
        }
    }

    /// The frames that a run of steps put on the wire, in the order written.
    pub open spec fn written(self, steps: Seq<Step>) -> Seq<FrameModel>
        decreases steps.len(),
    {
        if steps.len() == 0 {
            Seq::empty()
        } else {
            let before = self.written(steps.drop_last());
            match self.run(steps.drop_last()).step(steps.last()).1.frame() {
                Some(frame) => before.push(frame),
                None => before,
            }
        }
    }

    /// The replies that a run of steps made the connection owe: one pong for
    /// each ping that came while the connection was open, in the order of the
    /// pings.
    pub open spec fn owed(self, steps: Seq<Step>) -> Seq<ControlModel>
        decreases steps.len(),
    {
        if steps.len() == 0 {
            Seq::empty()
        } else {
            let earlier = self.owed(steps.drop_last());
            match steps.last() {
                Step::Receive(FrameModel::Ping(bytes)) => if self.run(steps.drop_last()).phase
                    == Phase::Open {
                    earlier.push(ControlModel::Pong(bytes))
                } else {
                    earlier
                },
                _ => earlier,
            }
        }
    }

    /// The replies that were given up during a run of steps: those that
    /// still waited when the connection was released.
    pub open spec fn given_up(self, steps: Seq<Step>) -> Seq<ControlModel>
        decreases steps.len(),
    {
        if steps.len() == 0 {
            Seq::empty()
        } else {
            let earlier = self.given_up(steps.drop_last());
            let before = self.run(steps.drop_last());
            match steps.last() {
                Step::Release => if before.phase == Phase::Closing {
                    earlier + before.control
                } else {
                    earlier
                },
                _ => earlier,
            }
        }
    }
}

/// The writer asking `n` times in a row.
pub open spec fn asks(n: nat) -> Seq<Step> {
    Seq::new(n, |i: int| Step::Select)
}

/// The samples that the fan-out offered during a run, in order.
pub open spec fn arrived(steps: Seq<Step>) -> Seq<Seq<char>>
    decreases steps.len(),
{
    if steps.len() == 0 {
        Seq::empty()
    } else {
        match steps.last() {
            Step::Arrive(payload) => arrived(steps.drop_last()).push(payload),
            _ => arrived(steps.drop_last()),
        }
    }
}

/// One pong for each ping that the peer sent during a run, in order.
pub open spec fn pinged(steps: Seq<Step>) -> Seq<ControlModel>
    decreases steps.len(),
{
    if steps.len() == 0 {
        Seq::empty()
    } else {
        match steps.last() {
            Step::Receive(FrameModel::Ping(bytes)) => pinged(steps.drop_last()).push(
                ControlModel::Pong(bytes),
            ),
            _ => pinged(steps.drop_last()),
        }
    }
}

/// How often the writer asked for a frame during a run.
pub open spec fn selections(steps: Seq<Step>) -> nat
    decreases steps.len(),
{
    if steps.len() == 0 {
        0
    } else {
        match steps.last() {
            Step::Select => selections(steps.drop_last()) + 1,
            _ => selections(steps.drop_last()),
        }
    }
}

/// The payloads of the text frames among `frames`, in order.
pub open spec fn texts_of(frames: Seq<FrameModel>) -> Seq<Seq<char>>
    decreases frames.len(),
{
    if frames.len() == 0 {
        Seq::empty()
    } else {
        match frames.last() {
            FrameModel::Text(text) => texts_of(frames.drop_last()).push(text),
            _ => texts_of(frames.drop_last()),
        }
    }
}

/// The replies among `frames`, in order.
pub open spec fn replies_of(frames: Seq<FrameModel>) -> Seq<ControlModel>
    decreases frames.len(),
{
    if frames.len() == 0 {
        Seq::empty()
    } else {
        match frames.last() {
            FrameModel::Pong(bytes) => replies_of(frames.drop_last()).push(ControlModel::Pong(bytes)),
            _ => replies_of(frames.drop_last()),
        }
    }
}

/// How far a phase is along the way from open to closed.
pub open spec fn phase_rank(phase: Phase) -> nat {
    match phase {
        Phase::Open => 0,
        Phase::Closing => 1,
        Phase::Closed => 2,
    }
}

proof fn lemma_texts_of_push(frames: Seq<FrameModel>, frame: FrameModel)
    ensures
        texts_of(frames.push(frame)) == (match frame {
            FrameModel::Text(text) => texts_of(frames).push(text),
            _ => texts_of(frames),
        }),
{
    assert(frames.push(frame).drop_last() =~= frames);
}

proof fn lemma_replies_of_push(frames: Seq<FrameModel>, frame: FrameModel)
    ensures
        replies_of(frames.push(frame)) == (match frame {
            FrameModel::Pong(bytes) => replies_of(frames).push(ControlModel::Pong(bytes)),
            _ => replies_of(frames),
        }),
{
    assert(frames.push(frame).drop_last() =~= frames);
}

proof fn lemma_step_keeps_samples(before: WorkerModel, step: Step, wrote: Seq<FrameModel>)
    requires
        before.phase == Phase::Open,
    ensures
        ({
            let (after, out) = before.step(step);
            let wrote_after = match out.frame() {
                Some(frame) => wrote.push(frame),
                None => wrote,
            };
            let held = texts_of(wrote) + before.samples;
            texts_of(wrote_after) + after.samples == (match step {
                Step::Arrive(payload) => held.push(payload),
                _ => held,
            })
        }),
{
    let (after, out) = before.step(step);
    let held = texts_of(wrote) + before.samples;
    match out.frame() {
        Some(frame) => {
            lemma_texts_of_push(wrote, frame);
            let wrote_after = wrote.push(frame);
            if before.control.len() > 0 && (before.control_turn || before.samples.len() == 0) {
                assert(texts_of(wrote_after) + after.samples =~= held);
            } else {
                assert(frame == FrameModel::Text(before.samples[0]));
                assert(after.samples == before.samples.drop_first());
                assert(texts_of(wrote_after) == texts_of(wrote).push(before.samples[0]));
                assert(texts_of(wrote).push(before.samples[0]) + before.samples.drop_first()
                    =~= held);
            }
        },
        None => {
            match step {
                Step::Arrive(payload) => {
                    assert(texts_of(wrote) + before.samples.push(payload) =~= held.push(payload));
                },
                _ => {
                    assert(texts_of(wrote) + after.samples =~= held);
                },
            }
        },
    }
}

proof fn lemma_step_keeps_replies(before: WorkerModel, step: Step, wrote: Seq<FrameModel>)
    requires
        before.phase == Phase::Open,
    ensures
        ({
            let (after, out) = before.step(step);
            let wrote_after = match out.frame() {
                Some(frame) => wrote.push(frame),
                None => wrote,
            };
            let held = replies_of(wrote) + before.control;
            replies_of(wrote_after) + after.control == (match step {
                Step::Receive(FrameModel::Ping(bytes)) => held.push(ControlModel::Pong(bytes)),
                _ => held,
            })
        }),
{
    let (after, out) = before.step(step);
    let held = replies_of(wrote) + before.control;
    match out.frame() {
        Some(frame) => {
            lemma_replies_of_push(wrote, frame);
            let wrote_after = wrote.push(frame);
            if before.control.len() > 0 && (before.control_turn || before.samples.len() == 0) {
                assert(frame == before.control[0].frame());
                assert(after.control == before.control.drop_first());
                assert(replies_of(wrote_after) == replies_of(wrote).push(before.control[0]));
                assert(replies_of(wrote).push(before.control[0]) + before.control.drop_first()
                    =~= held);
            } else {
                assert(replies_of(wrote_after) + after.control =~= held);
            }
        },
        None => {
            match step {
                Step::Receive(FrameModel::Ping(bytes)) => {
                    assert(replies_of(wrote) + before.control.push(ControlModel::Pong(bytes))
                        =~= held.push(ControlModel::Pong(bytes)));
                },
                _ => {
                    assert(replies_of(wrote) + after.control =~= held);
                },
            }
        },
    }
}

/// A closed connection stays as it is, whatever happens to it, and writes
/// nothing.
pub proof fn lemma_closed_is_terminal(worker: WorkerModel, step: Step)
    requires
        worker.phase == Phase::Closed,
    ensures
        worker.step(step) == (worker, ActionModel::Nothing),
{
}

proof fn lemma_step_advances(worker: WorkerModel, step: Step)
    ensures
        phase_rank(worker.phase) <= phase_rank(worker.step(step).0.phase),
{
}

/// No step takes a connection back: its phase stays or moves on towards
/// closed.
pub proof fn lemma_phase_only_advances(worker: WorkerModel, steps: Seq<Step>)
    ensures
        phase_rank(worker.phase) <= phase_rank(worker.run(steps).phase),
    decreases steps.len(),
{
    if steps.len() > 0 {
        lemma_phase_only_advances(worker, steps.drop_last());
        lemma_step_advances(worker.run(steps.drop_last()), steps.last());
    }
}

/// While a connection stays open, no sample is lost, doubled or reordered:
/// the texts written so far, followed by the samples that still wait, are the
/// samples that waited at the start followed by those that arrived since.
pub proof fn lemma_samples_in_order(worker: WorkerModel, steps: Seq<Step>)
    requires
        worker.run(steps).phase == Phase::Open,
    ensures
        texts_of(worker.written(steps)) + worker.run(steps).samples == worker.samples + arrived(
            steps,
        ),
    decreases steps.len(),
{
    if steps.len() == 0 {
        assert(texts_of(worker.written(steps)) + worker.samples =~= worker.samples + arrived(steps));
    } else {
        let before = worker.run(steps.drop_last());
        let wrote = worker.written(steps.drop_last());
        assert(before.phase == Phase::Open) by {
            lemma_step_advances(before, steps.last());
        }
        lemma_samples_in_order(worker, steps.drop_last());
        lemma_step_keeps_samples(before, steps.last(), wrote);
        match steps.last() {
            Step::Arrive(payload) => {
                assert((worker.samples + arrived(steps.drop_last())).push(payload)
                    =~= worker.samples + arrived(steps));
            },
            _ => {},
        }
    }
}

/// While a connection stays open, every ping is answered by exactly one pong,
/// and the pongs keep the order of the pings: the replies written so far,
/// followed by those that still wait, are the replies that waited at the
/// start followed by one for each ping received since.
pub proof fn lemma_replies_in_order(worker: WorkerModel, steps: Seq<Step>)
    requires
        worker.run(steps).phase == Phase::Open,
    ensures
        replies_of(worker.written(steps)) + worker.run(steps).control == worker.control + pinged(
            steps,
        ),
    decreases steps.len(),
{
    if steps.len() == 0 {
        assert(replies_of(worker.written(steps)) + worker.control =~= worker.control + pinged(steps));
    } else {
        let before = worker.run(steps.drop_last());
        let wrote = worker.written(steps.drop_last());
        assert(before.phase == Phase::Open) by {
            lemma_step_advances(before, steps.last());
        }
        lemma_replies_in_order(worker, steps.drop_last());
        lemma_step_keeps_replies(before, steps.last(), wrote);
        match steps.last() {
            Step::Receive(FrameModel::Ping(bytes)) => {
                assert((worker.control + pinged(steps.drop_last())).push(ControlModel::Pong(bytes))
                    =~= worker.control + pinged(steps));
            },
            _ => {},
        }
    }
}

/// Whatever happens to a connection, failures included, the texts it wrote
/// are the first of the samples it was offered, in the order of the offers:
/// delivery is at most once and never out of order.
pub proof fn lemma_written_texts_are_prefix(worker: WorkerModel, steps: Seq<Step>)
    ensures
        texts_of(worker.written(steps)).is_prefix_of(worker.samples + arrived(steps)),
{
    lemma_held_texts_are_prefix(worker, steps);
}

proof fn lemma_held_texts_are_prefix(worker: WorkerModel, steps: Seq<Step>)
    ensures
        texts_of(worker.written(steps)).is_prefix_of(worker.samples + arrived(steps)),
        worker.run(steps).phase != Phase::Closed ==> (texts_of(worker.written(steps))
            + worker.run(steps).samples).is_prefix_of(worker.samples + arrived(steps)),
    decreases steps.len(),
{
    let total = worker.samples + arrived(steps);
    let texts = texts_of(worker.written(steps));
    if steps.len() == 0 {
        assert(texts + worker.samples =~= total);
        assert(total.subrange(0, total.len() as int) =~= total);
        assert(total.subrange(0, 0) =~= texts);
    } else {
        let before = worker.run(steps.drop_last());
        let after = worker.run(steps);
        let wrote = worker.written(steps.drop_last());
        let earlier = worker.samples + arrived(steps.drop_last());
        lemma_held_texts_are_prefix(worker, steps.drop_last());
        lemma_step_advances(before, steps.last());
        assert(earlier =~= total.subrange(0, earlier.len() as int));
        if before.phase == Phase::Open {
            lemma_step_keeps_samples(before, steps.last(), wrote);
            let held_before = texts_of(wrote) + before.samples;
            let held = texts + after.samples;
            assert(held_before =~= earlier.subrange(0, held_before.len() as int));
            match steps.last() {
                Step::Arrive(payload) => {
                    lemma_samples_in_order(worker, steps.drop_last());
                    assert(held == earlier.push(payload));
                    assert(held =~= total);
                },
                _ => {
                    assert(held == held_before);
                },
            }
            assert(held =~= total.subrange(0, held.len() as int));
            assert(texts =~= held.subrange(0, texts.len() as int));
            assert(texts =~= total.subrange(0, texts.len() as int));
        } else {
            match before.step(steps.last()).1.frame() {
                Some(frame) => {
                    lemma_texts_of_push(wrote, frame);
                },
                None => {},
            }
            assert(texts == texts_of(wrote));
            assert(texts =~= earlier.subrange(0, texts.len() as int));
            assert(texts =~= total.subrange(0, texts.len() as int));
            if after.phase != Phase::Closed {
                let held = texts + after.samples;
                assert(after.samples == before.samples);
                assert(held =~= earlier.subrange(0, held.len() as int));
                assert(held =~= total.subrange(0, held.len() as int));
            }
        }
    }
}

/// Every reply is accounted for, whatever happens to the connection: the
/// pongs written so far, followed by the replies that still wait, followed
/// by those given up at the release, are the replies that waited at the
/// start followed by one pong for each ping that came while the connection
/// was open, in the order of the pings. No pong is written twice, none out
/// of turn, and none is lost but by a release that found it waiting; before
/// the release nothing is given up.
pub proof fn lemma_every_reply_is_accounted_for(worker: WorkerModel, steps: Seq<Step>)
    ensures
        replies_of(worker.written(steps)) + worker.run(steps).control + worker.given_up(steps)
            == worker.control + worker.owed(steps),
        worker.run(steps).phase != Phase::Closed ==> worker.given_up(steps) == Seq::<
            ControlModel,
        >::empty(),
    decreases steps.len(),
{
    let nothing = Seq::<ControlModel>::empty();
    if steps.len() == 0 {
        assert(replies_of(worker.written(steps)) + worker.control + nothing =~= worker.control
            + nothing);
    } else {
        let before = worker.run(steps.drop_last());
        let after = worker.run(steps);
        let wrote = worker.written(steps.drop_last());
        let gone = worker.given_up(steps.drop_last());
        let total = worker.control + worker.owed(steps.drop_last());
        lemma_every_reply_is_accounted_for(worker, steps.drop_last());
        lemma_step_advances(before, steps.last());
        assert(replies_of(wrote) + before.control + gone == total);
        let now = replies_of(worker.written(steps)) + after.control + worker.given_up(steps);
        match before.step(steps.last()).1.frame() {
            Some(frame) => {
                lemma_replies_of_push(wrote, frame);
                if before.control.len() > 0 && (before.phase == Phase::Closing
                    || before.control_turn || before.samples.len() == 0) {
                    assert(frame == before.control[0].frame());
                    assert(replies_of(wrote).push(before.control[0]) + before.control.drop_first()
                        =~= replies_of(wrote) + before.control);
                } else {
                    assert(frame == FrameModel::Text(before.samples[0]));
                }
                assert(now == total);
            },
            None => {
                match steps.last() {
                    Step::Receive(FrameModel::Ping(bytes)) => {
                        if before.phase == Phase::Open {
                            assert(gone == nothing);
                            assert(now =~= total.push(ControlModel::Pong(bytes)));
                            assert(total.push(ControlModel::Pong(bytes)) =~= worker.control
                                + worker.owed(steps));
                        } else {
                            assert(now == total);
                        }
                    },
                    Step::Release => {
                        if before.phase == Phase::Closing {
                            assert(gone == nothing);
                            assert(now =~= replies_of(wrote) + before.control + gone);
                        } else {
                            assert(now == total);
                        }
                    },
                    _ => {
                        assert(now == total);
                    },
                }
            },
        }
    }
}

/// A connection that stayed open has taken every ping: what it owes is one
/// pong for each ping of the run.
pub proof fn lemma_open_connection_owes_every_pong(worker: WorkerModel, steps: Seq<Step>)
    requires
        worker.run(steps).phase == Phase::Open,
    ensures
        worker.owed(steps) == pinged(steps),
    decreases steps.len(),
{
    if steps.len() > 0 {
        let before = worker.run(steps.drop_last());
        assert(before.phase == Phase::Open) by {
            lemma_step_advances(before, steps.last());
        }
        lemma_open_connection_owes_every_pong(worker, steps.drop_last());
    }
}

/// A closing connection puts the replies it owes on the wire before anything
/// else happens: asked as often as replies wait, the writer gets exactly
/// these replies, oldest first, and none is left to give up at the release.
pub proof fn lemma_closing_connection_flushes(worker: WorkerModel)
    requires
        worker.phase == Phase::Closing,
    ensures
        replies_of(worker.written(asks(worker.control.len()))) == worker.control,
        worker.run(asks(worker.control.len())).control == Seq::<ControlModel>::empty(),
        worker.run(asks(worker.control.len())).phase == Phase::Closing,
        worker.given_up(asks(worker.control.len()).push(Step::Release)) == Seq::<
            ControlModel,
        >::empty(),
{
    let n = worker.control.len();
    lemma_closing_writes(worker, n);
    assert(worker.control.take(n as int) =~= worker.control);
    assert(worker.control.skip(n as int) =~= Seq::<ControlModel>::empty());
    let flushed = asks(n).push(Step::Release);
    assert(flushed.drop_last() =~= asks(n));
    lemma_every_reply_is_accounted_for(worker, asks(n));
    assert(worker.given_up(flushed) =~= Seq::<ControlModel>::empty());
}

proof fn lemma_closing_writes(worker: WorkerModel, k: nat)
    requires
        worker.phase == Phase::Closing,
        k <= worker.control.len(),
    ensures
        replies_of(worker.written(asks(k))) == worker.control.take(k as int),
        worker.run(asks(k)).control == worker.control.skip(k as int),
        worker.run(asks(k)).phase == Phase::Closing,
    decreases k,
{
    if k == 0 {
        assert(worker.control.take(0) =~= Seq::<ControlModel>::empty());
        assert(worker.control.skip(0) =~= worker.control);
    } else {
        let earlier = (k - 1) as nat;
        lemma_closing_writes(worker, earlier);
        assert(asks(k).drop_last() =~= asks(earlier));
        assert(asks(k).last() == Step::Select);
        let before = worker.run(asks(earlier));
        let wrote = worker.written(asks(earlier));
        assert(before.control.len() > 0);
        assert(before.control[0] == worker.control[k - 1]);
        lemma_replies_of_push(wrote, before.control[0].frame());
        assert(worker.control.take(earlier as int).push(worker.control[k - 1])
            =~= worker.control.take(k as int));
        assert(before.control.drop_first() =~= worker.control.skip(k as int));
    }
}

/// Samples cannot starve the replies: over any run that has not closed the
/// connection, of the replies that waited at the start either all are
/// written, or at least one for every two frames the writer asked for.
pub proof fn lemma_replies_not_starved(worker: WorkerModel, steps: Seq<Step>)
    requires
        worker.run(steps).phase != Phase::Closed,
    ensures
        replies_of(worker.written(steps)).len() >= worker.control.len() || 2 * replies_of(
            worker.written(steps),
        ).len() + 1 >= selections(steps),
{
    lemma_reply_turns(worker, steps);
}

proof fn lemma_reply_turns(worker: WorkerModel, steps: Seq<Step>)
    requires
        worker.run(steps).phase != Phase::Closed,
    ensures
        replies_of(worker.written(steps)).len() >= worker.control.len() || 2 * replies_of(
            worker.written(steps),
        ).len() + (if worker.run(steps).control_turn { 1nat } else { 0nat }) >= selections(steps),
    decreases steps.len(),
{
    if steps.len() > 0 {
        let before = worker.run(steps.drop_last());
        let wrote = worker.written(steps.drop_last());
        assert(before.phase != Phase::Closed) by {
            lemma_step_advances(before, steps.last());
        }
        lemma_reply_turns(worker, steps.drop_last());
        lemma_every_reply_is_accounted_for(worker, steps.drop_last());
        assert((replies_of(wrote) + before.control + worker.given_up(steps.drop_last())).len() == (
        worker.control + worker.owed(steps.drop_last())).len());
        match before.step(steps.last()).1.frame() {
            Some(frame) => {
                lemma_replies_of_push(wrote, frame);
            },
            None => {},
        }
    }
}

/// Replies cannot starve the samples: over any run that leaves the connection
/// open, of the samples that waited at the start either all are written, or at
/// least one for every two frames the writer asked for.
pub proof fn lemma_samples_not_starved(worker: WorkerModel, steps: Seq<Step>)
    requires
        worker.run(steps).phase == Phase::Open,
    ensures
        texts_of(worker.written(steps)).len() >= worker.samples.len() || 2 * texts_of(
            worker.written(steps),
        ).len() + 1 >= selections(steps),
{
    lemma_sample_turns(worker, steps);
}

proof fn lemma_sample_turns(worker: WorkerModel, steps: Seq<Step>)
    requires
        worker.run(steps).phase == Phase::Open,
    ensures
        texts_of(worker.written(steps)).len() >= worker.samples.len() || 2 * texts_of(
            worker.written(steps),
        ).len() + (if worker.run(steps).control_turn { 0nat } else { 1nat }) >= selections(steps),
    decreases steps.len(),
{
    if steps.len() > 0 {
        let before = worker.run(steps.drop_last());
        let wrote = worker.written(steps.drop_last());
        assert(before.phase == Phase::Open) by {
            lemma_step_advances(before, steps.last());
        }
        lemma_sample_turns(worker, steps.drop_last());
        lemma_samples_in_order(worker, steps.drop_last());
        assert((texts_of(wrote) + before.samples).len() == (worker.samples + arrived(
            steps.drop_last(),
        )).len());
        match before.step(steps.last()).1.frame() {
            Some(frame) => {
                lemma_texts_of_push(wrote, frame);
            },
            None => {},
        }
    }
}

} // verus!
