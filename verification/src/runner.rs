//! The worker of one stage, as a state machine.
//!
//! A worker is driven from outside: whoever runs it performs the action that
//! the machine asks for (wait on the inbound channel, call the stage's
//! processing logic, deliver records, signal termination) and reports what
//! happened as the next event. The machine itself decides; it never waits
//! and never performs anything.
//!
//! States: `Configured`, then `Running`, then `Draining` or `Terminated`.
//! A source runs until its input ends. Any other stage runs until it is
//! asked to shut down; it then drains what is queued and terminates at the
//! first poll that finds the queue empty. A stage whose processing logic
//! cannot be set up terminates at once. A failure of the processing logic
//! on one record is counted and the worker goes on.

use vstd::prelude::*;
use crate::record::{records_view, RecordEnvelope, RecordView};
use crate::stage::{StageHandle, StageKind};

verus! {

/// How long a worker waits on its inbound channel before it polls again, in
/// milliseconds.
pub const POLL_INTERVAL_MS: u64 = 1000;

/// A failure of a stage's processing logic on one record. It concerns that
/// record only: it is reported and counted, and the stage goes on.
#[derive(Debug)]
pub struct ProcessingError {
    /// The stage whose logic failed.
    pub handle: StageHandle,
    /// The logic's own words.
    pub detail: String,
}

/// What the operator is told of a failure on one record.
pub open spec fn processing_message(handle: StageHandle, detail: Seq<char>) -> Seq<char> {
    "Step '"@ + crate::text::spec_decimal(handle as nat) + "' failed on a record: "@ + detail
}

impl ProcessingError {
    /// What the operator is told: a sentence that names the stage's handle,
    /// then the logic's own words.
    pub fn message(&self) -> (message: String)
        ensures
            message@ == processing_message(self.handle, self.detail@),
            crate::text::spec_contains(message@, crate::text::spec_decimal(self.handle as nat)),
    {
        let mut message = "Step '".to_owned();
        crate::text::push_decimal(&mut message, self.handle as u64);
        crate::text::push_text(&mut message, "' failed on a record: ");
        crate::text::push_text(&mut message, self.detail.as_str());
        proof {
            crate::text::lemma_contains_inner(
                "Step '"@,
                crate::text::spec_decimal(self.handle as nat),
                "' failed on a record: "@ + self.detail@,
            );
            assert(message@ =~= "Step '"@ + crate::text::spec_decimal(self.handle as nat) + (
            "' failed on a record: "@ + self.detail@));
        }
        message
    }
}

/// Where a worker is in its life.
#[derive(Clone, Copy, Debug, PartialEq, Eq, Structural)]
pub enum RunnerState {
    /// Created, not started.
    Configured,
    /// In its loop.
    Running,
    /// Asked to shut down; still working through what is queued.
    Draining,
    /// Out of its loop for good.
    Terminated,
}

/// What happened since the worker's last action.
#[derive(Debug)]
pub enum RunnerEvent {
    /// The stage was started. `receiver_claimed` says whether the receiving
    /// end of its inbound channel could be claimed; a source has none and
    /// ignores it.
    Start { receiver_claimed: bool },
    /// A source read one unit of input.
    Input(RecordEnvelope),
    /// A source's input ended.
    EndOfInput,
    /// A source's input failed for good.
    InputFailed,
    /// A record arrived on the inbound channel.
    Received(RecordEnvelope),
    /// The poll interval passed without a record.
    TimedOut,
    /// The processing logic handled a record and produced these records.
    Processed(Vec<RecordEnvelope>),
    /// The processing logic failed on a record.
    ProcessingFailed,
    /// The records of the last `Deliver` action were handed on.
    Delivered,
    /// The stage is asked to finish what is queued and stop.
    Shutdown,
    /// The stage's processing logic could not be set up.
    SetupFailed,
}

/// What the worker asks for next.
#[derive(Debug)]
pub enum RunnerAction {
    /// Read the next unit of input.
    PullInput,
    /// Wait on the inbound channel for at most the poll interval.
    Poll,
    /// Call the processing logic with this record.
    Process(RecordEnvelope),
    /// Hand these records to the next stage, in order.
    Deliver(Vec<RecordEnvelope>),
    /// Signal that the stage has terminated, and leave the loop.
    Terminate,
    /// Nothing: the event does not concern the worker in its state.
    Idle,
}

/// Mathematical content of a [`RunnerEvent`].
pub enum RunnerEventView {
    Start { receiver_claimed: bool },
    Input(RecordView),
    EndOfInput,
    InputFailed,
    Received(RecordView),
    TimedOut,
    Processed(Seq<RecordView>),
    ProcessingFailed,
    Delivered,
    Shutdown,
    SetupFailed,
}

/// Mathematical content of a [`RunnerAction`].
pub enum RunnerActionView {
    PullInput,
    Poll,
    Process(RecordView),
    Deliver(Seq<RecordView>),
    Terminate,
    Idle,
}

impl View for RunnerEvent {
    type V = RunnerEventView;

    open spec fn view(&self) -> RunnerEventView {
        match *self {
            RunnerEvent::Start { receiver_claimed } => RunnerEventView::Start { receiver_claimed },
            RunnerEvent::Input(r) => RunnerEventView::Input(r@),
            RunnerEvent::EndOfInput => RunnerEventView::EndOfInput,
            RunnerEvent::InputFailed => RunnerEventView::InputFailed,
            RunnerEvent::Received(r) => RunnerEventView::Received(r@),
            RunnerEvent::TimedOut => RunnerEventView::TimedOut,
            RunnerEvent::Processed(records) => RunnerEventView::Processed(records_view(records@)),
            RunnerEvent::ProcessingFailed => RunnerEventView::ProcessingFailed,
            RunnerEvent::Delivered => RunnerEventView::Delivered,
            RunnerEvent::Shutdown => RunnerEventView::Shutdown,
            RunnerEvent::SetupFailed => RunnerEventView::SetupFailed,
        }
    }
}

impl View for RunnerAction {
    type V = RunnerActionView;

    open spec fn view(&self) -> RunnerActionView {
        match *self {
            RunnerAction::PullInput => RunnerActionView::PullInput,
            RunnerAction::Poll => RunnerActionView::Poll,
            RunnerAction::Process(r) => RunnerActionView::Process(r@),
            RunnerAction::Deliver(records) => RunnerActionView::Deliver(records_view(records@)),
            RunnerAction::Terminate => RunnerActionView::Terminate,
            RunnerAction::Idle => RunnerActionView::Idle,
        }
    }
}

/// The action with which a running worker of kind `kind` resumes its loop.
pub open spec fn resume(kind: StageKind) -> RunnerActionView {
    if kind == StageKind::Source {
        RunnerActionView::PullInput
    } else {
        RunnerActionView::Poll
    }
}

/// Whether `event` ends a worker's loop.
pub open spec fn ends_loop(event: RunnerEventView) -> bool {
    event is EndOfInput || event is InputFailed || event is Shutdown || event is SetupFailed
}

/// One step of a worker of kind `kind` in state `state`: the state
/// afterwards and the action asked for.
pub open spec fn spec_step(kind: StageKind, state: RunnerState, event: RunnerEventView) -> (
    RunnerState,
    RunnerActionView,
) {
    match state {
        RunnerState::Configured => match event {
            RunnerEventView::Start { receiver_claimed } => {
                if kind == StageKind::Source {
                    (RunnerState::Running, RunnerActionView::PullInput)
                } else if receiver_claimed {
                    (RunnerState::Running, RunnerActionView::Poll)
                } else {
                    (RunnerState::Terminated, RunnerActionView::Terminate)
                }
            },
            RunnerEventView::SetupFailed => (RunnerState::Terminated, RunnerActionView::Terminate),
            _ => (RunnerState::Configured, RunnerActionView::Idle),
        },
        RunnerState::Running | RunnerState::Draining => {
            if event is SetupFailed {
                (RunnerState::Terminated, RunnerActionView::Terminate)
            } else if kind == StageKind::Source {
                match event {
                    RunnerEventView::Input(record) => (state, RunnerActionView::Deliver(seq![record])),
                    RunnerEventView::EndOfInput | RunnerEventView::InputFailed | RunnerEventView::Shutdown => (
                        RunnerState::Terminated,
                        RunnerActionView::Terminate,
                    ),
                    _ => (state, RunnerActionView::PullInput),
                }
            } else {
                match event {
                    RunnerEventView::Received(record) => (state, RunnerActionView::Process(record)),
                    RunnerEventView::Processed(records) => {
                        if kind.spec_forwards_output() && records.len() > 0 {
                            (state, RunnerActionView::Deliver(records))
                        } else {
                            (state, RunnerActionView::Poll)
                        }
                    },
                    RunnerEventView::TimedOut => {
                        if state == RunnerState::Draining {
                            (RunnerState::Terminated, RunnerActionView::Terminate)
                        } else {
                            (state, RunnerActionView::Poll)
                        }
                    },
                    RunnerEventView::Shutdown => (RunnerState::Draining, RunnerActionView::Poll),
                    _ => (state, RunnerActionView::Poll),
                }
            }
        },
        RunnerState::Terminated => (RunnerState::Terminated, RunnerActionView::Idle),
    }
}

/// The state that a worker reaches from `state` through `events`.
pub open spec fn spec_run(kind: StageKind, state: RunnerState, events: Seq<RunnerEventView>) -> RunnerState
    decreases events.len(),
{
    if events.len() == 0 {
        state
    } else {
        spec_step(kind, spec_run(kind, state, events.drop_last()), events.last()).0
    }
}

/// `count` plus one, held at the largest value.
pub open spec fn bump(count: u64) -> u64 {
    if count == u64::MAX {
        count
    } else {
        (count + 1) as u64
    }
}

/// Mathematical content of a [`StageRunner`].
pub struct StageRunnerView {
    pub handle: StageHandle,
    pub kind: StageKind,
    pub state: RunnerState,
    /// Records taken in so far: inputs read by a source, records received by
    /// any other stage.
    pub received: u64,
    /// Records on which the processing logic failed.
    pub failed: u64,
}

/// The worker of one stage.
#[derive(Debug)]
pub struct StageRunner {
    handle: StageHandle,
    kind: StageKind,
    state: RunnerState,
    received: u64,
    failed: u64,
}

impl View for StageRunner {
    type V = StageRunnerView;

    closed spec fn view(&self) -> StageRunnerView {
        StageRunnerView {
            handle: self.handle,
            kind: self.kind,
            state: self.state,
            received: self.received,
            failed: self.failed,
        }
    }
}

fn bumped(count: u64) -> (next: u64)
    ensures
        next == bump(count),
{
    if count == u64::MAX {
        count
    } else {
        count + 1
    }
}

impl StageRunner {
    /// A worker for the stage `handle` of kind `kind`, not started.
    pub fn new(handle: StageHandle, kind: StageKind) -> (runner: StageRunner)
        ensures
            runner@ == (StageRunnerView {
                handle,
                kind,
                state: RunnerState::Configured,
                received: 0,
                failed: 0,
            }),
    {
        StageRunner { handle, kind, state: RunnerState::Configured, received: 0, failed: 0 }
    }

    /// Handle of the worker's stage.
    pub fn handle(&self) -> (handle: StageHandle)
        ensures
            handle == self@.handle,
    {
        self.handle
    }

    /// Kind of the worker's stage.
    pub fn kind(&self) -> (kind: StageKind)
        ensures
            kind == self@.kind,
    {
        self.kind
    }

    /// Where the worker is in its life.
    pub fn state(&self) -> (state: RunnerState)
        ensures
            state == self@.state,
    {
        self.state
    }

    /// Records taken in so far.
    pub fn received(&self) -> (count: u64)
        ensures
            count == self@.received,
    {
        self.received
    }

    /// Records on which the processing logic failed so far.
    pub fn failed(&self) -> (count: u64)
        ensures
            count == self@.failed,
    {
        self.failed
    }

    /// Whether the worker has left its loop for good.
    pub fn is_terminated(&self) -> (b: bool)
        ensures
            b == (self@.state == RunnerState::Terminated),
    {
        match self.state {
            RunnerState::Terminated => true,
            _ => false,
        }
    }

    /// Takes `event` and returns the action to perform next.
    ///
    /// State and action are those of [`spec_step`]. A record that the worker
    /// takes in while in its loop is counted in `received`, a failure of the
    /// processing logic in `failed`; handle and kind never change.
    pub fn step(&mut self, event: RunnerEvent) -> (action: RunnerAction)
        ensures
            final(self)@.state == spec_step(old(self)@.kind, old(self)@.state, event@).0,
            action@ == spec_step(old(self)@.kind, old(self)@.state, event@).1,
            final(self)@.handle == old(self)@.handle,
            final(self)@.kind == old(self)@.kind,
            final(self)@.received == if in_loop(old(self)@.state) && takes_in(old(self)@.kind, event@) {
                bump(old(self)@.received)
            } else {
                old(self)@.received
            },
            final(self)@.failed == if in_loop(old(self)@.state) && old(self)@.kind != StageKind::Source
                && event@ is ProcessingFailed {
                bump(old(self)@.failed)
            } else {
                old(self)@.failed
            },
    {
        let is_source = match self.kind {
            StageKind::Source => true,
            _ => false,
        };
        match self.state {
            RunnerState::Configured => match event {
                RunnerEvent::Start { receiver_claimed } => {
                    if is_source {
                        self.state = RunnerState::Running;
                        RunnerAction::PullInput
                    } else if receiver_claimed {
                        self.state = RunnerState::Running;
                        RunnerAction::Poll
                    } else {
                        self.state = RunnerState::Terminated;
                        RunnerAction::Terminate
                    }
                },
                RunnerEvent::SetupFailed => {
                    self.state = RunnerState::Terminated;
                    RunnerAction::Terminate
                },
                _ => RunnerAction::Idle,
            },
            RunnerState::Terminated => RunnerAction::Idle,
            RunnerState::Running | RunnerState::Draining => {
                if let RunnerEvent::SetupFailed = event {
                    self.state = RunnerState::Terminated;
                    RunnerAction::Terminate
                } else if is_source {
                    match event {
                        RunnerEvent::Input(record) => {
                            self.received = bumped(self.received);
                            let mut records: Vec<RecordEnvelope> = Vec::new();
                            records.push(record);
                            assert(records_view(records@) =~= seq![record@]);
                            RunnerAction::Deliver(records)
                        },
                        RunnerEvent::EndOfInput | RunnerEvent::InputFailed | RunnerEvent::Shutdown => {
                            self.state = RunnerState::Terminated;
                            RunnerAction::Terminate
                        },
                        _ => RunnerAction::PullInput,
                    }
                } else {
                    match event {
                        RunnerEvent::Received(record) => {
                            self.received = bumped(self.received);
                            RunnerAction::Process(record)
                        },
                        RunnerEvent::Processed(records) => {
                            if self.kind.forwards_output() && records.len() > 0 {
                                RunnerAction::Deliver(records)
                            } else {
                                RunnerAction::Poll
                            }
                        },
                        RunnerEvent::ProcessingFailed => {
                            self.failed = bumped(self.failed);
                            RunnerAction::Poll
                        },
                        RunnerEvent::TimedOut => {
                            let draining = match self.state {
                                RunnerState::Draining => true,
                                _ => false,
                            };
                            if draining {
                                self.state = RunnerState::Terminated;
                                RunnerAction::Terminate
                            } else {
                                RunnerAction::Poll
                            }
                        },
                        RunnerEvent::Shutdown => {
                            self.state = RunnerState::Draining;
                            RunnerAction::Poll
                        },
                        _ => RunnerAction::Poll,
                    }
                }
            },
        }
    }
}

/// Whether a worker in `state` is in its loop.
pub open spec fn in_loop(state: RunnerState) -> bool {
    state == RunnerState::Running || state == RunnerState::Draining
}

/// Whether `event` brings a record into a worker of kind `kind`.
pub open spec fn takes_in(kind: StageKind, event: RunnerEventView) -> bool {
    if kind == StageKind::Source {
        event is Input
    } else {
        event is Received
    }
}

/// A record on which the processing logic fails does not stop the stage: the
/// worker stays in the state it was in and asks for the next record.
pub proof fn law_failure_is_not_fatal(kind: StageKind, state: RunnerState)
    requires
        in_loop(state),
    ensures
        spec_step(kind, state, RunnerEventView::ProcessingFailed) == (state, resume(kind)),
{
}

/// A running worker stays running through any events but those that end its
/// loop: the end or failure of a source's input, a request to shut down, and
/// a failure to set the processing logic up.
pub proof fn law_running_until_stopped(kind: StageKind, events: Seq<RunnerEventView>)
    requires
        forall|i: int| 0 <= i < events.len() ==> !ends_loop(#[trigger] events[i]),
    ensures
        spec_run(kind, RunnerState::Running, events) == RunnerState::Running,
    decreases events.len(),
{
    if events.len() > 0 {
        law_running_until_stopped(kind, events.drop_last());
        assert(!ends_loop(events[events.len() - 1]));
    }
}

/// A worker that has terminated stays terminated and asks for nothing more.
pub proof fn law_terminated_is_final(kind: StageKind, events: Seq<RunnerEventView>)
    ensures
        spec_run(kind, RunnerState::Terminated, events) == RunnerState::Terminated,
        forall|event: RunnerEventView| #[trigger]
            spec_step(kind, RunnerState::Terminated, event).1 == RunnerActionView::Idle,
    decreases events.len(),
{
    if events.len() > 0 {
        law_terminated_is_final(kind, events.drop_last());
    }
}

/// A stage that is fed through a channel never enters its loop without the
/// receiving end of that channel: started without it, it terminates at once.
pub proof fn law_missing_receiver_is_fatal(kind: StageKind)
    requires
        kind != StageKind::Source,
    ensures
        spec_step(kind, RunnerState::Configured, RunnerEventView::Start { receiver_claimed: false }) == (
            RunnerState::Terminated,
            RunnerActionView::Terminate,
        ),
{
}

} // verus!
