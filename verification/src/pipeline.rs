//! The pipeline host: stages, their channels and the routes between them.
//!
//! A [`Pipeline`] owns the stage registry and the channel registry and knows,
//! for each stage that hands records on, which stage receives them. It is an
//! ordinary value: whoever shares it between the workers of several stages
//! guards it with a lock and holds the lock for one operation at a time.
//!
//! The pipeline's view is a [`PipelineView`]. Each operation is described by
//! a function on views (`spec_configure`, `spec_connect`, `spec_start`,
//! `spec_deliver`, `spec_process`, `spec_terminate`).

use std::collections::{HashMap, HashSet};
use vstd::prelude::*;
use crate::channel::{
    law_queued_before_claim, lemma_send_all_queue, recv_all, send_all, spec_claim, spec_recv,
    spec_send, ChannelError, ChannelRegistry, ChannelView, Receiver,
};
use crate::record::{records_view, RecordEnvelope, RecordView};
use crate::registry::{
    entry_of, has_handle, lemma_entry_after_push, lemma_registered_handle_is_new, registry_wf,
    spec_register, HandleRegistry, RegistrationError,
};
use crate::runner::{
    bump, in_loop, spec_step, takes_in, RunnerAction, RunnerActionView, RunnerEvent,
    RunnerEventView, RunnerState, StageRunner, StageRunnerView,
};
use crate::stage::{
    ConfigurationError, StageConfiguration, StageConfigurationView, StageHandle, StageKind,
};

verus! {

broadcast use vstd::std_specs::hash::group_hash_axioms;

/// Mathematical content of a [`Pipeline`].
#[verifier::ext_equal]
pub struct PipelineView {
    /// The configured stages, in the order in which they were configured.
    pub stages: Seq<StageConfigurationView>,
    /// The inbound channel of each stage that is fed through one.
    pub channels: Map<StageHandle, ChannelView>,
    /// For each connected stage, the stage that receives what it delivers.
    pub routes: Map<StageHandle, StageHandle>,
    /// The stages that have signalled their termination.
    pub terminated: Set<StageHandle>,
}

/// Why two stages could not be connected.
#[derive(Clone, Copy, Debug, PartialEq, Eq, Structural)]
pub enum ConnectError {
    /// No stage is configured under this handle.
    UnknownStage(StageHandle),
    /// The stage does not hand records on: it is a destination or a listener.
    NotAProducer(StageHandle),
    /// The stage is not fed by other stages: it is a source.
    NotAConsumer(StageHandle),
    /// The stage is connected to a next stage already.
    AlreadyConnected(StageHandle),
}

/// Why a record could not be delivered.
#[derive(Clone, Copy, Debug, PartialEq, Eq, Structural)]
pub enum DeliverError {
    /// No stage is configured under the delivering handle.
    UnknownStage(StageHandle),
    /// The delivering stage is not connected to a next stage.
    NotConnected(StageHandle),
}

/// Why a stage could not be started.
#[derive(Clone, Copy, Debug, PartialEq, Eq, Structural)]
pub enum StartError {
    /// No configuration is stored under this handle.
    NotConfigured(StageHandle),
}

/// What the operator is told when the stage `handle` cannot be started for
/// want of a configuration.
pub open spec fn not_configured_message(handle: StageHandle) -> Seq<char> {
    "Init args for step '"@ + crate::text::spec_decimal(handle as nat) + "' not found"@
}

impl StartError {
    /// The handle of the stage that could not be started.
    pub open spec fn spec_handle(&self) -> StageHandle {
        match *self {
            StartError::NotConfigured(handle) => handle,
        }
    }

    /// The handle of the stage that could not be started.
    #[verifier::when_used_as_spec(spec_handle)]
    pub fn handle(&self) -> (handle: StageHandle)
        ensures
            handle == self.spec_handle(),
    {
        match self {
            StartError::NotConfigured(handle) => *handle,
        }
    }

    /// What the operator is told: a sentence that names the stage's handle.
    pub fn message(&self) -> (message: String)
        ensures
            message@ == not_configured_message(self.handle()),
            crate::text::spec_contains(message@, crate::text::spec_decimal(self.handle() as nat)),
    {
        let mut message = "Init args for step '".to_owned();
        crate::text::push_decimal(&mut message, self.handle() as u64);
        crate::text::push_text(&mut message, "' not found");
        proof {
            crate::text::lemma_contains_inner(
                "Init args for step '"@,
                crate::text::spec_decimal(self.handle() as nat),
                "' not found"@,
            );
        }
        message
    }
}

/// What the operator is told when the worker of the stage `handle` could
/// not get the receiving end of the stage's channel.
pub open spec fn receiver_missing_text(handle: StageHandle) -> Seq<char> {
    "Record receiver is not registered for step '"@ + crate::text::spec_decimal(handle as nat)
        + "'"@
}

/// What the operator is told when the worker of the stage `handle` has
/// terminated at its start because the receiving end of the stage's channel
/// was not to be had: a sentence that names the stage's handle.
pub fn receiver_missing_message(handle: StageHandle) -> (message: String)
    ensures
        message@ == receiver_missing_text(handle),
        crate::text::spec_contains(message@, crate::text::spec_decimal(handle as nat)),
{
    let mut message = "Record receiver is not registered for step '".to_owned();
    crate::text::push_decimal(&mut message, handle as u64);
    crate::text::push_text(&mut message, "'");
    proof {
        crate::text::lemma_contains_inner(
            "Record receiver is not registered for step '"@,
            crate::text::spec_decimal(handle as nat),
            "'"@,
        );
    }
    message
}

/// What the operator is told of a record that could not be delivered.
pub open spec fn deliver_error_text(error: DeliverError) -> Seq<char> {
    match error {
        DeliverError::UnknownStage(handle) => "Record was not delivered: step '"@
            + crate::text::spec_decimal(handle as nat) + "' is not configured"@,
        DeliverError::NotConnected(handle) => "Record was not delivered: step '"@
            + crate::text::spec_decimal(handle as nat) + "' has no next step"@,
    }
}

impl DeliverError {
    /// The handle of the stage whose record could not be delivered.
    pub open spec fn spec_handle(&self) -> StageHandle {
        match *self {
            DeliverError::UnknownStage(handle) => handle,
            DeliverError::NotConnected(handle) => handle,
        }
    }

    /// The handle of the stage whose record could not be delivered.
    #[verifier::when_used_as_spec(spec_handle)]
    pub fn handle(&self) -> (handle: StageHandle)
        ensures
            handle == self.spec_handle(),
    {
        match self {
            DeliverError::UnknownStage(handle) => *handle,
            DeliverError::NotConnected(handle) => *handle,
        }
    }

    /// What the operator is told: a sentence that names the stage's handle
    /// and says why its record went nowhere.
    pub fn message(&self) -> (message: String)
        ensures
            message@ == deliver_error_text(*self),
            crate::text::spec_contains(message@, crate::text::spec_decimal(self.handle() as nat)),
    {
        let mut message = "Record was not delivered: step '".to_owned();
        crate::text::push_decimal(&mut message, self.handle() as u64);
        match self {
            DeliverError::UnknownStage(_) => {
                crate::text::push_text(&mut message, "' is not configured");
                proof {
                    crate::text::lemma_contains_inner(
                        "Record was not delivered: step '"@,
                        crate::text::spec_decimal(self.handle() as nat),
                        "' is not configured"@,
                    );
                }
            },
            DeliverError::NotConnected(_) => {
                crate::text::push_text(&mut message, "' has no next step");
                proof {
                    crate::text::lemma_contains_inner(
                        "Record was not delivered: step '"@,
                        crate::text::spec_decimal(self.handle() as nat),
                        "' has no next step"@,
                    );
                }
            },
        }
        message
    }
}

/// The pipeline without stages.
pub open spec fn empty_pipeline() -> PipelineView {
    PipelineView {
        stages: Seq::empty(),
        channels: Map::empty(),
        routes: Map::empty(),
        terminated: Set::empty(),
    }
}

/// What holds of every pipeline: handles are non-zero and unique; the stages
/// that have a channel are the configured stages of a kind that is fed
/// through one; routes lead from configured stages to stages with a channel;
/// only configured stages terminate.
pub open spec fn pipeline_wf(p: PipelineView) -> bool {
    &&& registry_wf(p.stages)
    &&& forall|h: StageHandle| #[trigger]
        p.channels.contains_key(h) <==> (has_handle(p.stages, h) && entry_of(
            p.stages,
            h,
        ).kind.spec_buffers_input())
    &&& forall|f: StageHandle| #[trigger]
        p.routes.contains_key(f) ==> has_handle(p.stages, f) && p.channels.contains_key(p.routes[f])
    &&& forall|h: StageHandle| #[trigger] p.terminated.contains(h) ==> has_handle(p.stages, h)
}

/// Configuring a stage: it is registered, and if its kind is fed through a
/// channel, its channel is created, empty and unclaimed.
pub open spec fn spec_configure(p: PipelineView, config: StageConfigurationView) -> (
    Result<StageHandle, RegistrationError>,
    PipelineView,
) {
    match spec_register(p.stages, config).0 {
        Err(e) => (Err(e), p),
        Ok(handle) => (
            Ok(handle),
            PipelineView {
                stages: spec_register(p.stages, config).1,
                channels: if config.kind.spec_buffers_input() {
                    p.channels.insert(handle, ChannelView { queue: Seq::empty(), claimed: false })
                } else {
                    p.channels
                },
                ..p
            },
        ),
    }
}

/// Connecting `from` to `to`: what `from` delivers is queued for `to`.
pub open spec fn spec_connect(p: PipelineView, from: StageHandle, to: StageHandle) -> (
    Result<(), ConnectError>,
    PipelineView,
) {
    if !has_handle(p.stages, from) {
        (Err(ConnectError::UnknownStage(from)), p)
    } else if !has_handle(p.stages, to) {
        (Err(ConnectError::UnknownStage(to)), p)
    } else if !entry_of(p.stages, from).kind.spec_forwards_output() {
        (Err(ConnectError::NotAProducer(from)), p)
    } else if !entry_of(p.stages, to).kind.spec_buffers_input() {
        (Err(ConnectError::NotAConsumer(to)), p)
    } else if p.routes.contains_key(from) {
        (Err(ConnectError::AlreadyConnected(from)), p)
    } else {
        (Ok(()), PipelineView { routes: p.routes.insert(from, to), ..p })
    }
}

/// A stage handing `record` to the pipeline: the record is queued for the
/// stage that `from` is connected to.
pub open spec fn spec_deliver(p: PipelineView, from: StageHandle, record: RecordView) -> (
    Result<(), DeliverError>,
    PipelineView,
) {
    if !has_handle(p.stages, from) {
        (Err(DeliverError::UnknownStage(from)), p)
    } else if !p.routes.contains_key(from) {
        (Err(DeliverError::NotConnected(from)), p)
    } else {
        (Ok(()), PipelineView { channels: spec_send(p.channels, p.routes[from], record).1, ..p })
    }
}

/// Handing `record` into the queue of the stage `handle`.
pub open spec fn spec_process(p: PipelineView, handle: StageHandle, record: RecordView) -> (
    Result<(), ChannelError>,
    PipelineView,
) {
    (
        spec_send(p.channels, handle, record).0,
        PipelineView { channels: spec_send(p.channels, handle, record).1, ..p },
    )
}

/// A stage signalling that it has terminated.
pub open spec fn spec_terminate(p: PipelineView, handle: StageHandle) -> PipelineView {
    if has_handle(p.stages, handle) {
        PipelineView { terminated: p.terminated.insert(handle), ..p }
    } else {
        p
    }
}

/// The pipeline after the stage `handle` was started.
///
/// A source needs nothing. Any other stage claims the receiving end of its
/// channel; if that fails, the stage has terminated before it ran.
pub open spec fn spec_start(p: PipelineView, handle: StageHandle) -> PipelineView {
    if !has_handle(p.stages, handle) || entry_of(p.stages, handle).kind == StageKind::Source {
        p
    } else if spec_claim(p.channels, handle).0 is Ok {
        PipelineView { channels: spec_claim(p.channels, handle).1, ..p }
    } else {
        PipelineView { terminated: p.terminated.insert(handle), ..p }
    }
}

/// The pipeline after `from` delivered each of `records`, in order.
pub open spec fn deliver_all(p: PipelineView, from: StageHandle, records: Seq<RecordView>) -> PipelineView
    decreases records.len(),
{
    if records.len() == 0 {
        p
    } else {
        spec_deliver(deliver_all(p, from, records.drop_last()), from, records.last()).1
    }
}

/// One turn of the worker `runner` on `event`, with the pipeline's part of
/// it done: the pipeline, the worker's state and the action afterwards.
///
/// The worker takes the event as [`spec_step`] says. If it then asks to
/// deliver records, they are delivered in order and the worker resumes its
/// loop; if it asks to terminate, the stage is marked as terminated. Any
/// other action is left to whoever runs the worker.
pub open spec fn spec_advance(p: PipelineView, runner: StageRunnerView, event: RunnerEventView) -> (
    PipelineView,
    RunnerState,
    RunnerActionView,
) {
    let (state, action) = spec_step(runner.kind, runner.state, event);
    match action {
        RunnerActionView::Deliver(records) => (
            deliver_all(p, runner.handle, records),
            spec_step(runner.kind, state, RunnerEventView::Delivered).0,
            spec_step(runner.kind, state, RunnerEventView::Delivered).1,
        ),
        RunnerActionView::Terminate => (spec_terminate(p, runner.handle), state, action),
        _ => (p, state, action),
    }
}

/// Configuring a stage keeps the pipeline well formed, and the handle of a
/// new stage had no channel before.
pub proof fn lemma_configure_keeps_wf(p: PipelineView, config: StageConfigurationView)
    requires
        pipeline_wf(p),
    ensures
        pipeline_wf(spec_configure(p, config).1),
        spec_configure(p, config).0 matches Ok(h) ==> !p.channels.contains_key(h),
{
    let after = spec_configure(p, config).1;
    if spec_register(p.stages, config).0 is Ok {
        let handle = spec_register(p.stages, config).0.unwrap();
        let stored = StageConfigurationView { handle, ..config };
        lemma_registered_handle_is_new(p.stages, config);
        crate::registry::lemma_register_keeps_wf(p.stages, config);
        assert(after.stages == p.stages.push(stored));
        assert forall|h: StageHandle| #[trigger]
            after.channels.contains_key(h) <==> (has_handle(after.stages, h) && entry_of(
                after.stages,
                h,
            ).kind.spec_buffers_input()) by {
            lemma_entry_after_push(p.stages, stored, h);
            assert(p.channels.contains_key(h) <==> (has_handle(p.stages, h) && entry_of(
                p.stages,
                h,
            ).kind.spec_buffers_input()));
        }
        assert forall|f: StageHandle| #[trigger] after.routes.contains_key(f) implies has_handle(
            after.stages,
            f,
        ) && after.channels.contains_key(after.routes[f]) by {
            lemma_entry_after_push(p.stages, stored, f);
            assert(p.channels.contains_key(p.routes[f]));
        }
        assert forall|h: StageHandle| #[trigger] after.terminated.contains(h) implies has_handle(
            after.stages,
            h,
        ) by {
            lemma_entry_after_push(p.stages, stored, h);
        }
    }
}

/// Every operation but configuring keeps the pipeline well formed.
pub proof fn lemma_operations_keep_wf(p: PipelineView, a: StageHandle, b: StageHandle, record: RecordView)
    requires
        pipeline_wf(p),
    ensures
        pipeline_wf(spec_connect(p, a, b).1),
        pipeline_wf(spec_deliver(p, a, record).1),
        pipeline_wf(spec_process(p, a, record).1),
        pipeline_wf(spec_terminate(p, a)),
        pipeline_wf(spec_start(p, a)),
        pipeline_wf(PipelineView { channels: spec_recv(p.channels, a).1, ..p }),
{
    assert(pipeline_wf(spec_connect(p, a, b).1)) by {
        let after = spec_connect(p, a, b).1;
        assert forall|f: StageHandle| #[trigger] after.routes.contains_key(f) implies has_handle(
            after.stages,
            f,
        ) && after.channels.contains_key(after.routes[f]) by {
            if f != a || p.routes.contains_key(a) {
                assert(p.routes.contains_key(f));
            } else {
                assert(p.channels.contains_key(b));
            }
        }
    }
    assert(pipeline_wf(spec_deliver(p, a, record).1)) by {
        let after = spec_deliver(p, a, record).1;
        assert forall|h: StageHandle| #[trigger]
            after.channels.contains_key(h) <==> p.channels.contains_key(h) by {}
        assert forall|f: StageHandle| #[trigger] after.routes.contains_key(f) implies has_handle(
            after.stages,
            f,
        ) && after.channels.contains_key(after.routes[f]) by {
            assert(p.channels.contains_key(p.routes[f]));
        }
    }
    assert(pipeline_wf(spec_process(p, a, record).1)) by {
        let after = spec_process(p, a, record).1;
        assert forall|h: StageHandle| #[trigger]
            after.channels.contains_key(h) <==> p.channels.contains_key(h) by {}
        assert forall|f: StageHandle| #[trigger] after.routes.contains_key(f) implies has_handle(
            after.stages,
            f,
        ) && after.channels.contains_key(after.routes[f]) by {
            assert(p.channels.contains_key(p.routes[f]));
        }
    }
    assert(pipeline_wf(spec_start(p, a))) by {
        let after = spec_start(p, a);
        assert forall|h: StageHandle| #[trigger]
            after.channels.contains_key(h) <==> p.channels.contains_key(h) by {}
        assert forall|f: StageHandle| #[trigger] after.routes.contains_key(f) implies has_handle(
            after.stages,
            f,
        ) && after.channels.contains_key(after.routes[f]) by {
            assert(p.channels.contains_key(p.routes[f]));
        }
    }
    assert(pipeline_wf(PipelineView { channels: spec_recv(p.channels, a).1, ..p })) by {
        let after = PipelineView { channels: spec_recv(p.channels, a).1, ..p };
        assert forall|h: StageHandle| #[trigger]
            after.channels.contains_key(h) <==> p.channels.contains_key(h) by {}
        assert forall|f: StageHandle| #[trigger] after.routes.contains_key(f) implies has_handle(
            after.stages,
            f,
        ) && after.channels.contains_key(after.routes[f]) by {
            assert(p.channels.contains_key(p.routes[f]));
        }
    }
}

struct State {
    registry: HandleRegistry,
    channels: ChannelRegistry,
    routes: HashMap<StageHandle, StageHandle>,
    terminated: HashSet<StageHandle>,
}

impl State {
    spec fn content(&self) -> PipelineView {
        PipelineView {
            stages: self.registry@,
            channels: self.channels@,
            routes: self.routes@,
            terminated: self.terminated@,
        }
    }

    fn empty() -> (state: State)
        ensures
            state.content() == empty_pipeline(),
    {
        State {
            registry: HandleRegistry::new(),
            channels: ChannelRegistry::new(),
            routes: HashMap::new(),
            terminated: HashSet::new(),
        }
    }
}

/// What starting a stage yields: the stage's worker, the receiving end of
/// its channel if it has one, and the first action that the worker asks for.
#[derive(Debug)]
pub struct Worker {
    pub runner: StageRunner,
    pub receiver: Option<Receiver>,
    pub action: RunnerAction,
}

impl Worker {
    /// What the operator is told when the worker has terminated at its
    /// start, which it has when the receiving end of the stage's channel was
    /// not to be had: a sentence that names the stage's handle. A worker
    /// that has not terminated has nothing to report.
    pub fn start_failure(&self) -> (report: Option<String>)
        ensures
            report is Some <==> self.runner@.state == RunnerState::Terminated,
            report matches Some(message) ==> message@ == receiver_missing_text(self.runner@.handle)
                && crate::text::spec_contains(
                message@,
                crate::text::spec_decimal(self.runner@.handle as nat),
            ),
    {
        if self.runner.is_terminated() {
            Some(receiver_missing_message(self.runner.handle()))
        } else {
            None
        }
    }
}

/// The pipeline host.
pub struct Pipeline {
    state: State,
}

impl View for Pipeline {
    type V = PipelineView;

    closed spec fn view(&self) -> PipelineView {
        self.state.content()
    }
}

impl Pipeline {
    #[verifier::type_invariant]
    spec fn well_formed(&self) -> bool {
        pipeline_wf(self.state.content())
    }

    /// A pipeline without stages.
    pub fn new() -> (pipeline: Pipeline)
        ensures
            pipeline@ == empty_pipeline(),
    {
        Pipeline { state: State::empty() }
    }

    /// Number of configured stages. Every pipeline is well formed.
    pub fn len(&self) -> (n: usize)
        ensures
            n == self@.stages.len(),
            pipeline_wf(self@),
    {
        proof {
            use_type_invariant(self);
        }
        self.state.registry.len()
    }

    /// The configuration stored under `handle`.
    pub fn lookup(&self, handle: StageHandle) -> (found: Option<&StageConfiguration>)
        ensures
            found is Some <==> has_handle(self@.stages, handle),
            found matches Some(config) ==> config@ == entry_of(self@.stages, handle) && config@.handle
                == handle,
    {
        self.state.registry.lookup(handle)
    }

    /// The value of the parameter `key` of the stage `handle`.
    pub fn get_param(&self, handle: StageHandle, key: &str) -> (value: Option<&String>)
        ensures
            value is Some <==> has_handle(self@.stages, handle) && entry_of(
                self@.stages,
                handle,
            ).params.contains_key(key@),
            value matches Some(v) ==> v@ == entry_of(self@.stages, handle).params[key@],
    {
        match self.state.registry.lookup(handle) {
            Some(config) => config.params.get(key),
            None => None,
        }
    }

    /// The stage that receives what `from` delivers.
    pub fn downstream(&self, from: StageHandle) -> (to: Option<StageHandle>)
        ensures
            to is Some <==> self@.routes.contains_key(from),
            to matches Some(t) ==> t == self@.routes[from],
    {
        match self.state.routes.get(&from) {
            Some(to) => Some(*to),
            None => None,
        }
    }

    /// Number of records queued for `handle`; `None` when the stage has no
    /// channel.
    pub fn pending(&self, handle: StageHandle) -> (count: Option<usize>)
        ensures
            count is Some <==> self@.channels.contains_key(handle),
            count matches Some(n) ==> n == self@.channels[handle].queue.len(),
    {
        self.state.channels.pending(handle)
    }

    /// Whether the stage `handle` has signalled its termination.
    pub fn is_terminated(&self, handle: StageHandle) -> (b: bool)
        ensures
            b == self@.terminated.contains(handle),
    {
        self.state.terminated.contains(&handle)
    }

    /// Configures a stage and returns its handle.
    ///
    /// The stage is registered as [`spec_register`] says. If its kind is fed
    /// through a channel, the channel is created with it. A refusal changes
    /// nothing.
    pub fn configure(&mut self, config: StageConfiguration) -> (outcome: Result<
        StageHandle,
        RegistrationError,
    >)
        ensures
            outcome == spec_configure(old(self)@, config@).0,
            final(self)@ == spec_configure(old(self)@, config@).1,
    {
        proof {
            use_type_invariant(&*self);
            lemma_configure_keeps_wf(self@, config@);
        }
        let buffers = config.kind.buffers_input();
        let mut state = State::empty();
        std::mem::swap(&mut state, &mut self.state);
        let outcome = state.registry.register(config);
        if let Ok(handle) = outcome {
            if buffers {
                let created = state.channels.create(handle);
                assert(created is Ok);
            }
        }
        assert(state.content() =~= spec_configure(old(self)@, config@).1);
        self.state = state;
        outcome
    }

    /// Configures the stage that a module has prepared, if the module has
    /// prepared one. A module's refusal is handed on as it is and changes
    /// nothing; a refusal of the registry comes back as `Registration`.
    pub fn install(&mut self, prepared: Result<StageConfiguration, ConfigurationError>) -> (outcome:
        Result<StageHandle, ConfigurationError>)
        ensures
            match prepared {
                Err(e) => outcome == Err::<StageHandle, ConfigurationError>(e) && final(self)@ == old(
                    self,
                )@,
                Ok(config) => {
                    &&& final(self)@ == spec_configure(old(self)@, config@).1
                    &&& match spec_configure(old(self)@, config@).0 {
                        Ok(handle) => outcome == Ok::<StageHandle, ConfigurationError>(handle),
                        Err(e) => outcome == Err::<StageHandle, ConfigurationError>(
                            ConfigurationError::Registration(e),
                        ),
                    }
                },
            },
    {
        match prepared {
            Err(e) => Err(e),
            Ok(config) => match self.configure(config) {
                Ok(handle) => Ok(handle),
                Err(e) => Err(ConfigurationError::Registration(e)),
            },
        }
    }

    /// Connects `from` to `to`: from now on, what `from` delivers is queued
    /// for `to`. A stage has at most one next stage.
    pub fn connect(&mut self, from: StageHandle, to: StageHandle) -> (outcome: Result<(), ConnectError>)
        ensures
            outcome == spec_connect(old(self)@, from, to).0,
            final(self)@ == spec_connect(old(self)@, from, to).1,
    {
        proof {
            use_type_invariant(&*self);
            lemma_operations_keep_wf(self@, from, to, arbitrary());
        }
        let forwards = match self.state.registry.lookup(from) {
            Some(config) => config.kind.forwards_output(),
            None => {
                return Err(ConnectError::UnknownStage(from));
            },
        };
        let buffers = match self.state.registry.lookup(to) {
            Some(config) => config.kind.buffers_input(),
            None => {
                return Err(ConnectError::UnknownStage(to));
            },
        };
        if !forwards {
            return Err(ConnectError::NotAProducer(from));
        }
        if !buffers {
            return Err(ConnectError::NotAConsumer(to));
        }
        if self.state.routes.contains_key(&from) {
            return Err(ConnectError::AlreadyConnected(from));
        }
        let mut state = State::empty();
        std::mem::swap(&mut state, &mut self.state);
        state.routes.insert(from, to);
        assert(state.content() =~= spec_connect(old(self)@, from, to).1);
        self.state = state;
        Ok(())
    }

    /// Starts the stage `handle` and returns its worker.
    ///
    /// The stored configuration is read back; without one the start fails
    /// with `NotConfigured`. A source's worker begins by pulling input. The
    /// worker of any other stage needs the receiving end of the stage's
    /// channel: if it can be claimed, the worker begins by polling it; if
    /// not, the worker has terminated without entering its loop, and the
    /// stage is marked as terminated.
    pub fn start(&mut self, handle: StageHandle) -> (outcome: Result<Worker, StartError>)
        ensures
            outcome is Err <==> !has_handle(old(self)@.stages, handle),
            outcome matches Err(e) ==> e == StartError::NotConfigured(handle),
            final(self)@ == spec_start(old(self)@, handle),
            outcome matches Ok(worker) ==> {
                let kind = entry_of(old(self)@.stages, handle).kind;
                let claimed = kind != StageKind::Source && spec_claim(old(self)@.channels, handle).0 is Ok;
                &&& worker.runner@.handle == handle
                &&& worker.runner@.kind == kind
                &&& worker.runner@.received == 0
                &&& worker.runner@.failed == 0
                &&& worker.receiver is Some <==> claimed
                &&& worker.receiver matches Some(receiver) ==> receiver@ == handle
                &&& worker.runner@.state == if kind == StageKind::Source || claimed {
                    RunnerState::Running
                } else {
                    RunnerState::Terminated
                }
                &&& worker.action@ == if kind == StageKind::Source {
                    RunnerActionView::PullInput
                } else if claimed {
                    RunnerActionView::Poll
                } else {
                    RunnerActionView::Terminate
                }
            },
    {
        proof {
            use_type_invariant(&*self);
            lemma_operations_keep_wf(self@, handle, handle, arbitrary());
        }
        let kind = match self.state.registry.lookup(handle) {
            Some(config) => config.kind,
            None => {
                return Err(StartError::NotConfigured(handle));
            },
        };
        let mut runner = StageRunner::new(handle, kind);
        if !kind.buffers_input() {
            let action = runner.step(RunnerEvent::Start { receiver_claimed: false });
            return Ok(Worker { runner, receiver: None, action });
        }
        let mut state = State::empty();
        std::mem::swap(&mut state, &mut self.state);
        let receiver = match state.channels.claim_receiver(handle) {
            Ok(receiver) => Some(receiver),
            Err(_) => {
                state.terminated.insert(handle);
                None
            },
        };
        assert(state.content() =~= spec_start(old(self)@, handle));
        self.state = state;
        let action = runner.step(RunnerEvent::Start { receiver_claimed: receiver.is_some() });
        Ok(Worker { runner, receiver, action })
    }

    /// Takes a record from the stage `from` and queues it for the stage that
    /// `from` is connected to. The call never waits, and the record is
    /// queued whether or not the receiving stage has been started.
    pub fn deliver(&mut self, from: StageHandle, record: RecordEnvelope) -> (outcome: Result<
        (),
        DeliverError,
    >)
        ensures
            outcome == spec_deliver(old(self)@, from, record@).0,
            final(self)@ == spec_deliver(old(self)@, from, record@).1,
    {
        proof {
            use_type_invariant(&*self);
            lemma_operations_keep_wf(self@, from, from, record@);
        }
        if !self.state.registry.contains(from) {
            return Err(DeliverError::UnknownStage(from));
        }
        let to = match self.state.routes.get(&from) {
            Some(to) => *to,
            None => {
                return Err(DeliverError::NotConnected(from));
            },
        };
        let mut state = State::empty();
        std::mem::swap(&mut state, &mut self.state);
        let sent = state.channels.send(to, record);
        assert(sent is Ok);
        assert(state.content() =~= spec_deliver(old(self)@, from, record@).1);
        self.state = state;
        Ok(())
    }

    fn deliver_each(&mut self, from: StageHandle, records: Vec<RecordEnvelope>)
        ensures
            final(self)@ == deliver_all(old(self)@, from, records_view(records@)),
    {
        let ghost all = records_view(records@);
        assert(all.take(0) =~= Seq::empty());
        for record in it: records
            invariant
                records_view(it.seq()) == all,
                self@ == deliver_all(old(self)@, from, all.take(it.index() as int)),
        {
            proof {
                let upto = all.take(it.index() + 1);
                assert(upto.drop_last() =~= all.take(it.index() as int));
                assert(upto.last() == record@);
            }
            let _ = self.deliver(from, record);
        }
        assert(all.take(all.len() as int) =~= all);
    }

    /// Gives `event` to the worker `runner` and does the pipeline's part of
    /// what follows, as [`spec_advance`] says: records that the worker asks
    /// to deliver are delivered, a termination is recorded. Returns the
    /// action that is left to do: pull input, poll, process a record, or
    /// leave the loop.
    pub fn advance(&mut self, runner: &mut StageRunner, event: RunnerEvent) -> (action: RunnerAction)
        ensures
            final(self)@ == spec_advance(old(self)@, old(runner)@, event@).0,
            final(runner)@.state == spec_advance(old(self)@, old(runner)@, event@).1,
            action@ == spec_advance(old(self)@, old(runner)@, event@).2,
            final(runner)@.handle == old(runner)@.handle,
            final(runner)@.kind == old(runner)@.kind,
            final(runner)@.received == if in_loop(old(runner)@.state) && takes_in(
                old(runner)@.kind,
                event@,
            ) {
                bump(old(runner)@.received)
            } else {
                old(runner)@.received
            },
            final(runner)@.failed == if in_loop(old(runner)@.state) && old(runner)@.kind
                != StageKind::Source && event@ is ProcessingFailed {
                bump(old(runner)@.failed)
            } else {
                old(runner)@.failed
            },
    {
        let action = runner.step(event);
        match action {
            RunnerAction::Deliver(records) => {
                self.deliver_each(runner.handle(), records);
                runner.step(RunnerEvent::Delivered)
            },
            RunnerAction::Terminate => {
                self.terminate(runner.handle());
                RunnerAction::Terminate
            },
            other => other,
        }
    }

    /// Queues `record` for the stage `handle`. The call never waits. It
    /// fails with `NoSuchStage` when the stage has no channel.
    pub fn process(&mut self, handle: StageHandle, record: RecordEnvelope) -> (outcome: Result<
        (),
        ChannelError,
    >)
        ensures
            outcome == spec_process(old(self)@, handle, record@).0,
            final(self)@ == spec_process(old(self)@, handle, record@).1,
    {
        proof {
            use_type_invariant(&*self);
            lemma_operations_keep_wf(self@, handle, handle, record@);
        }
        let mut state = State::empty();
        std::mem::swap(&mut state, &mut self.state);
        let outcome = state.channels.send(handle, record);
        assert(state.content() =~= spec_process(old(self)@, handle, record@).1);
        self.state = state;
        outcome
    }

    /// Takes the oldest record queued for the stage that `receiver` belongs
    /// to. The call never waits: it returns `None` when nothing is queued.
    pub fn recv(&mut self, receiver: &Receiver) -> (record: Option<RecordEnvelope>)
        ensures
            match record {
                Some(r) => spec_recv(old(self)@.channels, receiver@).0 == Some(r@),
                None => spec_recv(old(self)@.channels, receiver@).0 is None,
            },
            final(self)@ == (PipelineView {
                channels: spec_recv(old(self)@.channels, receiver@).1,
                ..old(self)@
            }),
    {
        proof {
            use_type_invariant(&*self);
            lemma_operations_keep_wf(self@, receiver@, receiver@, arbitrary());
        }
        let mut state = State::empty();
        std::mem::swap(&mut state, &mut self.state);
        let record = state.channels.recv(receiver);
        assert(state.content() =~= (PipelineView {
            channels: spec_recv(old(self)@.channels, receiver@).1,
            ..old(self)@
        }));
        self.state = state;
        record
    }

    /// Records that the stage `handle` has terminated. Returns whether this
    /// is news: the stage is configured and had not terminated before.
    pub fn terminate(&mut self, handle: StageHandle) -> (news: bool)
        ensures
            final(self)@ == spec_terminate(old(self)@, handle),
            news == (has_handle(old(self)@.stages, handle) && !old(self)@.terminated.contains(handle)),
    {
        proof {
            use_type_invariant(&*self);
            lemma_operations_keep_wf(self@, handle, handle, arbitrary());
        }
        if !self.state.registry.contains(handle) {
            return false;
        }
        let mut state = State::empty();
        std::mem::swap(&mut state, &mut self.state);
        let news = state.terminated.insert(handle);
        assert(state.content() =~= spec_terminate(old(self)@, handle));
        self.state = state;
        news
    }
}

/// What a connected stage delivers, one record after the other, is sent to
/// the stage it is connected to, and nothing else changes.
pub proof fn lemma_deliver_all(p: PipelineView, from: StageHandle, records: Seq<RecordView>)
    requires
        pipeline_wf(p),
        has_handle(p.stages, from),
        p.routes.contains_key(from),
    ensures
        deliver_all(p, from, records) == (PipelineView {
            channels: send_all(p.channels, p.routes[from], records),
            ..p
        }),
    decreases records.len(),
{
    if records.len() > 0 {
        lemma_deliver_all(p, from, records.drop_last());
    }
}

/// A record delivered before the receiving stage is started is not lost:
/// when that stage is started afterwards, its worker runs with the receiving
/// end of the channel, and what it receives is everything that was queued,
/// in the order in which it was delivered.
pub proof fn law_delivered_before_start(p: PipelineView, from: StageHandle, records: Seq<RecordView>)
    requires
        pipeline_wf(p),
        has_handle(p.stages, from),
        p.routes.contains_key(from),
        !p.channels[p.routes[from]].claimed,
    ensures
        ({
            let to = p.routes[from];
            let delivered = deliver_all(p, from, records);
            let started = spec_start(delivered, to);
            &&& spec_claim(delivered.channels, to).0 is Ok
            &&& !started.terminated.contains(to) || p.terminated.contains(to)
            &&& recv_all(started.channels, to, p.channels[to].queue.len() + records.len()).0
                == p.channels[to].queue + records
        }),
{
    let to = p.routes[from];
    assert(p.channels.contains_key(to));
    lemma_deliver_all(p, from, records);
    law_queued_before_claim(p.channels, to, records);
    lemma_send_all_queue(p.channels, to, records);
}

/// The worker `runner` in the state `state`.
pub open spec fn in_state(runner: StageRunnerView, state: RunnerState) -> StageRunnerView {
    StageRunnerView { state, ..runner }
}

/// The pipeline and the worker's state after the worker received `record`
/// and its processing logic made `outcome` of it: the records produced, or
/// `None` for a failure.
pub open spec fn spec_handle(
    p: PipelineView,
    runner: StageRunnerView,
    record: RecordView,
    outcome: Option<Seq<RecordView>>,
) -> (PipelineView, RunnerState) {
    let received = spec_advance(p, runner, RunnerEventView::Received(record));
    let event = match outcome {
        Some(records) => RunnerEventView::Processed(records),
        None => RunnerEventView::ProcessingFailed,
    };
    let handled = spec_advance(received.0, in_state(runner, received.1), event);
    (handled.0, handled.1)
}

/// The pipeline and the worker's state after the worker handled each record
/// of `work` in order; each record comes with what the processing logic
/// made of it.
pub open spec fn spec_handle_all(
    p: PipelineView,
    runner: StageRunnerView,
    work: Seq<(RecordView, Option<Seq<RecordView>>)>,
) -> (PipelineView, RunnerState)
    decreases work.len(),
{
    if work.len() == 0 {
        (p, runner.state)
    } else {
        let before = spec_handle_all(p, runner, work.drop_last());
        spec_handle(before.0, in_state(runner, before.1), work.last().0, work.last().1)
    }
}

/// Everything that the processing logic produced over `work`, in order;
/// a record on which it failed contributes nothing.
pub open spec fn produced(work: Seq<(RecordView, Option<Seq<RecordView>>)>) -> Seq<RecordView>
    decreases work.len(),
{
    if work.len() == 0 {
        Seq::empty()
    } else {
        produced(work.drop_last()) + match work.last().1 {
            Some(records) => records,
            None => Seq::empty(),
        }
    }
}

/// The pipeline after a running source read each of `inputs` in order and
/// then met the end of its input.
pub open spec fn spec_source_run(p: PipelineView, runner: StageRunnerView, inputs: Seq<RecordView>) -> (
    PipelineView,
    RunnerState,
)
    decreases inputs.len(),
{
    if inputs.len() == 0 {
        (p, runner.state)
    } else {
        let before = spec_source_run(p, runner, inputs.drop_last());
        let read = spec_advance(before.0, in_state(runner, before.1), RunnerEventView::Input(inputs.last()));
        (read.0, read.1)
    }
}

/// Sending one batch and then another is sending the two batches joined.
pub proof fn lemma_send_all_append(
    channels: Map<StageHandle, ChannelView>,
    handle: StageHandle,
    first: Seq<RecordView>,
    second: Seq<RecordView>,
)
    requires
        channels.contains_key(handle),
    ensures
        send_all(send_all(channels, handle, first), handle, second) == send_all(
            channels,
            handle,
            first + second,
        ),
{
    lemma_send_all_queue(channels, handle, first);
    lemma_send_all_queue(send_all(channels, handle, first), handle, second);
    lemma_send_all_queue(channels, handle, first + second);
    assert((channels[handle].queue + first) + second =~= channels[handle].queue + (first + second));
    assert(send_all(send_all(channels, handle, first), handle, second) =~= send_all(
        channels,
        handle,
        first + second,
    ));
}

/// A failing record does not halt a stage: a running transformation that
/// handles one record after the other stays running whatever its processing
/// logic makes of them, and the next stage is sent exactly what the logic
/// produced, in order. The records before and after a failure are
/// delivered; only the failed one contributes nothing.
pub proof fn law_failures_are_passed_over(
    p: PipelineView,
    runner: StageRunnerView,
    work: Seq<(RecordView, Option<Seq<RecordView>>)>,
)
    requires
        pipeline_wf(p),
        runner.kind == StageKind::Transform,
        runner.state == RunnerState::Running,
        has_handle(p.stages, runner.handle),
        p.routes.contains_key(runner.handle),
    ensures
        spec_handle_all(p, runner, work) == (
            PipelineView {
                channels: send_all(p.channels, p.routes[runner.handle], produced(work)),
                ..p
            },
            RunnerState::Running,
        ),
    decreases work.len(),
{
    let to = p.routes[runner.handle];
    assert(p.channels.contains_key(to));
    if work.len() == 0 {
        assert(spec_handle_all(p, runner, work).0 =~= (PipelineView {
            channels: send_all(p.channels, to, produced(work)),
            ..p
        }));
    } else {
        law_failures_are_passed_over(p, runner, work.drop_last());
        let done = produced(work.drop_last());
        let before = PipelineView { channels: send_all(p.channels, to, done), ..p };
        let out = match work.last().1 {
            Some(records) => records,
            None => Seq::empty(),
        };
        lemma_send_all_queue(p.channels, to, done);
        assert(pipeline_wf(before)) by {
            assert forall|h: StageHandle| #[trigger]
                before.channels.contains_key(h) <==> p.channels.contains_key(h) by {}
            assert forall|f: StageHandle| #[trigger] before.routes.contains_key(f) implies has_handle(
                before.stages,
                f,
            ) && before.channels.contains_key(before.routes[f]) by {
                assert(p.channels.contains_key(p.routes[f]));
            }
        }
        lemma_deliver_all(before, runner.handle, out);
        lemma_send_all_append(p.channels, to, done, out);
        assert(send_all(before.channels, to, Seq::<RecordView>::empty()) == before.channels);
        assert(spec_handle_all(p, runner, work).0 =~= (PipelineView {
            channels: send_all(p.channels, to, produced(work)),
            ..p
        }));
    }
}

/// What a source reads is what the next stage receives: after a running
/// source read its inputs, the stage it is connected to has them queued in
/// the order in which they were read, behind what was queued before, and
/// receives them in that order. When the input ends, the source terminates.
pub proof fn law_source_feeds_next_stage(p: PipelineView, runner: StageRunnerView, inputs: Seq<RecordView>)
    requires
        pipeline_wf(p),
        runner.kind == StageKind::Source,
        runner.state == RunnerState::Running,
        has_handle(p.stages, runner.handle),
        p.routes.contains_key(runner.handle),
    ensures
        ({
            let to = p.routes[runner.handle];
            let after = spec_source_run(p, runner, inputs);
            let ended = spec_advance(after.0, in_state(runner, after.1), RunnerEventView::EndOfInput);
            &&& after == (PipelineView { channels: send_all(p.channels, to, inputs), ..p }, RunnerState::Running)
            &&& recv_all(after.0.channels, to, p.channels[to].queue.len() + inputs.len()).0
                == p.channels[to].queue + inputs
            &&& ended.0.terminated.contains(runner.handle)
            &&& ended.1 == RunnerState::Terminated
            &&& ended.2 == RunnerActionView::Terminate
        }),
    decreases inputs.len(),
{
    let to = p.routes[runner.handle];
    assert(p.channels.contains_key(to));
    if inputs.len() == 0 {
        assert(spec_source_run(p, runner, inputs).0 =~= (PipelineView {
            channels: send_all(p.channels, to, inputs),
            ..p
        }));
    } else {
        law_source_feeds_next_stage(p, runner, inputs.drop_last());
        let done = inputs.drop_last();
        let before = PipelineView { channels: send_all(p.channels, to, done), ..p };
        lemma_send_all_queue(p.channels, to, done);
        assert(pipeline_wf(before)) by {
            assert forall|h: StageHandle| #[trigger]
                before.channels.contains_key(h) <==> p.channels.contains_key(h) by {}
            assert forall|f: StageHandle| #[trigger] before.routes.contains_key(f) implies has_handle(
                before.stages,
                f,
            ) && before.channels.contains_key(before.routes[f]) by {
                assert(p.channels.contains_key(p.routes[f]));
            }
        }
        let one = seq![inputs.last()];
        lemma_deliver_all(before, runner.handle, one);
        lemma_send_all_append(p.channels, to, done, one);
        assert(done + one =~= inputs);
        assert(spec_source_run(p, runner, inputs).0 =~= (PipelineView {
            channels: send_all(p.channels, to, inputs),
            ..p
        }));
    }
    crate::channel::law_fifo(p.channels, to, inputs);
}

} // verus!
