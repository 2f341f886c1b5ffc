//! Stage handles, kinds and configurations.

use vstd::prelude::*;
use crate::params::ParamMap;

verus! {

/// Identifier of a configured stage. Zero names no stage: a configuration
/// whose handle is zero has not been given one yet.
pub type StageHandle = u32;

/// The role that a stage plays in a pipeline.
#[derive(Clone, Copy, Debug, PartialEq, Eq, Structural)]
pub enum StageKind {
    /// Pulls records from outside the pipeline.
    Source,
    /// Receives records and hands new ones on.
    Transform,
    /// Receives records and renders them outside the pipeline.
    Destination,
    /// Observes records for side effects.
    Listener,
}

impl StageKind {
    /// Whether a stage of this kind is fed through an inbound channel.
    pub open spec fn spec_buffers_input(self) -> bool {
        self != StageKind::Source
    }

    /// Whether a stage of this kind is fed through an inbound channel: every
    /// kind but `Source`.
    #[verifier::when_used_as_spec(spec_buffers_input)]
    pub fn buffers_input(self) -> (b: bool)
        ensures
            b == self.spec_buffers_input(),
    {
        match self {
            StageKind::Source => false,
            _ => true,
        }
    }

    /// Whether a stage of this kind hands records on to a next stage.
    pub open spec fn spec_forwards_output(self) -> bool {
        self == StageKind::Source || self == StageKind::Transform
    }

    /// Whether a stage of this kind hands records on to a next stage:
    /// `Source` and `Transform` do, the terminal kinds do not.
    #[verifier::when_used_as_spec(spec_forwards_output)]
    pub fn forwards_output(self) -> (b: bool)
        ensures
            b == self.spec_forwards_output(),
    {
        match self {
            StageKind::Source | StageKind::Transform => true,
            _ => false,
        }
    }
}

/// Version of the interface between the host and its modules.
pub const CURRENT_API_VERSION: u32 = 1;

/// What a module is loaded for.
#[derive(Clone, Copy, Debug, PartialEq, Eq, Structural)]
pub enum ModuleKind {
    /// The module implements stages of a pipeline.
    Pipeline,
    /// The module observes the records that pass between stages.
    Listener,
}

/// What a module tells the host about itself.
#[derive(Debug)]
pub struct ModuleInfo {
    pub api_version: u32,
    pub id: String,
    pub kind: ModuleKind,
    pub name: String,
}

/// Why a module refused to configure a stage.
#[derive(Clone, Copy, Debug, PartialEq, Eq, Structural)]
pub enum ConfigurationError {
    /// The module has no stage of this kind.
    KindNotSupported(StageKind),
    /// The registry refused the stage.
    Registration(crate::registry::RegistrationError),
}

/// Mathematical content of a [`StageConfiguration`].
pub struct StageConfigurationView {
    pub handle: StageHandle,
    pub kind: StageKind,
    pub module: Seq<char>,
    pub exclusive: bool,
    pub params: Map<Seq<char>, Seq<char>>,
}

/// What is recorded of a stage when it is configured. Nothing of it changes
/// afterwards.
#[derive(Debug)]
pub struct StageConfiguration {
    /// The stage's handle; zero until one is assigned.
    pub handle: StageHandle,
    pub kind: StageKind,
    /// Identifier of the module that implements the stage.
    pub module: String,
    /// Whether the module admits one instance only, as a module does that
    /// wraps a single runtime which cannot be entered twice.
    pub exclusive: bool,
    pub params: ParamMap,
}

impl View for StageConfiguration {
    type V = StageConfigurationView;

    open spec fn view(&self) -> StageConfigurationView {
        StageConfigurationView {
            handle: self.handle,
            kind: self.kind,
            module: self.module@,
            exclusive: self.exclusive,
            params: self.params@,
        }
    }
}

impl StageConfiguration {
    /// A configuration that has no handle yet.
    pub fn new(kind: StageKind, module: String, exclusive: bool, params: ParamMap) -> (config:
        StageConfiguration)
        ensures
            config@ == (StageConfigurationView {
                handle: 0,
                kind,
                module: module@,
                exclusive,
                params: params@,
            }),
    {
        StageConfiguration { handle: 0, kind, module, exclusive, params }
    }

    /// The same configuration under the handle `handle`.
    pub fn with_handle(self, handle: StageHandle) -> (config: StageConfiguration)
        ensures
            config@ == (StageConfigurationView { handle, ..self@ }),
    {
        StageConfiguration { handle, ..self }
    }

    /// The value of the parameter `key`.
    pub fn get_param(&self, key: &str) -> (value: Option<&String>)
        ensures
            value is Some <==> self@.params.contains_key(key@),
            value matches Some(v) ==> v@ == self@.params[key@],
    {
        self.params.get(key)
    }
}

/// A report about the stage `handle`: the stage's handle, then `detail`.
pub open spec fn step_report_text(handle: StageHandle, detail: Seq<char>) -> Seq<char> {
    "Step '"@ + crate::text::spec_decimal(handle as nat) + "': "@ + detail
}

/// What the operator is told about the stage `handle`: a sentence that
/// names the stage's handle, then `detail`.
pub fn step_report(handle: StageHandle, detail: &str) -> (report: String)
    ensures
        report@ == step_report_text(handle, detail@),
        crate::text::spec_contains(report@, crate::text::spec_decimal(handle as nat)),
{
    let mut report = "Step '".to_owned();
    crate::text::push_decimal(&mut report, handle as u64);
    crate::text::push_text(&mut report, "': ");
    crate::text::push_text(&mut report, detail);
    proof {
        crate::text::lemma_contains_inner(
            "Step '"@,
            crate::text::spec_decimal(handle as nat),
            "': "@ + detail@,
        );
        assert(report@ =~= "Step '"@ + crate::text::spec_decimal(handle as nat) + ("': "@ + detail@));
    }
    report
}

} // verus!
