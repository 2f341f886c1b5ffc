//! The Python stages: what is decided around the interpreter.
//!
//! The process has one Python interpreter with one lock for all threads;
//! stages that shared it would hold each other up. The module is therefore
//! exclusive: a second Python stage is refused when it is configured, and
//! the refusal names the stage that exists. Running the interpreter is not
//! done here.

use vstd::prelude::*;
use crate::params::{copy_pairs, pairs_view, ParamMap};
use crate::record::{copy_bytes, RecordEnvelope};
use crate::stage::{
    ModuleInfo, ModuleKind, StageConfiguration, StageConfigurationView, StageKind,
    CURRENT_API_VERSION,
};

verus! {

/// Identifier of this module.
pub const MODULE_ID: &'static str = "python";

/// What the module tells the host about itself.
pub fn torustiq_module_get_info() -> (info: ModuleInfo)
    ensures
        info.api_version == CURRENT_API_VERSION,
        info.id@ == MODULE_ID@,
        info.kind == ModuleKind::Pipeline,
        info.name@ == "Python integration"@,
{
    ModuleInfo {
        api_version: CURRENT_API_VERSION,
        id: MODULE_ID.to_owned(),
        kind: ModuleKind::Pipeline,
        name: "Python integration".to_owned(),
    }
}

/// The configuration of a Python stage. Any kind of stage can be scripted;
/// the interpreter is one for the process, so the module is exclusive.
pub fn configure(kind: StageKind, params: ParamMap) -> (config: StageConfiguration)
    ensures
        config@ == (StageConfigurationView {
            handle: 0,
            kind,
            module: MODULE_ID@,
            exclusive: true,
            params: params@,
        }),
{
    StageConfiguration::new(kind, MODULE_ID.to_owned(), true, params)
}

/// A record on its way to or from a script: the content and the metadata
/// pairs, in order. A key may occur more than once; every pair is kept.
#[derive(Debug)]
pub struct PyRecord {
    pub content: Vec<u8>,
    pub metadata: Vec<(String, String)>,
}

impl PyRecord {
    /// A record with the given content; without metadata if `metadata` is
    /// `None`.
    pub fn new(content: Vec<u8>, metadata: Option<Vec<(String, String)>>) -> (record: PyRecord)
        ensures
            record.content@ == content@,
            pairs_view(record.metadata@) == match metadata {
                Some(pairs) => pairs_view(pairs@),
                None => Seq::<(Seq<char>, Seq<char>)>::empty(),
            },
    {
        let metadata = match metadata {
            Some(pairs) => pairs,
            None => {
                let none: Vec<(String, String)> = Vec::new();
                assert(pairs_view(none@) =~= Seq::empty());
                none
            },
        };
        PyRecord { content, metadata }
    }

    /// What is handed to a script for `record`: a copy of the payload and a
    /// copy of every metadata pair, in the record's order.
    pub fn from_record(record: &RecordEnvelope) -> (seen: PyRecord)
        ensures
            seen.content@ == record@.payload,
            pairs_view(seen.metadata@) == record@.metadata,
    {
        PyRecord {
            content: copy_bytes(record.payload.as_slice()),
            metadata: copy_pairs(&record.metadata),
        }
    }

    /// The record that a script hands back: the content as payload, and the
    /// pairs as metadata, in their order.
    pub fn into_record(self) -> (record: RecordEnvelope)
        ensures
            record@.payload == self.content@,
            record@.metadata == pairs_view(self.metadata@),
    {
        RecordEnvelope::new(self.content, self.metadata)
    }
}

/// Nothing is lost between a record and what is handed to a script: the
/// record made of what was handed over is the record, with every metadata
/// pair in its place, repeated keys included.
pub proof fn law_script_record_round_trip(record: RecordEnvelope, seen: PyRecord, back: RecordEnvelope)
    requires
        seen.content@ == record@.payload,
        pairs_view(seen.metadata@) == record@.metadata,
        back@.payload == seen.content@,
        back@.metadata == pairs_view(seen.metadata@),
    ensures
        back@ == record@,
{
}

} // verus!
