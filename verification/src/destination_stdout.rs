//! The plain console destination: prints each record's content and
//! metadata on two lines. Printing itself is not done here.

use vstd::prelude::*;
use crate::params::ParamMap;
use crate::record::RecordEnvelope;
use crate::stage::{
    ConfigurationError, ModuleInfo, ModuleKind, StageConfiguration, StageConfigurationView,
    StageKind, CURRENT_API_VERSION,
};
use crate::stdio::{format_metadata, metadata_text};
use crate::text;

verus! {

/// Identifier of this module.
pub const MODULE_ID: &'static str = "destination_stdout";

/// What the module tells the host about itself.
pub fn torustiq_module_get_info() -> (info: ModuleInfo)
    ensures
        info.api_version == CURRENT_API_VERSION,
        info.id@ == MODULE_ID@,
        info.kind == ModuleKind::Pipeline,
        info.name@ == "STDOUT destination"@,
{
    ModuleInfo {
        api_version: CURRENT_API_VERSION,
        id: MODULE_ID.to_owned(),
        kind: ModuleKind::Pipeline,
        name: "STDOUT destination".to_owned(),
    }
}

/// The configuration of a stage of this module. The module has
/// destinations only.
pub fn configure(kind: StageKind, params: ParamMap) -> (outcome: Result<
    StageConfiguration,
    ConfigurationError,
>)
    ensures
        match outcome {
            Ok(config) => kind == StageKind::Destination && config@ == (StageConfigurationView {
                handle: 0,
                kind,
                module: MODULE_ID@,
                exclusive: false,
                params: params@,
            }),
            Err(e) => kind != StageKind::Destination && e == ConfigurationError::KindNotSupported(kind),
        },
{
    match kind {
        StageKind::Destination => Ok(
            StageConfiguration::new(kind, MODULE_ID.to_owned(), false, params),
        ),
        _ => Err(ConfigurationError::KindNotSupported(kind)),
    }
}

/// What is printed for a record: the content on a first line, the metadata
/// on a second.
pub open spec fn spec_render(content: Seq<char>, metadata: Seq<char>) -> Seq<char> {
    "Record: "@ + content + "\nMtd: "@ + metadata
}

/// What is printed for a record with the given content and metadata text.
pub fn render(content: &str, metadata: &str) -> (out: String)
    ensures
        out@ == spec_render(content@, metadata@),
{
    let mut out = text::concat("Record: ", content);
    text::push_text(&mut out, "\nMtd: ");
    text::push_text(&mut out, metadata);
    out
}

/// What is printed for `record`.
pub fn render_record(record: &RecordEnvelope) -> (out: String)
    ensures
        out@ == spec_render(text::lossy_text(record@.payload), metadata_text(record@.metadata)),
{
    let content = record.content_text();
    let metadata = format_metadata(record);
    render(content.as_str(), metadata.as_str())
}

} // verus!
