//! The console stages: a source that reads lines and a destination that
//! prints records.
//!
//! What is decided here is the text of each printed record. The destination
//! prints one line per record, made from a template in which `%R` stands for
//! the record's content and `%M` for its metadata. Reading and printing
//! themselves are not done here.

use vstd::prelude::*;
use crate::params::ParamMap;
use crate::record::RecordEnvelope;
use crate::stage::{
    ConfigurationError, ModuleInfo, ModuleKind, StageConfiguration, StageConfigurationView,
    StageKind, CURRENT_API_VERSION,
};
use crate::text;

verus! {

/// Identifier of this module.
pub const MODULE_ID: &'static str = "stdio";

/// Parameter that holds a destination's template.
pub const FORMAT_PARAM: &'static str = "format";

/// Template of a destination whose parameters give none.
pub const DEFAULT_FORMAT: &'static str = "%R";

/// What stands for the record's content in a template.
pub const CONTENT_MARK: &'static str = "%R";

/// What stands for the record's metadata in a template.
pub const METADATA_MARK: &'static str = "%M";

/// What the module tells the host about itself.
pub fn torustiq_module_get_info() -> (info: ModuleInfo)
    ensures
        info.api_version == CURRENT_API_VERSION,
        info.id@ == MODULE_ID@,
        info.kind == ModuleKind::Pipeline,
        info.name@ == "Standard Input and Output"@,
{
    ModuleInfo {
        api_version: CURRENT_API_VERSION,
        id: MODULE_ID.to_owned(),
        kind: ModuleKind::Pipeline,
        name: "Standard Input and Output".to_owned(),
    }
}

/// Whether the module has stages of kind `kind`: it has
/// sources and destinations.
pub open spec fn supports(kind: StageKind) -> bool {
    kind == StageKind::Source || kind == StageKind::Destination
}

/// The configuration of a console stage.
pub fn configure(kind: StageKind, params: ParamMap) -> (outcome: Result<
    StageConfiguration,
    ConfigurationError,
>)
    ensures
        match outcome {
            Ok(config) => supports(kind) && config@ == (StageConfigurationView {
                handle: 0,
                kind,
                module: MODULE_ID@,
                exclusive: false,
                params: params@,
            }),
            Err(e) => !supports(kind) && e == ConfigurationError::KindNotSupported(kind),
        },
{
    match kind {
        StageKind::Source | StageKind::Destination => Ok(
            StageConfiguration::new(kind, MODULE_ID.to_owned(), false, params),
        ),
        _ => Err(ConfigurationError::KindNotSupported(kind)),
    }
}

/// The template of a destination with the parameters `params`.
pub fn output_template(params: &ParamMap) -> (template: String)
    ensures
        template@ == if params@.contains_key(FORMAT_PARAM@) {
            params@[FORMAT_PARAM@]
        } else {
            DEFAULT_FORMAT@
        },
{
    match params.get(FORMAT_PARAM) {
        Some(template) => template.clone(),
        None => DEFAULT_FORMAT.to_owned(),
    }
}

/// One metadata pair as it is printed.
pub open spec fn pair_text(pair: (Seq<char>, Seq<char>)) -> Seq<char> {
    pair.0 + " = "@ + pair.1
}

/// A record's metadata as they are printed: `key = value` for each pair, in
/// order, with `, ` between two pairs.
pub open spec fn metadata_text(pairs: Seq<(Seq<char>, Seq<char>)>) -> Seq<char> {
    text::spec_join(pairs.map_values(|p: (Seq<char>, Seq<char>)| pair_text(p)), ", "@)
}

/// The metadata of `record` as they are printed.
pub fn format_metadata(record: &RecordEnvelope) -> (out: String)
    ensures
        out@ == metadata_text(record@.metadata),
{
    let mut parts: Vec<String> = Vec::new();
    let mut i: usize = 0;
    let ghost texts = record@.metadata.map_values(|p: (Seq<char>, Seq<char>)| pair_text(p));
    while i < record.metadata.len()
        invariant
            i <= record.metadata.len(),
            texts == record@.metadata.map_values(|p: (Seq<char>, Seq<char>)| pair_text(p)),
            text::strings_view(parts@) == texts.take(i as int),
        decreases record.metadata.len() - i,
    {
        let mut part = text::concat(record.metadata[i].0.as_str(), " = ");
        text::push_text(&mut part, record.metadata[i].1.as_str());
        let ghost before = text::strings_view(parts@);
        parts.push(part);
        proof {
            assert(record@.metadata[i as int] == (record.metadata@[i as int].0@, record.metadata@[i as int].1@));
            assert(text::strings_view(parts@) =~= before.push(part@));
            assert(texts.take(i as int + 1) =~= texts.take(i as int).push(texts[i as int]));
        }
        i += 1;
    }
    assert(texts.take(i as int) =~= texts);
    text::join(&parts, ", ")
}

/// The line printed for a record: `template` with the content put for each
/// `%R`, and then the metadata put for each `%M` of the result.
pub open spec fn spec_render(template: Seq<char>, content: Seq<char>, metadata: Seq<char>) -> Seq<char> {
    text::spec_replace(text::spec_replace(template, CONTENT_MARK@, content), METADATA_MARK@, metadata)
}

/// The line printed for a record with the given content and metadata text.
pub fn render(template: &str, content: &str, metadata: &str) -> (line: String)
    ensures
        line@ == spec_render(template@, content@, metadata@),
{
    let with_content = text::replace(template, CONTENT_MARK, content);
    text::replace(with_content.as_str(), METADATA_MARK, metadata)
}

/// The line that a destination with the template `template` prints for
/// `record`.
pub fn render_record(template: &str, record: &RecordEnvelope) -> (line: String)
    ensures
        line@ == spec_render(template@, text::lossy_text(record@.payload), metadata_text(record@.metadata)),
{
    let content = record.content_text();
    let metadata = format_metadata(record);
    render(template, content.as_str(), metadata.as_str())
}

} // verus!
