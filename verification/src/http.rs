//! The HTTP source: what is decided around the listener.
//!
//! Each request becomes one record: the body is the payload, and the request
//! headers are the metadata, in the order in which they arrived. Listening
//! itself is not done here.

use vstd::prelude::*;
use crate::params::{copy_pairs, pairs_view, ParamMap};
use crate::record::{copy_bytes, RecordEnvelope, RecordView};
use crate::stage::{
    step_report, step_report_text, ConfigurationError, ModuleInfo, ModuleKind, StageConfiguration,
    StageConfigurationView, StageHandle, StageKind, CURRENT_API_VERSION,
};
use crate::text;

verus! {

/// Identifier of this module.
pub const MODULE_ID: &'static str = "source_http";

/// Host on which the source listens when its parameters name none.
pub const DEFAULT_HOST: &'static str = "localhost";

/// Port on which the source listens when its parameters name none.
pub const DEFAULT_PORT: u16 = 8080;

/// Why the source's parameters cannot be used.
#[derive(Clone, Copy, Debug, PartialEq, Eq, Structural)]
pub enum HttpConfigError {
    /// The value of `port` is not a port number.
    InvalidPort,
}

/// What the module tells the host about itself.
pub fn torustiq_module_get_info() -> (info: ModuleInfo)
    ensures
        info.api_version == CURRENT_API_VERSION,
        info.id@ == MODULE_ID@,
        info.kind == ModuleKind::Pipeline,
        info.name@ == "HTTP Source"@,
{
    ModuleInfo {
        api_version: CURRENT_API_VERSION,
        id: MODULE_ID.to_owned(),
        kind: ModuleKind::Pipeline,
        name: "HTTP Source".to_owned(),
    }
}

/// The configuration of a stage of this module. The module has sources
/// only.
pub fn configure(kind: StageKind, params: ParamMap) -> (outcome: Result<
    StageConfiguration,
    ConfigurationError,
>)
    ensures
        match outcome {
            Ok(config) => kind == StageKind::Source && config@ == (StageConfigurationView {
                handle: 0,
                kind,
                module: MODULE_ID@,
                exclusive: false,
                params: params@,
            }),
            Err(e) => kind != StageKind::Source && e == ConfigurationError::KindNotSupported(kind),
        },
{
    match kind {
        StageKind::Source => Ok(StageConfiguration::new(kind, MODULE_ID.to_owned(), false, params)),
        _ => Err(ConfigurationError::KindNotSupported(kind)),
    }
}

/// The port that `params` name: the value of `port` as a decimal number
/// that fits sixteen bits, or the default port when there is no such
/// parameter.
pub open spec fn spec_port(params: Map<Seq<char>, Seq<char>>) -> Result<u16, HttpConfigError> {
    if params.contains_key("port"@) {
        match text::spec_parse_number(params["port"@], u16::MAX as nat) {
            Some(port) => Ok(port as u16),
            None => Err(HttpConfigError::InvalidPort),
        }
    } else {
        Ok(DEFAULT_PORT)
    }
}

/// Host and port on which the source listens.
pub fn bind_address(params: &ParamMap) -> (outcome: Result<(String, u16), HttpConfigError>)
    ensures
        match outcome {
            Ok((host, port)) => spec_port(params@) == Ok::<u16, HttpConfigError>(port) && host@ == if params@.contains_key(
                "host"@,
            ) {
                params@["host"@]
            } else {
                DEFAULT_HOST@
            },
            Err(e) => spec_port(params@) == Err::<u16, HttpConfigError>(e),
        },
{
    let port = match params.get("port") {
        Some(text) => match text::parse_u16(text.as_str()) {
            Some(port) => port,
            None => {
                return Err(HttpConfigError::InvalidPort);
            },
        },
        None => DEFAULT_PORT,
    };
    let host = match params.get("host") {
        Some(host) => host.clone(),
        None => DEFAULT_HOST.to_owned(),
    };
    Ok((host, port))
}

/// The record for one request: a copy of the body as payload, and the
/// headers as metadata, name and value, in order.
pub fn record_from_request(body: &[u8], headers: &Vec<(String, String)>) -> (record: RecordEnvelope)
    ensures
        record@ == (RecordView { payload: body@, metadata: pairs_view(headers@) }),
{
    RecordEnvelope::new(copy_bytes(body), copy_pairs(headers))
}

/// What the source `handle` reports when its parameters cannot be used: a
/// sentence that names the stage's handle and says what is wrong.
pub fn config_error_message(handle: StageHandle, error: HttpConfigError) -> (message: String)
    ensures
        message@ == step_report_text(handle, "the value of 'port' is not a port number"@),
        text::spec_contains(message@, text::spec_decimal(handle as nat)),
{
    match error {
        HttpConfigError::InvalidPort => step_report(handle, "the value of 'port' is not a port number"),
    }
}

} // verus!
