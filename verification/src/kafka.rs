//! The message-queue destination: what is decided before a record leaves for
//! the broker.
//!
//! A record's metadata say where the record goes: `kafka.topic` names the
//! topic, `kafka.key` the message key, and each `kafka.headers.<name>` a
//! header `<name>`. The stage's own parameters that begin with `driver.` are
//! the client's settings. Sending itself is not done here.

use rdkafka::config::ClientConfig;
use rdkafka::message::{Header, OwnedHeaders};
use vstd::prelude::*;
use vstd::string::StringSliceAdditionalSpecFns;
use crate::params::{map_of, strip_prefix_map, ParamMap};
use crate::record::{copy_bytes, RecordEnvelope};
use crate::stage::{
    ConfigurationError, ModuleInfo, ModuleKind, StageConfiguration, StageConfigurationView,
    StageKind, CURRENT_API_VERSION,
};
use crate::text;

verus! {

/// Identifier of this module.
pub const MODULE_ID: &'static str = "kafka";

/// Prefix of the stage parameters that are settings of the client.
pub const DRIVER_PREFIX: &'static str = "driver.";

/// Prefix of the metadata keys that become message headers.
pub const HEADER_PREFIX: &'static str = "kafka.headers.";

/// Metadata key of the message key.
pub const KEY_FIELD: &'static str = "kafka.key";

/// Metadata key of the topic.
pub const TOPIC_FIELD: &'static str = "kafka.topic";

/// Topic of a record that names none.
pub const DEFAULT_TOPIC: &'static str = "test";

/// A message as it is handed to the producer.
#[derive(Debug)]
pub struct KafkaMessage {
    pub topic: String,
    pub key: Option<String>,
    pub headers: ParamMap,
    pub payload: Vec<u8>,
}

/// What the module tells the host about itself.
pub fn torustiq_module_get_info() -> (info: ModuleInfo)
    ensures
        info.api_version == CURRENT_API_VERSION,
        info.id@ == MODULE_ID@,
        info.kind == ModuleKind::Pipeline,
        info.name@ == "Kafka output"@,
{
    ModuleInfo {
        api_version: CURRENT_API_VERSION,
        id: MODULE_ID.to_owned(),
        kind: ModuleKind::Pipeline,
        name: "Kafka output".to_owned(),
    }
}

/// The configuration of a stage of this module. The module has
/// destinations only.
pub fn configure(kind: StageKind, params: ParamMap) -> (outcome: Result<
    StageConfiguration,
    ConfigurationError,
>)
    ensures
        match outcome {
            Ok(config) => kind == StageKind::Destination && config@ == (StageConfigurationView {
                handle: 0,
                kind,
                module: MODULE_ID@,
                exclusive: false,
                params: params@,
            }),
            Err(e) => kind != StageKind::Destination && e == ConfigurationError::KindNotSupported(kind),
        },
{
    match kind {
        StageKind::Destination => Ok(StageConfiguration::new(kind, MODULE_ID.to_owned(), false, params)),
        _ => Err(ConfigurationError::KindNotSupported(kind)),
    }
}

/// The client's settings among a stage's parameters: the parameters whose
/// key begins with `driver.`, without that prefix.
pub fn driver_params(params: &ParamMap) -> (settings: ParamMap)
    ensures
        settings@ == strip_prefix_map(params@, DRIVER_PREFIX@),
{
    params.with_prefix(DRIVER_PREFIX)
}

/// The message for `record`.
///
/// The payload is the record's. The topic is the value of `kafka.topic`, or
/// `test` for a record without one; the key is the value of `kafka.key`, if
/// there is one; the headers are the metadata under `kafka.headers.`. Where
/// a metadata key occurs twice, its last value counts.
pub fn message_from_record(record: &RecordEnvelope) -> (message: KafkaMessage)
    ensures
        message.payload@ == record@.payload,
        message.headers@ == strip_prefix_map(map_of(record@.metadata), HEADER_PREFIX@),
        message.key is Some <==> map_of(record@.metadata).contains_key(KEY_FIELD@),
        message.key matches Some(k) ==> k@ == map_of(record@.metadata)[KEY_FIELD@],
        message.topic@ == if map_of(record@.metadata).contains_key(TOPIC_FIELD@) {
            map_of(record@.metadata)[TOPIC_FIELD@]
        } else {
            DEFAULT_TOPIC@
        },
{
    let metadata = record.get_metadata_as_hashmap();
    let headers = metadata.with_prefix(HEADER_PREFIX);
    let key = match metadata.get(KEY_FIELD) {
        Some(k) => Some(k.clone()),
        None => None,
    };
    let topic = match metadata.get(TOPIC_FIELD) {
        Some(t) => t.clone(),
        None => DEFAULT_TOPIC.to_owned(),
    };
    KafkaMessage { topic, key, headers, payload: copy_bytes(record.payload.as_slice()) }
}

/// Whether a failure reported while polling the client's queue is beyond
/// repair: the broker refused the connection, or the client's credentials.
pub fn is_fatal_poll_error(message: &str) -> (fatal: bool)
    ensures
        fatal == (text::spec_contains(message@, "Connection refused"@) || text::spec_contains(
            message@,
            "Authentication failed"@,
        )),
{
    text::contains(message, "Connection refused") || text::contains(message, "Authentication failed")
}

/// The broker addresses among the client's settings, as they are shown to
/// the operator.
pub fn bootstrap_servers(settings: &ParamMap) -> (shown: String)
    ensures
        shown@ == if settings@.contains_key("bootstrap_servers"@) {
            settings@["bootstrap_servers"@]
        } else {
            "(not provided)"@
        },
{
    match settings.get("bootstrap_servers") {
        Some(servers) => servers.clone(),
        None => "(not provided)".to_owned(),
    }
}

/// `rdkafka::config::ClientConfig`, the settings from which a client is
/// made. Nothing inside it is visible here; what it holds is spoken of
/// through [`config_entries`].
#[verifier::external_type_specification]
#[verifier::external_body]
pub struct ExClientConfig(ClientConfig);

/// The parameters that a client configuration holds, by name.
pub uninterp spec fn config_entries(config: ClientConfig) -> Map<Seq<char>, Seq<char>>;

/// The map without entries.
pub open spec fn no_entries() -> Map<Seq<char>, Seq<char>> {
    Map::empty()
}

/// `ClientConfig::new` makes a configuration that holds no parameter.
pub assume_specification[ ClientConfig::new ]() -> (config: ClientConfig)
    ensures
        config_entries(config) == no_entries(),
;

/// `ClientConfig::set` stores `value` under `key`, in place of any value
/// that `key` had, and leaves every other parameter as it was.
#[verifier::external_body]
fn config_set(config: &mut ClientConfig, key: String, value: String)
    ensures
        config_entries(*final(config)) == config_entries(*old(config)).insert(key@, value@),
{
    config.set(key, value);
}

/// The name under which the client knows the setting `key`: the client's
/// names are dotted where a stage parameter has underscores.
pub open spec fn client_key(key: Seq<char>) -> Seq<char> {
    text::spec_replace(key, "_"@, "."@)
}

/// `settings` under the client's names.
pub open spec fn client_settings(settings: Seq<(Seq<char>, Seq<char>)>) -> Seq<(Seq<char>, Seq<char>)> {
    settings.map_values(|p: (Seq<char>, Seq<char>)| (client_key(p.0), p.1))
}

/// The client configuration for `settings`: each setting under the client's
/// name for it. Where two settings get the same name, the later entry counts.
pub fn client_config(settings: &ParamMap) -> (config: ClientConfig)
    ensures
        config_entries(config) == map_of(client_settings(settings.entries())),
{
    let pairs = settings.pairs();
    let mut config = ClientConfig::new();
    let mut i: usize = 0;
    assert(client_settings(settings.entries()).take(0) =~= Seq::empty());
    while i < pairs.len()
        invariant
            i <= pairs.len(),
            crate::params::pairs_view(pairs@) == settings.entries(),
            config_entries(config) == map_of(client_settings(settings.entries()).take(i as int)),
        decreases pairs.len() - i,
    {
        let ghost upto = client_settings(settings.entries()).take(i as int + 1);
        let key = text::replace(pairs[i].0.as_str(), "_", ".");
        let value = pairs[i].1.clone();
        proof {
            assert(upto.drop_last() =~= client_settings(settings.entries()).take(i as int));
            assert(upto.last() == (client_key(pairs@[i as int].0@), pairs@[i as int].1@));
        }
        config_set(&mut config, key, value);
        i += 1;
    }
    assert(client_settings(settings.entries()).take(i as int) =~= client_settings(settings.entries()));
    config
}

/// `rdkafka::message::OwnedHeaders`, the headers of a message to send.
/// Nothing inside it is visible here; what it holds is spoken of through
/// [`header_list`].
#[verifier::external_type_specification]
#[verifier::external_body]
pub struct ExOwnedHeaders(OwnedHeaders);

/// The headers that a header list holds, first to last: for each header
/// the bytes stored as its name and the bytes stored as its value.
pub uninterp spec fn header_list(headers: OwnedHeaders) -> Seq<(Seq<u8>, Seq<u8>)>;

/// The list without headers.
pub open spec fn no_headers() -> Seq<(Seq<u8>, Seq<u8>)> {
    Seq::empty()
}

/// `OwnedHeaders::new_with_capacity` makes a list that holds no header,
/// whatever the capacity asked for.
pub assume_specification[ OwnedHeaders::new_with_capacity ](initial_capacity: usize) -> (headers:
    OwnedHeaders)
    ensures
        header_list(headers) == no_headers(),
;

/// `OwnedHeaders::insert` adds one header behind those that the list holds.
/// Name and value are handed over by address and length, and that many
/// bytes of each are stored: the UTF-8 bytes of `key` and those of `value`.
#[verifier::external_body]
fn headers_insert(headers: OwnedHeaders, key: &str, value: &str) -> (extended: OwnedHeaders)
    ensures
        header_list(extended) == header_list(headers).push((key.spec_bytes(), value.spec_bytes())),
{
    headers.insert(Header { key, value: Some(value) })
}

/// The headers of a message as the producer takes them: one for each entry,
/// in entry order, name and value as their UTF-8 bytes.
pub open spec fn header_entries(entries: Seq<(Seq<char>, Seq<char>)>) -> Seq<(Seq<u8>, Seq<u8>)> {
    entries.map_values(
        |p: (Seq<char>, Seq<char>)| (vstd::utf8::encode_utf8(p.0), vstd::utf8::encode_utf8(p.1)),
    )
}

/// The header list of `message`: every header of the message is in it.
pub fn message_headers(message: &KafkaMessage) -> (headers: OwnedHeaders)
    ensures
        header_list(headers) == header_entries(message.headers.entries()),
{
    let pairs = message.headers.pairs();
    let mut headers = OwnedHeaders::new_with_capacity(pairs.len());
    let mut i: usize = 0;
    assert(header_list(headers) =~= header_entries(message.headers.entries()).take(0));
    while i < pairs.len()
        invariant
            i <= pairs.len(),
            crate::params::pairs_view(pairs@) == message.headers.entries(),
            header_list(headers) == header_entries(message.headers.entries()).take(i as int),
        decreases pairs.len() - i,
    {
        headers = headers_insert(headers, pairs[i].0.as_str(), pairs[i].1.as_str());
        assert(header_list(headers) =~= header_entries(message.headers.entries()).take(i as int + 1));
        i += 1;
    }
    assert(header_entries(message.headers.entries()).take(i as int) =~= header_entries(
        message.headers.entries(),
    ));
    headers
}

} // verus!
