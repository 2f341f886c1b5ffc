use torustiq::http::{
    bind_address, configure, record_from_request, torustiq_module_get_info, HttpConfigError,
    DEFAULT_HOST, DEFAULT_PORT,
};
use torustiq::params::ParamMap;
use torustiq::stage::{ConfigurationError, StageKind};

fn pair(k: &str, v: &str) -> (String, String) {
    (String::from(k), String::from(v))
}

#[test]
fn http_module_info() {
    let info = torustiq_module_get_info();
    assert_eq!(info.id, "source_http");
    assert_eq!(info.name, "HTTP Source");
}

#[test]
fn http_has_sources_only() {
    assert_eq!(configure(StageKind::Source, ParamMap::new()).unwrap().module, "source_http");
    for kind in [StageKind::Transform, StageKind::Destination, StageKind::Listener] {
        assert_eq!(
            configure(kind, ParamMap::new()).unwrap_err(),
            ConfigurationError::KindNotSupported(kind)
        );
    }
}

#[test]
fn the_bind_address_has_defaults() {
    assert_eq!(bind_address(&ParamMap::new()), Ok((String::from("localhost"), 8080)));
    assert_eq!(DEFAULT_HOST, "localhost");
    assert_eq!(DEFAULT_PORT, 8080);
}

#[test]
fn the_bind_address_is_read_from_the_parameters() {
    let p = ParamMap::from_pairs(&vec![pair("host", "0.0.0.0"), pair("port", "9999")]);
    assert_eq!(bind_address(&p), Ok((String::from("0.0.0.0"), 9999)));
    let only_port = ParamMap::from_pairs(&vec![pair("port", "65535")]);
    assert_eq!(bind_address(&only_port), Ok((String::from("localhost"), 65535)));
}

#[test]
fn a_port_that_is_no_port_is_an_error() {
    for bad in ["", "65536", "http", "-1", "80 "] {
        let p = ParamMap::from_pairs(&vec![pair("port", bad)]);
        assert_eq!(bind_address(&p), Err(HttpConfigError::InvalidPort));
    }
}

#[test]
fn a_request_becomes_a_record() {
    let headers = vec![pair("content-type", "text/plain"), pair("x-a", "1"), pair("x-a", "2")];
    let r = record_from_request(b"body bytes", &headers);
    assert_eq!(r.payload, b"body bytes".to_vec());
    assert_eq!(r.metadata, headers);
}

#[test]
fn an_empty_request_becomes_an_empty_record() {
    let r = record_from_request(&[], &Vec::new());
    assert!(r.payload.is_empty());
    assert!(r.metadata.is_empty());
}

#[test]
fn a_bad_port_is_reported_with_the_handle_of_the_source() {
    assert_eq!(
        torustiq::http::config_error_message(5, HttpConfigError::InvalidPort),
        "Step '5': the value of 'port' is not a port number"
    );
}
