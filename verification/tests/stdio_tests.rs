use torustiq::params::ParamMap;
use torustiq::record::RecordEnvelope;
use torustiq::stage::{ConfigurationError, ModuleKind, StageKind};
use torustiq::destination_stdout;
use torustiq::stdio;

fn pair(k: &str, v: &str) -> (String, String) {
    (String::from(k), String::from(v))
}

#[test]
fn stdio_module_info() {
    let info = stdio::torustiq_module_get_info();
    assert_eq!(info.id, "stdio");
    assert_eq!(info.name, "Standard Input and Output");
    assert_eq!(info.kind, ModuleKind::Pipeline);
    let plain = destination_stdout::torustiq_module_get_info();
    assert_eq!(plain.id, "destination_stdout");
    assert_eq!(plain.name, "STDOUT destination");
}

#[test]
fn stdio_has_sources_and_destinations() {
    for kind in [StageKind::Source, StageKind::Destination] {
        let c = stdio::configure(kind, ParamMap::new()).unwrap();
        assert_eq!(c.kind, kind);
        assert_eq!(c.module, "stdio");
        assert!(!c.exclusive);
    }
    for kind in [StageKind::Transform, StageKind::Listener] {
        assert_eq!(
            stdio::configure(kind, ParamMap::new()).unwrap_err(),
            ConfigurationError::KindNotSupported(kind)
        );
    }
}

#[test]
fn the_plain_destination_is_a_destination() {
    assert_eq!(
        destination_stdout::configure(StageKind::Destination, ParamMap::new()).unwrap().module,
        "destination_stdout"
    );
    for kind in [StageKind::Source, StageKind::Transform, StageKind::Listener] {
        assert_eq!(
            destination_stdout::configure(kind, ParamMap::new()).unwrap_err(),
            ConfigurationError::KindNotSupported(kind)
        );
    }
}

#[test]
fn the_template_defaults_to_the_content() {
    assert_eq!(stdio::output_template(&ParamMap::new()), "%R");
    let p = ParamMap::from_pairs(&vec![pair("format", "[%M] %R")]);
    assert_eq!(stdio::output_template(&p), "[%M] %R");
}

#[test]
fn metadata_are_listed_as_key_equals_value() {
    let r = RecordEnvelope::new(vec![], vec![pair("a", "1"), pair("b", "2"), pair("a", "3")]);
    assert_eq!(stdio::format_metadata(&r), "a = 1, b = 2, a = 3");
    assert_eq!(stdio::format_metadata(&RecordEnvelope::from_text("x")), "");
    let one = RecordEnvelope::new(vec![], vec![pair("only", "")]);
    assert_eq!(stdio::format_metadata(&one), "only = ");
}

#[test]
fn render_fills_the_template() {
    assert_eq!(stdio::render("%R", "hello", "a = 1"), "hello");
    assert_eq!(stdio::render("%R {%M}", "hello", "a = 1"), "hello {a = 1}");
    assert_eq!(stdio::render("%R%R", "ab", ""), "abab");
    assert_eq!(stdio::render("no marks", "x", "y"), "no marks");
    assert_eq!(stdio::render("", "x", "y"), "");
    assert_eq!(stdio::render("%", "x", "y"), "%");
}

#[test]
fn metadata_marks_in_the_content_are_filled_too() {
    assert_eq!(stdio::render("%R", "see %M", "k = v"), "see k = v");
    assert_eq!(stdio::render("%M", "x", "see %R"), "see %R");
}

#[test]
fn a_record_is_rendered_with_its_content_and_metadata() {
    let r = RecordEnvelope::new(b"line".to_vec(), vec![pair("host", "a"), pair("n", "1")]);
    assert_eq!(stdio::render_record("%R", &r), "line");
    assert_eq!(stdio::render_record("%M: %R", &r), "host = a, n = 1: line");
}

#[test]
fn the_plain_destination_prints_two_lines() {
    assert_eq!(destination_stdout::render("body", "k = v"), "Record: body\nMtd: k = v");
    let r = RecordEnvelope::new(b"body".to_vec(), vec![pair("k", "v")]);
    assert_eq!(destination_stdout::render_record(&r), "Record: body\nMtd: k = v");
    assert_eq!(destination_stdout::render_record(&RecordEnvelope::from_text("")), "Record: \nMtd: ");
}

#[test]
fn a_line_becomes_a_record_without_metadata() {
    let r = RecordEnvelope::from_text("a line");
    assert_eq!(r.payload, b"a line".to_vec());
    assert!(r.metadata.is_empty());
    assert_eq!(stdio::render_record("%R", &r), "a line");
}
