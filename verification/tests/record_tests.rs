use torustiq::params::{copy_pairs, ParamMap};
use torustiq::record::{copy_bytes, RecordEnvelope};

fn pair(k: &str, v: &str) -> (String, String) {
    (String::from(k), String::from(v))
}

#[test]
fn new_keeps_payload_and_metadata() {
    let r = RecordEnvelope::new(vec![1, 2, 3], vec![pair("a", "1"), pair("a", "2")]);
    assert_eq!(r.payload, vec![1, 2, 3]);
    assert_eq!(r.metadata, vec![pair("a", "1"), pair("a", "2")]);
    assert_eq!(r.get_content_len(), 3);
}

#[test]
fn from_text_encodes_the_content_as_utf8() {
    let r = RecordEnvelope::from_text("hé");
    assert_eq!(r.payload, vec![b'h', 0xc3, 0xa9]);
    assert!(r.metadata.is_empty());
}

#[test]
fn from_std_types_lists_the_map_entries_in_order() {
    let mut m = ParamMap::new();
    m.insert(String::from("b"), String::from("2"));
    m.insert(String::from("a"), String::from("1"));
    let r = RecordEnvelope::from_std_types(vec![9], &m);
    assert_eq!(r.payload, vec![9]);
    assert_eq!(r.metadata, vec![pair("b", "2"), pair("a", "1")]);
}

#[test]
fn metadata_as_map_keeps_the_last_value_of_a_key() {
    let r = RecordEnvelope::new(vec![], vec![pair("k", "1"), pair("x", "y"), pair("k", "2")]);
    let m = r.get_metadata_as_hashmap();
    assert_eq!(m.len(), 2);
    assert_eq!(m.get("k"), Some(&String::from("2")));
    assert_eq!(m.get("x"), Some(&String::from("y")));
}

#[test]
fn content_text_decodes_utf8() {
    assert_eq!(RecordEnvelope::from_text("grüß").content_text(), "grüß");
    assert_eq!(RecordEnvelope::new(vec![], vec![]).content_text(), "");
}

#[test]
fn content_text_replaces_malformed_bytes() {
    let r = RecordEnvelope::new(vec![b'a', 0xff, b'b'], vec![]);
    assert_eq!(r.content_text(), "a\u{fffd}b");
}

#[test]
fn deep_copy_equals_the_record() {
    let r = RecordEnvelope::new(vec![1, 2], vec![pair("a", "1"), pair("a", "1")]);
    let c = r.deep_copy();
    assert_eq!(c, r);
    assert_eq!(r.clone(), r);
}

#[test]
fn a_copy_lives_on_when_the_record_is_gone() {
    let c = {
        let r = RecordEnvelope::new(vec![7; 4], vec![pair("k", "v")]);
        r.deep_copy()
    };
    assert_eq!(c.payload, vec![7, 7, 7, 7]);
    assert_eq!(c.metadata, vec![pair("k", "v")]);
}

#[test]
fn copy_helpers_copy() {
    assert_eq!(copy_bytes(&[1, 2, 3]), vec![1, 2, 3]);
    assert_eq!(copy_pairs(&vec![pair("a", "b")]), vec![pair("a", "b")]);
}
