use torustiq::record::RecordEnvelope;
use torustiq::wire::{decode, encode, DecodeError};

fn pair(k: &str, v: &str) -> (String, String) {
    (String::from(k), String::from(v))
}

#[test]
fn empty_record_encodes_as_two_zero_lengths() {
    let bytes = encode(&RecordEnvelope::new(vec![], vec![]));
    assert_eq!(bytes, vec![0u8; 16]);
}

#[test]
fn encoding_has_the_documented_layout() {
    let r = RecordEnvelope::new(vec![0xaa, 0xbb], vec![pair("k", "vé")]);
    let expected: Vec<u8> = vec![
        2, 0, 0, 0, 0, 0, 0, 0, 0xaa, 0xbb, // payload
        1, 0, 0, 0, 0, 0, 0, 0, // count
        1, 0, 0, 0, 0, 0, 0, 0, b'k', // key
        3, 0, 0, 0, 0, 0, 0, 0, b'v', 0xc3, 0xa9, // value
    ];
    assert_eq!(encode(&r), expected);
}

#[test]
fn decode_undoes_encode() {
    let r = RecordEnvelope::new(
        vec![0, 1, 2, 255],
        vec![pair("a", "1"), pair("", ""), pair("ключ", "значение")],
    );
    assert_eq!(decode(&encode(&r)), Ok(r));
}

#[test]
fn repeated_keys_survive_the_round_trip() {
    let r = RecordEnvelope::new(vec![b'x'], vec![pair("k", "1"), pair("k", "2"), pair("k", "1")]);
    let back = decode(&encode(&r)).unwrap();
    assert_eq!(back.metadata, vec![pair("k", "1"), pair("k", "2"), pair("k", "1")]);
    assert_eq!(back.payload, vec![b'x']);
}

#[test]
fn binary_payload_survives_the_round_trip() {
    let payload: Vec<u8> = (0..=255u8).collect();
    let r = RecordEnvelope::new(payload.clone(), vec![]);
    assert_eq!(decode(&encode(&r)).unwrap().payload, payload);
}

#[test]
fn decoded_record_owns_its_bytes() {
    let back = {
        let bytes = encode(&RecordEnvelope::new(vec![1, 2, 3], vec![pair("a", "b")]));
        decode(&bytes).unwrap()
    };
    assert_eq!(back, RecordEnvelope::new(vec![1, 2, 3], vec![pair("a", "b")]));
}

#[test]
fn short_buffers_are_truncated() {
    assert_eq!(decode(&[]), Err(DecodeError::Truncated));
    assert_eq!(decode(&[0; 7]), Err(DecodeError::Truncated));
    assert_eq!(decode(&[0; 8]), Err(DecodeError::Truncated));
    assert_eq!(decode(&[0; 15]), Err(DecodeError::Truncated));
}

#[test]
fn payload_longer_than_the_buffer_is_truncated() {
    let mut bytes = vec![5, 0, 0, 0, 0, 0, 0, 0, 1, 2];
    assert_eq!(decode(&bytes), Err(DecodeError::Truncated));
    bytes[0] = 0xff;
    bytes[7] = 0xff;
    assert_eq!(decode(&bytes), Err(DecodeError::Truncated));
}

#[test]
fn missing_pairs_are_truncated() {
    let mut bytes = vec![0u8; 16];
    bytes[8] = 1;
    assert_eq!(decode(&bytes), Err(DecodeError::Truncated));
    let mut huge = vec![0u8; 16];
    for b in huge.iter_mut().skip(8) {
        *b = 0xff;
    }
    assert_eq!(decode(&huge), Err(DecodeError::Truncated));
}

#[test]
fn every_proper_prefix_of_an_encoding_is_refused() {
    let bytes = encode(&RecordEnvelope::new(vec![1, 2, 3], vec![pair("ab", "cd")]));
    for cut in 0..bytes.len() {
        assert_eq!(decode(&bytes[..cut]), Err(DecodeError::Truncated));
    }
}

#[test]
fn bytes_behind_the_record_are_refused() {
    let mut bytes = encode(&RecordEnvelope::new(vec![1], vec![pair("a", "b")]));
    bytes.push(0);
    assert_eq!(decode(&bytes), Err(DecodeError::TrailingBytes));
}

#[test]
fn malformed_text_is_refused() {
    let bytes: Vec<u8> = vec![
        0, 0, 0, 0, 0, 0, 0, 0, // payload
        1, 0, 0, 0, 0, 0, 0, 0, // count
        1, 0, 0, 0, 0, 0, 0, 0, 0xff, // key: not UTF-8
        0, 0, 0, 0, 0, 0, 0, 0, // value
    ];
    assert_eq!(decode(&bytes), Err(DecodeError::InvalidUtf8));
}

#[test]
fn malformed_value_is_refused() {
    let bytes: Vec<u8> = vec![
        0, 0, 0, 0, 0, 0, 0, 0, // payload
        1, 0, 0, 0, 0, 0, 0, 0, // count
        1, 0, 0, 0, 0, 0, 0, 0, b'k', // key
        2, 0, 0, 0, 0, 0, 0, 0, 0xc3, 0x28, // value: not UTF-8
    ];
    assert_eq!(decode(&bytes), Err(DecodeError::InvalidUtf8));
}

#[test]
fn the_first_fault_is_reported() {
    let bytes: Vec<u8> = vec![
        0, 0, 0, 0, 0, 0, 0, 0, // payload
        2, 0, 0, 0, 0, 0, 0, 0, // count: two pairs
        1, 0, 0, 0, 0, 0, 0, 0, 0xff, // key of the first: not UTF-8
    ];
    assert_eq!(decode(&bytes), Err(DecodeError::InvalidUtf8));
}
