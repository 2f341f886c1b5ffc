//! The record exchanged between stages.
//!
//! A [`RecordEnvelope`] owns its payload bytes and its metadata pairs. A
//! stage never shares buffers with another: whatever crosses a stage boundary
//! is copied, and the copy has the same view as the record it was made from.

use vstd::prelude::*;
use vstd::string::StringSliceAdditionalSpecFns;
use vstd::utf8::{decode_utf8, valid_utf8};
use crate::params::{copy_pairs, map_of, pairs_view, ParamMap};
use crate::text;

verus! {

/// Mathematical content of a record: its payload bytes and its metadata pairs
/// in order. A key may occur more than once.
pub struct RecordView {
    pub payload: Seq<u8>,
    pub metadata: Seq<(Seq<char>, Seq<char>)>,
}

/// An opaque byte payload with an ordered list of key/value metadata pairs.
#[derive(Debug, PartialEq, Eq)]
pub struct RecordEnvelope {
    pub payload: Vec<u8>,
    pub metadata: Vec<(String, String)>,
}

impl View for RecordEnvelope {
    type V = RecordView;

    open spec fn view(&self) -> RecordView {
        RecordView { payload: self.payload@, metadata: pairs_view(self.metadata@) }
    }
}

/// Mathematical content of a list of records.
pub open spec fn records_view(records: Seq<RecordEnvelope>) -> Seq<RecordView> {
    records.map_values(|r: RecordEnvelope| r@)
}

/// An owned copy of `bytes`.
pub fn copy_bytes(bytes: &[u8]) -> (out: Vec<u8>)
    ensures
        out@ == bytes@,
{
    let mut out: Vec<u8> = Vec::new();
    let mut i: usize = 0;
    while i < bytes.len()
        invariant
            i <= bytes.len(),
            out@ == bytes@.take(i as int),
        decreases bytes.len() - i,
    {
        out.push(bytes[i]);
        i += 1;
    }
    out
}

impl RecordEnvelope {
    /// A record with the given payload and metadata.
    pub fn new(payload: Vec<u8>, metadata: Vec<(String, String)>) -> (record: RecordEnvelope)
        ensures
            record@ == (RecordView { payload: payload@, metadata: pairs_view(metadata@) }),
    {
        RecordEnvelope { payload, metadata }
    }

    /// A record whose payload is the UTF-8 encoding of `content`, without
    /// metadata.
    pub fn from_text(content: &str) -> (record: RecordEnvelope)
        ensures
            record@.payload == content.spec_bytes(),
            record@.metadata.len() == 0,
    {
        let payload = copy_bytes(content.as_bytes());
        RecordEnvelope { payload, metadata: Vec::new() }
    }

    /// A record with the given payload whose metadata are the entries of
    /// `metadata`, in entry order.
    pub fn from_std_types(content: Vec<u8>, metadata: &ParamMap) -> (record: RecordEnvelope)
        ensures
            record@.payload == content@,
            record@.metadata == metadata.entries(),
            map_of(record@.metadata) == metadata@,
    {
        let pairs = copy_pairs(metadata.pairs());
        RecordEnvelope { payload: content, metadata: pairs }
    }

    /// The metadata as a map. Where a key occurs more than once, the last
    /// pair with that key gives its value.
    pub fn get_metadata_as_hashmap(&self) -> (map: ParamMap)
        ensures
            map@ == map_of(self@.metadata),
    {
        ParamMap::from_pairs(&self.metadata)
    }

    /// Length of the payload in bytes.
    pub fn get_content_len(&self) -> (len: usize)
        ensures
            len == self@.payload.len(),
    {
        self.payload.len()
    }

    /// The payload as text. A payload that is well-formed UTF-8 reads as the
    /// characters it encodes; malformed stretches are replaced, never
    /// rejected.
    pub fn content_text(&self) -> (content: String)
        ensures
            content@ == text::lossy_text(self@.payload),
            valid_utf8(self@.payload) ==> content@ == decode_utf8(self@.payload),
    {
        text::string_from_utf8_lossy(self.payload.as_slice())
    }

    /// A copy that shares no buffer with `self`.
    pub fn deep_copy(&self) -> (copy: RecordEnvelope)
        ensures
            copy@ == self@,
    {
        RecordEnvelope {
            payload: copy_bytes(self.payload.as_slice()),
            metadata: copy_pairs(&self.metadata),
        }
    }
}

impl Clone for RecordEnvelope {
    fn clone(&self) -> (copy: RecordEnvelope)
        ensures
            copy@ == self@,
    {
        self.deep_copy()
    }
}

} // verus!
