//! The form in which a record crosses a boundary.
//!
//! Whoever hands a record to a separately built unit encodes it into one
//! owned byte buffer; the receiving side decodes the buffer into a record of
//! its own. Nothing is shared and nothing depends on the sender's buffers
//! after the call.
//!
//! Layout, all lengths little-endian `u64`:
//!
//! ```text
//! record := len payload  count pair*
//! pair   := text text            (key, then value)
//! text   := len utf8-bytes
//! ```
//!
//! Metadata pairs keep their order, and a key that occurs twice occurs twice
//! in the encoding. The decoder accepts exactly the buffers that the encoder
//! produces.

use vstd::bytes::{
    lemma_auto_spec_u64_to_from_le_bytes, spec_u64_from_le_bytes, spec_u64_to_le_bytes,
    u64_from_le_bytes, u64_to_le_bytes,
};
use vstd::prelude::*;
use vstd::slice::slice_subrange;
use vstd::string::StringSliceAdditionalSpecFns;
use vstd::utf8::{
    decode_utf8, decode_utf8_encode_utf8, encode_utf8, encode_utf8_decode_utf8,
    encode_utf8_valid_utf8, valid_utf8,
};
use crate::params::pairs_view;
use crate::record::{copy_bytes, RecordEnvelope, RecordView};
use crate::text::string_from_utf8;

verus! {

/// Why a buffer is not the encoding of a record.
#[derive(Clone, Copy, Debug, PartialEq, Eq, Structural)]
pub enum DecodeError {
    /// The buffer ends before the record does.
    Truncated,
    /// A key or a value is not well-formed UTF-8.
    InvalidUtf8,
    /// Bytes follow the record.
    TrailingBytes,
}

/// The eight bytes of a length.
pub open spec fn encode_len(n: nat) -> Seq<u8> {
    spec_u64_to_le_bytes(n as u64)
}

/// A byte string behind its length.
pub open spec fn encode_blob(bytes: Seq<u8>) -> Seq<u8> {
    encode_len(bytes.len()) + bytes
}

/// A text as its UTF-8 bytes behind their length.
pub open spec fn encode_text(text: Seq<char>) -> Seq<u8> {
    encode_blob(encode_utf8(text))
}

/// The pairs one after the other, each as key and value.
pub open spec fn encode_pairs(pairs: Seq<(Seq<char>, Seq<char>)>) -> Seq<u8>
    decreases pairs.len(),
{
    if pairs.len() == 0 {
        Seq::empty()
    } else {
        encode_text(pairs[0].0) + encode_text(pairs[0].1) + encode_pairs(pairs.drop_first())
    }
}

/// The encoding of a record.
pub open spec fn encode_record(record: RecordView) -> Seq<u8> {
    encode_blob(record.payload) + encode_len(record.metadata.len()) + encode_pairs(record.metadata)
}

/// Whether every length in `record` fits the eight bytes of a length.
pub open spec fn encodable(record: RecordView) -> bool {
    &&& record.payload.len() <= u64::MAX
    &&& record.metadata.len() <= u64::MAX
    &&& forall|i: int|
        0 <= i < record.metadata.len() ==> encode_utf8((#[trigger] record.metadata[i]).0).len() <= u64::MAX
            && encode_utf8(record.metadata[i].1).len() <= u64::MAX
}

/// Reads a length off the front of `input`: the length and what follows it.
pub open spec fn take_len(input: Seq<u8>) -> Option<(nat, Seq<u8>)> {
    if input.len() >= 8 {
        Some((spec_u64_from_le_bytes(input.take(8)) as nat, input.skip(8)))
    } else {
        None
    }
}

/// Reads a byte string off the front of `input`.
pub open spec fn take_blob(input: Seq<u8>) -> Option<(Seq<u8>, Seq<u8>)> {
    match take_len(input) {
        Some((n, rest)) => if n <= rest.len() {
            Some((rest.take(n as int), rest.skip(n as int)))
        } else {
            None
        },
        None => None,
    }
}

/// Reads a text off the front of `input`.
pub open spec fn take_text(input: Seq<u8>) -> Result<(Seq<char>, Seq<u8>), DecodeError> {
    match take_blob(input) {
        None => Err(DecodeError::Truncated),
        Some((blob, rest)) => if valid_utf8(blob) {
            Ok((decode_utf8(blob), rest))
        } else {
            Err(DecodeError::InvalidUtf8)
        },
    }
}

/// Reads `count` pairs off the front of `input`.
pub open spec fn take_pairs(input: Seq<u8>, count: nat) -> Result<
    (Seq<(Seq<char>, Seq<char>)>, Seq<u8>),
    DecodeError,
>
    decreases count,
{
    if count == 0 {
        Ok((Seq::empty(), input))
    } else {
        match take_text(input) {
            Err(e) => Err(e),
            Ok((key, after_key)) => match take_text(after_key) {
                Err(e) => Err(e),
                Ok((value, after_value)) => match take_pairs(after_value, (count - 1) as nat) {
                    Err(e) => Err(e),
                    Ok((more, rest)) => Ok((seq![(key, value)] + more, rest)),
                },
            },
        }
    }
}

/// The record that `input` encodes, or why it encodes none.
pub open spec fn spec_decode(input: Seq<u8>) -> Result<RecordView, DecodeError> {
    match take_blob(input) {
        None => Err(DecodeError::Truncated),
        Some((payload, after_payload)) => match take_len(after_payload) {
            None => Err(DecodeError::Truncated),
            Some((count, after_count)) => match take_pairs(after_count, count) {
                Err(e) => Err(e),
                Ok((metadata, rest)) => if rest.len() == 0 {
                    Ok(RecordView { payload, metadata })
                } else {
                    Err(DecodeError::TrailingBytes)
                },
            },
        },
    }
}

/// A length is read back from its eight bytes.
pub proof fn lemma_take_len(n: nat, rest: Seq<u8>)
    requires
        n <= u64::MAX,
    ensures
        encode_len(n).len() == 8,
        take_len(encode_len(n) + rest) == Some((n, rest)),
{
    lemma_auto_spec_u64_to_from_le_bytes();
    let input = encode_len(n) + rest;
    assert(input.take(8) =~= encode_len(n));
    assert(input.skip(8) =~= rest);
}

/// A byte string is read back from its encoding.
pub proof fn lemma_take_blob(bytes: Seq<u8>, rest: Seq<u8>)
    requires
        bytes.len() <= u64::MAX,
    ensures
        take_blob(encode_blob(bytes) + rest) == Some((bytes, rest)),
{
    lemma_take_len(bytes.len(), bytes + rest);
    assert(encode_blob(bytes) + rest =~= encode_len(bytes.len()) + (bytes + rest));
    assert((bytes + rest).take(bytes.len() as int) =~= bytes);
    assert((bytes + rest).skip(bytes.len() as int) =~= rest);
}

/// A text is read back from its encoding.
pub proof fn lemma_take_text(text: Seq<char>, rest: Seq<u8>)
    requires
        encode_utf8(text).len() <= u64::MAX,
    ensures
        take_text(encode_text(text) + rest) == Ok::<(Seq<char>, Seq<u8>), DecodeError>((text, rest)),
{
    lemma_take_blob(encode_utf8(text), rest);
    encode_utf8_valid_utf8(text);
    encode_utf8_decode_utf8(text);
}

/// Pairs are read back from their encoding.
pub proof fn lemma_take_pairs(pairs: Seq<(Seq<char>, Seq<char>)>, rest: Seq<u8>)
    requires
        forall|i: int|
            0 <= i < pairs.len() ==> encode_utf8((#[trigger] pairs[i]).0).len() <= u64::MAX && encode_utf8(
                pairs[i].1,
            ).len() <= u64::MAX,
    ensures
        take_pairs(encode_pairs(pairs) + rest, pairs.len()) == Ok::<
            (Seq<(Seq<char>, Seq<char>)>, Seq<u8>),
            DecodeError,
        >((pairs, rest)),
    decreases pairs.len(),
{
    if pairs.len() == 0 {
        assert(encode_pairs(pairs) + rest =~= rest);
        assert(pairs =~= Seq::empty());
    } else {
        let key = pairs[0].0;
        let value = pairs[0].1;
        let more = pairs.drop_first();
        let tail = encode_pairs(more) + rest;
        assert(encode_pairs(pairs) + rest =~= encode_text(key) + (encode_text(value) + tail));
        lemma_take_text(key, encode_text(value) + tail);
        lemma_take_text(value, tail);
        assert forall|i: int| 0 <= i < more.len() implies encode_utf8((#[trigger] more[i]).0).len()
            <= u64::MAX && encode_utf8(more[i].1).len() <= u64::MAX by {
            assert(more[i] == pairs[i + 1]);
        }
        lemma_take_pairs(more, rest);
        assert(seq![(key, value)] + more =~= pairs);
    }
}

/// Decoding undoes encoding: a record whose lengths fit is decoded from its
/// encoding as itself, with the same payload bytes and the same metadata
/// pairs in the same order, repeated keys included.
pub proof fn law_round_trip(record: RecordView)
    requires
        encodable(record),
    ensures
        spec_decode(encode_record(record)) == Ok::<RecordView, DecodeError>(record),
{
    let pairs = encode_pairs(record.metadata);
    let tail = encode_len(record.metadata.len()) + pairs;
    assert(encode_record(record) =~= encode_blob(record.payload) + tail);
    lemma_take_blob(record.payload, tail);
    lemma_take_len(record.metadata.len(), pairs);
    lemma_take_pairs(record.metadata, Seq::empty());
    assert(pairs + Seq::<u8>::empty() =~= pairs);
}

/// What a length was read from is the encoding of that length.
pub proof fn lemma_len_taken(input: Seq<u8>)
    requires
        take_len(input) is Some,
    ensures
        input == encode_len(take_len(input).unwrap().0) + take_len(input).unwrap().1,
        take_len(input).unwrap().0 <= u64::MAX,
{
    lemma_auto_spec_u64_to_from_le_bytes();
    let n = spec_u64_from_le_bytes(input.take(8));
    assert(spec_u64_to_le_bytes(spec_u64_from_le_bytes(input.take(8))) == input.take(8));
    assert(input =~= input.take(8) + input.skip(8));
}

/// What a byte string was read from is the encoding of that byte string.
pub proof fn lemma_blob_taken(input: Seq<u8>)
    requires
        take_blob(input) is Some,
    ensures
        input == encode_blob(take_blob(input).unwrap().0) + take_blob(input).unwrap().1,
        take_blob(input).unwrap().0.len() <= u64::MAX,
{
    lemma_len_taken(input);
    let (n, rest) = take_len(input).unwrap();
    assert(rest =~= rest.take(n as int) + rest.skip(n as int));
    assert(input =~= encode_blob(rest.take(n as int)) + rest.skip(n as int));
}

/// What a text was read from is the encoding of that text.
pub proof fn lemma_text_taken(input: Seq<u8>)
    requires
        take_text(input) is Ok,
    ensures
        input == encode_text(take_text(input).unwrap().0) + take_text(input).unwrap().1,
        encode_utf8(take_text(input).unwrap().0).len() <= u64::MAX,
{
    lemma_blob_taken(input);
    decode_utf8_encode_utf8(take_blob(input).unwrap().0);
}

/// What pairs were read from is the encoding of those pairs.
pub proof fn lemma_pairs_taken(input: Seq<u8>, count: nat)
    requires
        take_pairs(input, count) is Ok,
    ensures
        input == encode_pairs(take_pairs(input, count).unwrap().0) + take_pairs(input, count).unwrap().1,
        take_pairs(input, count).unwrap().0.len() == count,
    decreases count,
{
    if count == 0 {
        assert(encode_pairs(Seq::empty()) + input =~= input);
    } else {
        let (key, after_key) = take_text(input).unwrap();
        let (value, after_value) = take_text(after_key).unwrap();
        let (more, rest) = take_pairs(after_value, (count - 1) as nat).unwrap();
        lemma_text_taken(input);
        lemma_text_taken(after_key);
        lemma_pairs_taken(after_value, (count - 1) as nat);
        let pairs = seq![(key, value)] + more;
        assert(pairs[0] == (key, value));
        assert(pairs.drop_first() =~= more);
        assert(input =~= encode_pairs(pairs) + rest);
    }
}

/// Every record has one encoding: a buffer that decodes to a record is the
/// encoding of that record, byte for byte.
pub proof fn law_decoded_is_encoded(input: Seq<u8>)
    requires
        spec_decode(input) is Ok,
    ensures
        encode_record(spec_decode(input).unwrap()) == input,
{
    let (payload, after_payload) = take_blob(input).unwrap();
    let (count, after_count) = take_len(after_payload).unwrap();
    let (metadata, rest) = take_pairs(after_count, count).unwrap();
    lemma_blob_taken(input);
    lemma_len_taken(after_payload);
    lemma_pairs_taken(after_count, count);
    assert(encode_pairs(metadata) + rest =~= encode_pairs(metadata));
    assert(input =~= encode_record(RecordView { payload, metadata }));
}

/// The encoding of pairs with one more pair is the encoding of the pairs
/// followed by the encoding of that pair.
pub proof fn lemma_encode_pairs_push(pairs: Seq<(Seq<char>, Seq<char>)>, key: Seq<char>, value: Seq<char>)
    ensures
        encode_pairs(pairs.push((key, value))) == encode_pairs(pairs) + encode_text(key) + encode_text(
            value,
        ),
    decreases pairs.len(),
{
    let after = pairs.push((key, value));
    if pairs.len() == 0 {
        assert(after[0] == (key, value));
        assert(after.drop_first() =~= Seq::empty());
        assert(encode_pairs(after.drop_first()) =~= Seq::empty());
        assert(encode_pairs(after) =~= encode_pairs(pairs) + encode_text(key) + encode_text(value));
    } else {
        assert(after[0] == pairs[0]);
        assert(after.drop_first() =~= pairs.drop_first().push((key, value)));
        lemma_encode_pairs_push(pairs.drop_first(), key, value);
        let head = encode_text(pairs[0].0) + encode_text(pairs[0].1);
        let middle = encode_pairs(pairs.drop_first());
        assert(encode_pairs(after) == head + (middle + encode_text(key) + encode_text(value)));
        assert(encode_pairs(pairs) == head + middle);
        assert(head + (middle + encode_text(key) + encode_text(value)) =~= (head + middle) + encode_text(
            key,
        ) + encode_text(value));
    }
}

fn append(out: &mut Vec<u8>, bytes: &[u8])
    ensures
        final(out)@ == old(out)@ + bytes@,
{
    let mut i: usize = 0;
    while i < bytes.len()
        invariant
            i <= bytes.len(),
            out@ == old(out)@ + bytes@.take(i as int),
        decreases bytes.len() - i,
    {
        out.push(bytes[i]);
        assert(out@ =~= old(out)@ + bytes@.take(i as int + 1));
        i += 1;
    }
    assert(bytes@.take(i as int) =~= bytes@);
}

fn append_blob(out: &mut Vec<u8>, bytes: &[u8])
    ensures
        final(out)@ == old(out)@ + encode_blob(bytes@),
{
    let len = u64_to_le_bytes(bytes.len() as u64);
    append(out, len.as_slice());
    append(out, bytes);
    assert(out@ =~= old(out)@ + encode_blob(bytes@));
}

/// Encodes `record` into a buffer of its own.
pub fn encode(record: &RecordEnvelope) -> (bytes: Vec<u8>)
    ensures
        bytes@ == encode_record(record@),
        encodable(record@),
        spec_decode(bytes@) == Ok::<RecordView, DecodeError>(record@),
{
    let mut out: Vec<u8> = Vec::new();
    append_blob(&mut out, record.payload.as_slice());
    let count = u64_to_le_bytes(record.metadata.len() as u64);
    append(&mut out, count.as_slice());
    let ghost head = out@;
    let mut i: usize = 0;
    assert(pairs_view(record.metadata@).take(0) =~= Seq::empty());
    assert(out@ =~= head + encode_pairs(pairs_view(record.metadata@).take(0)));
    while i < record.metadata.len()
        invariant
            i <= record.metadata.len(),
            out@ == head + encode_pairs(pairs_view(record.metadata@).take(i as int)),
            forall|k: int|
                0 <= k < i ==> encode_utf8((#[trigger] record@.metadata[k]).0).len() <= u64::MAX
                    && encode_utf8(record@.metadata[k].1).len() <= u64::MAX,
        decreases record.metadata.len() - i,
    {
        let ghost done = pairs_view(record.metadata@).take(i as int);
        let ghost key = record.metadata@[i as int].0@;
        let ghost value = record.metadata@[i as int].1@;
        let key_bytes = record.metadata[i].0.as_str().as_bytes();
        let value_bytes = record.metadata[i].1.as_str().as_bytes();
        append_blob(&mut out, key_bytes);
        append_blob(&mut out, value_bytes);
        let key_len = key_bytes.len();
        let value_len = value_bytes.len();
        proof {
            assert(record@.metadata[i as int] == (key, value));
            assert(encode_utf8(key).len() == key_bytes@.len());
            assert(encode_utf8(value).len() == value_bytes@.len());
            lemma_encode_pairs_push(done, key, value);
            assert(pairs_view(record.metadata@).take(i as int + 1) =~= done.push((key, value)));
            assert(out@ =~= head + encode_pairs(done.push((key, value))));
        }
        i += 1;
    }
    proof {
        assert(pairs_view(record.metadata@).take(i as int) =~= record@.metadata);
        assert(out@ =~= encode_record(record@));
        assert(record@.payload.len() == record.payload.len());
        assert(record@.metadata.len() == record.metadata.len());
        assert(encodable(record@));
        law_round_trip(record@);
    }
    out
}

fn read_len(bytes: &[u8], at: usize) -> (found: Option<(u64, usize)>)
    requires
        at <= bytes.len(),
    ensures
        found is Some <==> take_len(bytes@.skip(at as int)) is Some,
        found matches Some((n, next)) ==> at <= next <= bytes.len() && take_len(bytes@.skip(at as int))
            == Some((n as nat, bytes@.skip(next as int))),
{
    if bytes.len() - at < 8 {
        return None;
    }
    let n = u64_from_le_bytes(slice_subrange(bytes, at, at + 8));
    proof {
        assert(bytes@.skip(at as int).take(8) =~= bytes@.subrange(at as int, at + 8));
        assert(bytes@.skip(at as int).skip(8) =~= bytes@.skip(at + 8));
    }
    Some((n, at + 8))
}

fn read_blob(bytes: &[u8], at: usize) -> (found: Option<(Vec<u8>, usize)>)
    requires
        at <= bytes.len(),
    ensures
        found is Some <==> take_blob(bytes@.skip(at as int)) is Some,
        found matches Some((blob, next)) ==> at <= next <= bytes.len() && take_blob(
            bytes@.skip(at as int),
        ) == Some((blob@, bytes@.skip(next as int))),
{
    match read_len(bytes, at) {
        None => None,
        Some((n, start)) => {
            if n > (bytes.len() - start) as u64 {
                return None;
            }
            let end = start + n as usize;
            let blob = copy_bytes(slice_subrange(bytes, start, end));
            proof {
                assert(bytes@.skip(start as int).take(n as int) =~= bytes@.subrange(
                    start as int,
                    end as int,
                ));
                assert(bytes@.skip(start as int).skip(n as int) =~= bytes@.skip(end as int));
            }
            Some((blob, end))
        },
    }
}

fn read_text(bytes: &[u8], at: usize) -> (found: Result<(String, usize), DecodeError>)
    requires
        at <= bytes.len(),
    ensures
        match found {
            Ok((text, next)) => at <= next <= bytes.len() && take_text(bytes@.skip(at as int)) == Ok::<
                (Seq<char>, Seq<u8>),
                DecodeError,
            >((text@, bytes@.skip(next as int))),
            Err(e) => take_text(bytes@.skip(at as int)) == Err::<(Seq<char>, Seq<u8>), DecodeError>(e),
        },
{
    match read_blob(bytes, at) {
        None => Err(DecodeError::Truncated),
        Some((blob, next)) => match string_from_utf8(blob) {
            Some(text) => Ok((text, next)),
            None => Err(DecodeError::InvalidUtf8),
        },
    }
}

/// What is left to read of `count` pairs once `done` have been read, put
/// behind the pairs read so far.
pub open spec fn continue_pairs(
    done: Seq<(Seq<char>, Seq<char>)>,
    rest: Result<(Seq<(Seq<char>, Seq<char>)>, Seq<u8>), DecodeError>,
) -> Result<(Seq<(Seq<char>, Seq<char>)>, Seq<u8>), DecodeError> {
    match rest {
        Ok((more, tail)) => Ok((done + more, tail)),
        Err(e) => Err(e),
    }
}

fn decode_front(bytes: &[u8]) -> (outcome: Result<RecordEnvelope, DecodeError>)
    ensures
        match outcome {
            Ok(record) => spec_decode(bytes@) == Ok::<RecordView, DecodeError>(record@),
            Err(e) => spec_decode(bytes@) == Err::<RecordView, DecodeError>(e),
        },
{
    assert(bytes@.skip(0) =~= bytes@);
    let (payload, after_payload) = match read_blob(bytes, 0) {
        Some(found) => found,
        None => {
            return Err(DecodeError::Truncated);
        },
    };
    let (count, start) = match read_len(bytes, after_payload) {
        Some(found) => found,
        None => {
            return Err(DecodeError::Truncated);
        },
    };
    let mut metadata: Vec<(String, String)> = Vec::new();
    let mut at: usize = start;
    let mut i: u64 = 0;
    assert(pairs_view(metadata@) =~= Seq::empty());
    assert(continue_pairs(pairs_view(metadata@), take_pairs(bytes@.skip(at as int), count as nat))
        =~= take_pairs(bytes@.skip(start as int), count as nat)) by {
        let rest = take_pairs(bytes@.skip(at as int), count as nat);
        if rest is Ok {
            assert(Seq::<(Seq<char>, Seq<char>)>::empty() + rest.unwrap().0 =~= rest.unwrap().0);
        }
    }
    while i < count
        invariant
            i <= count,
            start <= at <= bytes.len(),
            take_blob(bytes@) == Some((payload@, bytes@.skip(after_payload as int))),
            take_len(bytes@.skip(after_payload as int)) == Some(
                (count as nat, bytes@.skip(start as int)),
            ),
            continue_pairs(
                pairs_view(metadata@),
                take_pairs(bytes@.skip(at as int), (count - i) as nat),
            ) == take_pairs(bytes@.skip(start as int), count as nat),
        decreases count - i,
    {
        let ghost done = pairs_view(metadata@);
        let (key, after_key) = match read_text(bytes, at) {
            Ok(found) => found,
            Err(e) => {
                return Err(e);
            },
        };
        let (value, after_value) = match read_text(bytes, after_key) {
            Ok(found) => found,
            Err(e) => {
                return Err(e);
            },
        };
        proof {
            let rest = take_pairs(bytes@.skip(after_value as int), (count - i - 1) as nat);
            if rest is Ok {
                assert(done + (seq![(key@, value@)] + rest.unwrap().0) =~= done.push((key@, value@))
                    + rest.unwrap().0);
            }
        }
        metadata.push((key, value));
        assert(pairs_view(metadata@) =~= done.push((key@, value@)));
        at = after_value;
        i += 1;
    }
    proof {
        assert(pairs_view(metadata@) + Seq::<(Seq<char>, Seq<char>)>::empty() =~= pairs_view(metadata@));
    }
    if at != bytes.len() {
        return Err(DecodeError::TrailingBytes);
    }
    Ok(RecordEnvelope { payload, metadata })
}

/// Decodes the record that `bytes` encodes.
///
/// The outcome is that of [`spec_decode`]: the record, for a buffer that is
/// the encoding of one, and otherwise the first fault met when reading from
/// the front.
pub fn decode(bytes: &[u8]) -> (outcome: Result<RecordEnvelope, DecodeError>)
    ensures
        match outcome {
            Ok(record) => spec_decode(bytes@) == Ok::<RecordView, DecodeError>(record@),
            Err(e) => spec_decode(bytes@) == Err::<RecordView, DecodeError>(e),
        },
        outcome is Ok <==> exists|record: RecordView| encodable(record) && bytes@ == encode_record(record),
        outcome matches Ok(record) ==> encode_record(record@) == bytes@,
{
    proof {
        if spec_decode(bytes@) is Ok {
            law_decoded_is_encoded(bytes@);
            lemma_decoded_is_encodable(bytes@);
        }
        assert forall|record: RecordView| encodable(record) && bytes@ == encode_record(
            record,
        ) implies spec_decode(bytes@) is Ok by {
            law_round_trip(record);
        }
    }
    decode_front(bytes)
}

/// Every length in a decoded record fits the eight bytes of a length.
pub proof fn lemma_decoded_is_encodable(input: Seq<u8>)
    requires
        spec_decode(input) is Ok,
    ensures
        encodable(spec_decode(input).unwrap()),
{
    let (payload, after_payload) = take_blob(input).unwrap();
    let (count, after_count) = take_len(after_payload).unwrap();
    lemma_blob_taken(input);
    lemma_len_taken(after_payload);
    lemma_pairs_taken(after_count, count);
    lemma_pairs_fit(after_count, count);
}

/// The lengths of keys and values that were read fit the eight bytes of a
/// length.
pub proof fn lemma_pairs_fit(input: Seq<u8>, count: nat)
    requires
        take_pairs(input, count) is Ok,
    ensures
        forall|i: int|
            0 <= i < take_pairs(input, count).unwrap().0.len() ==> encode_utf8(
                (#[trigger] take_pairs(input, count).unwrap().0[i]).0,
            ).len() <= u64::MAX && encode_utf8(take_pairs(input, count).unwrap().0[i].1).len()
                <= u64::MAX,
    decreases count,
{
    if count > 0 {
        let (key, after_key) = take_text(input).unwrap();
        let (value, after_value) = take_text(after_key).unwrap();
        let (more, rest) = take_pairs(after_value, (count - 1) as nat).unwrap();
        lemma_text_taken(input);
        lemma_text_taken(after_key);
        lemma_pairs_fit(after_value, (count - 1) as nat);
        let pairs = seq![(key, value)] + more;
        assert forall|i: int| 0 <= i < pairs.len() implies encode_utf8((#[trigger] pairs[i]).0).len()
            <= u64::MAX && encode_utf8(pairs[i].1).len() <= u64::MAX by {
            if i > 0 {
                assert(pairs[i] == more[i - 1]);
            }
        }
    }
}

} // verus!
