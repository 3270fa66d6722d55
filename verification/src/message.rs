//! What crosses the boundary to the engine: the request that a send hands over,
//! and the record that the engine hands back when a message is done.

use vstd::prelude::*;
use vstd::slice::slice_to_vec;
use vstd::string::StringSliceAdditionalSpecFns;
use vstd::utf8::{encode_scalar, encode_utf8, has_width_1_encoding, leading_byte_width_1};
use crate::error::KafkaError;
use crate::report::DeliveryReport;

verus! {

/// The partition number that leaves the choice of a partition to the engine.
pub const PARTITION_UA: i32 = -1;

/// The message flag that makes the engine copy payload and key, so that the
/// caller's buffers are free again when the send returns.
pub const MSG_F_COPY: i32 = 2;

/// The timestamp that leaves the stamping of a message to the engine.
pub const TIMESTAMP_NOW: i64 = 0;

/// `pos` is the place of the first zero byte in `bytes`.
pub open spec fn is_first_nul(bytes: Seq<u8>, pos: int) -> bool {
    &&& 0 <= pos < bytes.len()
    &&& bytes[pos] == 0u8
    &&& forall|j: int| 0 <= j < pos ==> bytes[j] != 0u8
}

/// No byte of `bytes` is zero.
pub open spec fn nul_free(bytes: Seq<u8>) -> bool {
    forall|j: int| 0 <= j < bytes.len() ==> bytes[j] != 0u8
}

/// A value that can be sent as the payload or the key of a message.
pub trait ToBytes {
    /// The bytes that are sent for the value.
    spec fn spec_to_bytes(&self) -> Seq<u8>;

    /// Returns the bytes to send for the value.
    fn to_bytes(&self) -> (bytes: &[u8])
        ensures
            bytes@ == self.spec_to_bytes(),
    ;
}

impl ToBytes for [u8] {
    open spec fn spec_to_bytes(&self) -> Seq<u8> {
        self@
    }

    fn to_bytes(&self) -> (bytes: &[u8]) {
        self
    }
}

impl ToBytes for str {
    open spec fn spec_to_bytes(&self) -> Seq<u8> {
        self.spec_bytes()
    }

    fn to_bytes(&self) -> (bytes: &[u8]) {
        self.as_bytes()
    }
}

impl ToBytes for Vec<u8> {
    open spec fn spec_to_bytes(&self) -> Seq<u8> {
        self@
    }

    fn to_bytes(&self) -> (bytes: &[u8]) {
        self.as_slice()
    }
}

impl ToBytes for String {
    open spec fn spec_to_bytes(&self) -> Seq<u8> {
        encode_utf8(self@)
    }

    fn to_bytes(&self) -> (bytes: &[u8]) {
        self.as_str().as_bytes()
    }
}

/// The bytes of an optional payload or key.
pub open spec fn bytes_of<B: ToBytes + ?Sized>(buffer: Option<&B>) -> Option<Seq<u8>> {
    match buffer {
        Some(value) => Some(value.spec_to_bytes()),
        None => None,
    }
}

/// The bytes of an optional owned buffer.
pub open spec fn owned_bytes_of(buffer: Option<Vec<u8>>) -> Option<Seq<u8>> {
    match buffer {
        Some(bytes) => Some(bytes@),
        None => None,
    }
}

/// A send as the engine is to see it.
#[derive(Debug, Clone, PartialEq, Eq)]
pub struct ProduceRequest {
    /// The topic name as a nul-terminated byte string.
    pub topic: Vec<u8>,
    /// The partition to send to, `PARTITION_UA` where the engine is to choose.
    pub partition: i32,
    /// The message flags; always `MSG_F_COPY`.
    pub msgflags: i32,
    /// A copy of the payload; `None` stands for a message without one.
    pub payload: Option<Vec<u8>>,
    /// A copy of the key; `None` stands for a message without one.
    pub key: Option<Vec<u8>>,
    /// The handle under which the producer keeps the message's delivery
    /// context. The engine gives it back, unaltered, in the completion.
    pub opaque: usize,
    /// The timestamp of the message, `TIMESTAMP_NOW` where the engine is to
    /// stamp it.
    pub timestamp: i64,
}

/// The mathematical content of a `ProduceRequest`.
pub struct ProduceRequestView {
    pub topic: Seq<u8>,
    pub partition: i32,
    pub msgflags: i32,
    pub payload: Option<Seq<u8>>,
    pub key: Option<Seq<u8>>,
    pub opaque: usize,
    pub timestamp: i64,
}

impl View for ProduceRequest {
    type V = ProduceRequestView;

    open spec fn view(&self) -> ProduceRequestView {
        ProduceRequestView {
            topic: self.topic@,
            partition: self.partition,
            msgflags: self.msgflags,
            payload: owned_bytes_of(self.payload),
            key: owned_bytes_of(self.key),
            opaque: self.opaque,
            timestamp: self.timestamp,
        }
    }
}

/// The request that a send of the given message becomes, for a topic name
/// whose bytes hold no zero: the name with its terminator, the partition or
/// `PARTITION_UA`, the copy flag, payload and key as they are, the handle, and
/// the timestamp or `TIMESTAMP_NOW`.
pub open spec fn request_for(
    topic: Seq<u8>,
    partition: Option<i32>,
    payload: Option<Seq<u8>>,
    key: Option<Seq<u8>>,
    opaque: usize,
    timestamp: Option<i64>,
) -> ProduceRequestView {
    ProduceRequestView {
        topic: topic.push(0u8),
        partition: match partition {
            Some(p) => p,
            None => PARTITION_UA,
        },
        msgflags: MSG_F_COPY,
        payload,
        key,
        opaque,
        timestamp: match timestamp {
            Some(t) => t,
            None => TIMESTAMP_NOW,
        },
    }
}

/// What the engine may look at when it picks a partition for a request: the
/// topic, the partition asked for, and the key.
pub open spec fn routing_input(request: ProduceRequestView) -> (Seq<u8>, i32, Option<Seq<u8>>) {
    (request.topic, request.partition, request.key)
}

/// What the engine hands back when the fate of a message is known.
#[derive(Debug, Clone, Copy, PartialEq, Eq, Structural)]
pub struct Completion {
    /// The engine's response code: zero for a delivered message.
    pub err: i32,
    /// The partition the message went to.
    pub partition: i32,
    /// The offset the message was given.
    pub offset: i64,
    /// The handle that the request for the message carried.
    pub opaque: usize,
}

impl Completion {
    /// The report that the completion gives rise to.
    pub open spec fn spec_report(&self) -> DeliveryReport {
        DeliveryReport::spec_new(self.err, self.partition, self.offset)
    }

    /// Makes the delivery report of the completion, from its response code,
    /// partition and offset.
    pub fn report(&self) -> (report: DeliveryReport)
        ensures
            report == self.spec_report(),
            report.spec_error() == self.err,
            report.spec_partition() == self.partition,
            report.spec_offset() == self.offset,
    {
        DeliveryReport::new(self.err, self.partition, self.offset)
    }
}

/// Writes a topic name as a nul-terminated byte string.
///
/// Succeeds exactly when the UTF-8 form of the name holds no zero byte, and
/// then returns that form with one zero byte behind it. Otherwise the error
/// names the place of the first zero byte.
pub fn c_string(topic_name: &str) -> (res: Result<Vec<u8>, KafkaError>)
    ensures
        (match res {
            Ok(bytes) => nul_free(topic_name.spec_bytes()) && bytes@ == topic_name.spec_bytes().push(
                0u8,
            ),
            Err(e) => exists|pos: usize|
                e == KafkaError::Nul(pos) && is_first_nul(topic_name.spec_bytes(), pos as int),
        }),
{
    let bytes = topic_name.as_bytes();
    let mut out: Vec<u8> = Vec::new();
    let mut i: usize = 0;
    while i < bytes.len()
        invariant
            i <= bytes.len(),
            bytes@ == topic_name.spec_bytes(),
            out@ == bytes@.subrange(0, i as int),
            forall|j: int| 0 <= j < i ==> bytes@[j] != 0u8,
        decreases bytes.len() - i,
    {
        let b: u8 = bytes[i];
        if b == 0 {
            assert(is_first_nul(topic_name.spec_bytes(), i as int));
            return Err(KafkaError::Nul(i));
        }
        out.push(b);
        assert(out@ == bytes@.subrange(0, i + 1));
        i += 1;
    }
    assert(bytes@.subrange(0, i as int) == bytes@);
    out.push(0);
    Ok(out)
}

/// Copies the bytes of an optional payload or key, so that the copy outlives
/// the caller's value.
pub fn copy_bytes<B: ToBytes + ?Sized>(buffer: Option<&B>) -> (copy: Option<Vec<u8>>)
    ensures
        owned_bytes_of(copy) == bytes_of(buffer),
{
    match buffer {
        Some(value) => Some(slice_to_vec(value.to_bytes())),
        None => None,
    }
}

/// Two sends to one topic with one key, neither of which names a partition,
/// put the same before the engine for its choice of a partition, whatever
/// their payloads, handles and timestamps are: the topic, no partition, and
/// the key.
pub proof fn lemma_same_key_same_routing_input(
    topic: Seq<u8>,
    key: Option<Seq<u8>>,
    payload: Option<Seq<u8>>,
    opaque: usize,
    timestamp: Option<i64>,
    other_payload: Option<Seq<u8>>,
    other_opaque: usize,
    other_timestamp: Option<i64>,
)
    ensures
        routing_input(request_for(topic, None, payload, key, opaque, timestamp)) == routing_input(
            request_for(topic, None, other_payload, key, other_opaque, other_timestamp),
        ),
        routing_input(request_for(topic, None, payload, key, opaque, timestamp)) == (
            topic.push(0u8),
            PARTITION_UA,
            key,
        ),
{
}

/// The UTF-8 form of one character holds a zero byte exactly when the
/// character is NUL.
proof fn lemma_scalar_nul_free(c: char)
    ensures
        nul_free(encode_scalar(c as u32)) <==> c != '\0',
{
    let v = c as u32;
    let bytes = encode_scalar(v);
    assert(has_width_1_encoding(v) ==> (((v & 0x7F) as u8 == 0u8) <==> v == 0)) by (bit_vector);
    assert(0xC0u8 | ((v >> 6) & 0x1F) as u8 != 0u8) by (bit_vector);
    assert(0xE0u8 | ((v >> 12) & 0x0F) as u8 != 0u8) by (bit_vector);
    assert(0xF0u8 | ((v >> 18) & 0x7) as u8 != 0u8) by (bit_vector);
    assert(0x80u8 | (v & 0x3F) as u8 != 0u8) by (bit_vector);
    assert(0x80u8 | ((v >> 6) & 0x3F) as u8 != 0u8) by (bit_vector);
    assert(0x80u8 | ((v >> 12) & 0x3F) as u8 != 0u8) by (bit_vector);
    if has_width_1_encoding(v) {
        assert(bytes[0] == leading_byte_width_1(v));
    }
}

/// A topic name can be written as a nul-terminated byte string exactly when
/// none of its characters is NUL: the UTF-8 form of a run of characters holds
/// a zero byte exactly when one of the characters is NUL.
pub proof fn lemma_nul_free_iff_no_nul_char(chars: Seq<char>)
    ensures
        nul_free(encode_utf8(chars)) <==> (forall|i: int| 0 <= i < chars.len() ==> chars[i] != '\0'),
    decreases chars.len(),
{
    if chars.len() > 0 {
        let head = encode_scalar(chars[0] as u32);
        let rest = chars.drop_first();
        let tail = encode_utf8(rest);
        lemma_scalar_nul_free(chars[0]);
        lemma_nul_free_iff_no_nul_char(rest);
        assert(encode_utf8(chars) == head + tail);
        if nul_free(head + tail) {
            assert forall|j: int| 0 <= j < head.len() implies head[j] != 0u8 by {
                assert((head + tail)[j] == head[j]);
            }
            assert forall|j: int| 0 <= j < tail.len() implies tail[j] != 0u8 by {
                assert((head + tail)[head.len() + j] == tail[j]);
            }
            assert forall|i: int| 0 <= i < chars.len() implies chars[i] != '\0' by {
                if i > 0 {
                    assert(rest[i - 1] == chars[i]);
                }
            }
        }
        if forall|i: int| 0 <= i < chars.len() ==> chars[i] != '\0' {
            assert forall|i: int| 0 <= i < rest.len() implies rest[i] != '\0' by {
                assert(rest[i] == chars[i + 1]);
            }
            assert(nul_free(head + tail));
        }
    }
}

} // verus!
