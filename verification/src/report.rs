//! The outcome of one produced message.

use vstd::prelude::*;
use crate::error::{is_error, spec_is_error, KafkaError, KafkaResult};

verus! {

/// What the engine reported of one message once its fate was known: whether it
/// was delivered, and to which partition and offset.
///
/// A report is made once, from the engine's completion record, and never
/// changes afterwards.
#[derive(Debug, Clone, Copy, PartialEq, Eq, Structural)]
pub struct DeliveryReport {
    error: i32,
    partition: i32,
    offset: i64,
}

impl DeliveryReport {
    /// The engine's response code for the message.
    pub closed spec fn spec_error(&self) -> i32 {
        self.error
    }

    /// The partition that the engine named.
    pub closed spec fn spec_partition(&self) -> i32 {
        self.partition
    }

    /// The offset that the engine named.
    pub closed spec fn spec_offset(&self) -> i64 {
        self.offset
    }

    /// Whether the message was delivered.
    pub open spec fn spec_success(&self) -> bool {
        !spec_is_error(self.spec_error())
    }

    /// The report as a result: partition and offset of a delivered message, the
    /// production error with the engine's code otherwise.
    pub open spec fn spec_result(&self) -> KafkaResult<(i32, i64)> {
        if spec_is_error(self.spec_error()) {
            Err(KafkaError::MessageProduction(self.spec_error()))
        } else {
            Ok((self.spec_partition(), self.spec_offset()))
        }
    }

    /// The report made of a response code, a partition and an offset.
    pub closed spec fn spec_new(err: i32, partition: i32, offset: i64) -> DeliveryReport {
        DeliveryReport { error: err, partition, offset }
    }

    /// Makes the report for a completion with the given response code,
    /// partition and offset.
    pub fn new(err: i32, partition: i32, offset: i64) -> (report: DeliveryReport)
        ensures
            report == Self::spec_new(err, partition, offset),
            report.spec_error() == err,
            report.spec_partition() == partition,
            report.spec_offset() == offset,
    {
        DeliveryReport { error: err, partition, offset }
    }

    /// Returns true if the message was delivered, false otherwise.
    #[verifier::when_used_as_spec(spec_success)]
    pub fn success(&self) -> (delivered: bool)
        ensures
            delivered == self.spec_success(),
    {
        !is_error(self.error)
    }

    /// Returns the result of the production of the message.
    #[verifier::when_used_as_spec(spec_result)]
    pub fn result(&self) -> (outcome: KafkaResult<(i32, i64)>)
        ensures
            outcome == self.spec_result(),
    {
        if is_error(self.error) {
            Err(KafkaError::MessageProduction(self.error))
        } else {
            Ok((self.partition, self.offset))
        }
    }

    /// Returns the engine's response code for the message.
    #[verifier::when_used_as_spec(spec_error)]
    pub fn error(&self) -> (code: i32)
        ensures
            code == self.spec_error(),
    {
        self.error
    }

    /// Returns the partition of the message.
    #[verifier::when_used_as_spec(spec_partition)]
    pub fn partition(&self) -> (partition: i32)
        ensures
            partition == self.spec_partition(),
    {
        self.partition
    }

    /// Returns the offset of the message.
    #[verifier::when_used_as_spec(spec_offset)]
    pub fn offset(&self) -> (offset: i64)
        ensures
            offset == self.spec_offset(),
    {
        self.offset
    }
}

/// A report holds the three values it was made from, and nothing else: two
/// reports that agree in them are one report.
pub proof fn lemma_report_holds_what_it_was_made_from(err: i32, partition: i32, offset: i64)
    ensures
        DeliveryReport::spec_new(err, partition, offset).spec_error() == err,
        DeliveryReport::spec_new(err, partition, offset).spec_partition() == partition,
        DeliveryReport::spec_new(err, partition, offset).spec_offset() == offset,
        forall|other: DeliveryReport|
            other.spec_error() == err && other.spec_partition() == partition
                && other.spec_offset() == offset ==> other == DeliveryReport::spec_new(
                err,
                partition,
                offset,
            ),
{
}

/// A completion with a response code other than zero gives a report that is no
/// success and whose result is the production error with that very code; a
/// completion with code zero gives a success whose result is the partition and
/// offset of the completion, unchanged.
pub proof fn lemma_report_follows_response_code(err: i32, partition: i32, offset: i64)
    ensures
        err != 0 ==> !DeliveryReport::spec_new(err, partition, offset).spec_success()
            && DeliveryReport::spec_new(err, partition, offset).spec_result() == Err::<
            (i32, i64),
            KafkaError,
        >(KafkaError::MessageProduction(err)),
        err == 0 ==> DeliveryReport::spec_new(err, partition, offset).spec_success()
            && DeliveryReport::spec_new(err, partition, offset).spec_result() == Ok::<
            (i32, i64),
            KafkaError,
        >((partition, offset)),
{
}

} // verus!
