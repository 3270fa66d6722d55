//! The producer: what it keeps for each message in flight, and what it does
//! when a message is sent, refused, or completed.

use vstd::prelude::*;
use vstd::string::StringSliceAdditionalSpecFns;
use crate::context::{EmptyProducerContext, ProducerContext};
use crate::error::{is_error, spec_is_error, KafkaError};
use crate::message::{
    bytes_of, c_string, copy_bytes, is_first_nul, nul_free, request_for, Completion,
    ProduceRequest, ToBytes, MSG_F_COPY, PARTITION_UA, TIMESTAMP_NOW,
};
use crate::delivery::{
    deliveries, delivery_of, handles_of, is_delivery_for, is_first_completion_of,
    lemma_each_message_delivered_once, lemma_nothing_remains_when_all_completed,
    lemma_remaining_unfolds, remaining, unboxed, was_delivered, Delivery,
};
use crate::registry::Registry;

verus! {

/// What a flush has to do next.
#[derive(Debug, Clone, Copy, PartialEq, Eq, Structural)]
pub enum FlushStep {
    /// Every message that was sent has been reported: the flush is over.
    Flushed,
    /// The time is up while messages are still in flight: the flush is over,
    /// and those messages are no longer waited for.
    TimedOut,
    /// Messages are still in flight and time is left: poll the engine for up to
    /// this many milliseconds, hand what it completed to `poll`, and ask again.
    Poll(i32),
}

/// What a flush with a timeout of `timeout_ms` milliseconds does next when
/// `pending` messages are in flight and it has gone on for `elapsed_ms`
/// milliseconds.
pub open spec fn flush_step(pending: nat, timeout_ms: i32, elapsed_ms: u64) -> FlushStep {
    if pending == 0 {
        FlushStep::Flushed
    } else if elapsed_ms >= timeout_ms {
        FlushStep::TimedOut
    } else {
        FlushStep::Poll((timeout_ms - elapsed_ms) as i32)
    }
}

/// Simple producer. It keeps what belongs to each message from the moment the
/// message is sent until the engine has completed it, and hands each
/// completion, once, to its context.
///
/// The producer needs to be `poll`ed at regular intervals with what the engine
/// has completed.
pub struct BaseProducer<C: ProducerContext> {
    /// The context that every delivery is handed to.
    context: C,
    /// The messages in flight, by handle: for each the delivery context that
    /// was sent along with it, if there was one.
    in_flight: Registry<Option<Box<C::DeliveryContext>>>,
}

impl<C: ProducerContext> View for BaseProducer<C> {
    type V = Map<usize, Option<Box<C::DeliveryContext>>>;

    /// The messages in flight, by handle, each with its delivery context.
    closed spec fn view(&self) -> Map<usize, Option<Box<C::DeliveryContext>>> {
        self.in_flight@
    }
}

impl BaseProducer<EmptyProducerContext> {
    /// Creates a producer that does nothing with its delivery reports.
    pub fn new() -> (producer: BaseProducer<EmptyProducerContext>)
        ensures
            producer.wf(),
            producer@ == Map::<usize, Option<Box<()>>>::empty(),
    {
        BaseProducer::from_context(EmptyProducerContext)
    }
}

impl<C: ProducerContext> BaseProducer<C> {
    /// The producer's table of messages is in order.
    pub closed spec fn wf(&self) -> bool {
        self.in_flight.wf()
    }

    /// The context of the producer.
    pub closed spec fn spec_context(&self) -> C {
        self.context
    }

    /// The handle that the next message will be sent under.
    pub closed spec fn next_handle(&self) -> usize {
        self.in_flight.next_handle()
    }

    /// The number of messages in flight.
    pub open spec fn spec_pending(&self) -> usize {
        self@.dom().len() as usize
    }

    /// The handle of the next message is not the handle of a message in
    /// flight, and the messages in flight are finitely many.
    pub proof fn lemma_next_handle_is_fresh(&self)
        requires
            self.wf(),
        ensures
            !self@.contains_key(self.next_handle()),
            self@.dom().finite(),
            self@.dom().len() <= usize::MAX,
    {
        self.in_flight.lemma_next_handle_is_fresh();
    }

    /// Creates a producer that hands its deliveries to `context`. No message is
    /// in flight.
    pub fn from_context(context: C) -> (producer: BaseProducer<C>)
        ensures
            producer.wf(),
            producer.spec_context() == context,
            producer@ == Map::<usize, Option<Box<C::DeliveryContext>>>::empty(),
    {
        BaseProducer { context, in_flight: Registry::new() }
    }

    /// Returns the context of the producer.
    pub fn context(&self) -> (context: &C)
        ensures
            *context == self.spec_context(),
    {
        &self.context
    }

    /// Returns the number of messages in flight: those that were sent and not
    /// refused, and whose completion has not been polled yet.
    #[verifier::when_used_as_spec(spec_pending)]
    pub fn pending(&self) -> (count: usize)
        requires
            self.wf(),
        ensures
            count == self@.dom().len(),
            count == self.spec_pending(),
    {
        self.in_flight.len()
    }

    /// Prepares the sending of a copy of the payload and key provided to the
    /// specified topic, and returns the request to hand to the engine.
    ///
    /// When no partition is given, the request leaves the choice to the engine,
    /// and when no timestamp is given, it leaves the stamping to the engine.
    /// Payload and key are copied: the caller's buffers are free again when
    /// this returns. The delivery context is kept under the handle that the
    /// request carries, from where `poll` takes it when the engine completes
    /// the message, and `send_outcome` where the engine refuses the request.
    ///
    /// A topic name that holds a zero byte cannot be handed to the engine. The
    /// call then fails with `KafkaError::Nul` and the place of the first such
    /// byte, gives the delivery context back, and changes nothing.
    pub fn send_copy<P: ToBytes + ?Sized, K: ToBytes + ?Sized>(
        &mut self,
        topic_name: &str,
        partition: Option<i32>,
        payload: Option<&P>,
        key: Option<&K>,
        delivery_context: Option<Box<C::DeliveryContext>>,
        timestamp: Option<i64>,
    ) -> (res: Result<ProduceRequest, (KafkaError, Option<Box<C::DeliveryContext>>)>)
        requires
            old(self).wf(),
        ensures
            final(self).wf(),
            final(self).spec_context() == old(self).spec_context(),
            (match res {
                Ok(request) => {
                    &&& nul_free(topic_name.spec_bytes())
                    &&& request@ == request_for(
                        topic_name.spec_bytes(),
                        partition,
                        bytes_of(payload),
                        bytes_of(key),
                        old(self).next_handle(),
                        timestamp,
                    )
                    &&& !old(self)@.contains_key(request.opaque)
                    &&& final(self)@ == old(self)@.insert(request.opaque, delivery_context)
                },
                Err((error, returned)) => {
                    &&& exists|pos: usize|
                        error == KafkaError::Nul(pos) && is_first_nul(
                            topic_name.spec_bytes(),
                            pos as int,
                        )
                    &&& returned == delivery_context
                    &&& final(self)@ == old(self)@
                },
            }),
    {
        let topic = match c_string(topic_name) {
            Ok(topic) => topic,
            Err(error) => {
                return Err((error, delivery_context));
            },
        };
        let payload = copy_bytes(payload);
        let key = copy_bytes(key);
        let opaque = self.in_flight.insert(delivery_context);
        Ok(
            ProduceRequest {
                topic,
                partition: match partition {
                    Some(p) => p,
                    None => PARTITION_UA,
                },
                msgflags: MSG_F_COPY,
                payload,
                key,
                opaque,
                timestamp: match timestamp {
                    Some(t) => t,
                    None => TIMESTAMP_NOW,
                },
            },
        )
    }

    /// Takes note of the engine's answer to the request with handle `opaque`.
    ///
    /// With the code for no error the message is in flight, and nothing
    /// changes. With any other code the engine has refused the message: it is
    /// in flight no longer, no delivery will ever be made for it, and the error
    /// holds the engine's code together with the delivery context that was
    /// sent along, which is the caller's again.
    pub fn send_outcome(&mut self, opaque: usize, response: i32) -> (res: Result<
        (),
        (KafkaError, Option<Box<C::DeliveryContext>>),
    >)
        requires
            old(self).wf(),
        ensures
            final(self).wf(),
            final(self).spec_context() == old(self).spec_context(),
            (match res {
                Ok(()) => !spec_is_error(response) && final(self)@ == old(self)@,
                Err((error, returned)) => {
                    &&& spec_is_error(response)
                    &&& error == KafkaError::MessageProduction(response)
                    &&& returned == (if old(self)@.contains_key(opaque) {
                        old(self)@[opaque]
                    } else {
                        None
                    })
                    &&& final(self)@ == old(self)@.remove(opaque)
                },
            }),
    {
        if is_error(response) {
            let returned = match self.in_flight.remove(opaque) {
                Some(delivery_context) => delivery_context,
                None => None,
            };
            Err((KafkaError::MessageProduction(response), returned))
        } else {
            Ok(())
        }
    }

    /// Takes the message that `completion` names out of flight and returns what
    /// is to be delivered for it: the report made of the completion, and the
    /// delivery context that was sent along with the message. Returns `None`,
    /// and changes nothing, where no such message is in flight.
    fn take_delivery(&mut self, completion: &Completion) -> (delivery: Option<
        Delivery<C::DeliveryContext>,
    >)
        requires
            old(self).wf(),
        ensures
            final(self).wf(),
            final(self).spec_context() == old(self).spec_context(),
            final(self)@ == old(self)@.remove(completion.opaque),
            delivery == (if old(self)@.contains_key(completion.opaque) {
                Some(delivery_of(old(self)@, *completion))
            } else {
                None
            }),
    {
        match self.in_flight.remove(completion.opaque) {
            Some(delivery_context) => Some(
                Delivery {
                    opaque: completion.opaque,
                    report: completion.report(),
                    delivery_context: match delivery_context {
                        Some(boxed) => Some(*boxed),
                        None => None,
                    },
                },
            ),
            None => None,
        }
    }

    /// Handles one completion of the engine: where its message is in flight,
    /// takes it out of flight and hands its report and its delivery context to
    /// the context's `delivery`. The context stays with the producer.
    ///
    /// Returns whether the delivery was made. A completion for a message that
    /// is not in flight, or no longer, is passed over.
    pub fn delivery_cb(&mut self, completion: &Completion) -> (delivered: bool)
        requires
            old(self).wf(),
        ensures
            final(self).wf(),
            final(self).spec_context() == old(self).spec_context(),
            delivered == old(self)@.contains_key(completion.opaque),
            delivered ==> was_delivered(
                old(self).spec_context(),
                delivery_of(old(self)@, *completion),
            ),
            final(self)@ == old(self)@.remove(completion.opaque),
    {
        match self.take_delivery(completion) {
            Some(delivery) => {
                self.context.delivery(delivery.report, delivery.delivery_context);
                true
            },
            None => false,
        }
    }

    /// Polls the producer with the completions that the engine has handed
    /// out: each of them is handled as `delivery_cb` does, in their order.
    /// Regular calls to `poll` are required for the deliveries to be made.
    ///
    /// Returns the number of deliveries made.
    pub fn poll(&mut self, completions: &[Completion]) -> (count: usize)
        requires
            old(self).wf(),
        ensures
            final(self).wf(),
            final(self).spec_context() == old(self).spec_context(),
            count == deliveries(old(self)@, completions@).len(),
            forall|k: int|
                0 <= k < count ==> was_delivered(
                    old(self).spec_context(),
                    #[trigger] deliveries(old(self)@, completions@)[k],
                ),
            final(self)@ == remaining(old(self)@, completions@),
    {
        let mut count: usize = 0;
        let mut i: usize = 0;
        proof {
            assert(completions@.skip(0) == completions@);
            assert(deliveries(old(self)@, completions@).skip(0) == deliveries(
                old(self)@,
                completions@,
            ));
        }
        while i < completions.len()
            invariant
                self.wf(),
                self.spec_context() == old(self).spec_context(),
                i <= completions.len(),
                count <= i,
                count <= deliveries(old(self)@, completions@).len(),
                deliveries(old(self)@, completions@).skip(count as int) == deliveries(
                    self@,
                    completions@.skip(i as int),
                ),
                forall|k: int|
                    0 <= k < count ==> was_delivered(
                        old(self).spec_context(),
                        #[trigger] deliveries(old(self)@, completions@)[k],
                    ),
                remaining(old(self)@, completions@) == remaining(
                    self@,
                    completions@.skip(i as int),
                ),
            decreases completions.len() - i,
        {
            let ghost all = deliveries(old(self)@, completions@);
            let ghost rest = completions@.skip(i as int);
            let ghost before = self@;
            proof {
                assert(rest[0] == completions@[i as int]);
                assert(rest.drop_first() == completions@.skip(i + 1));
                lemma_remaining_unfolds(before, rest);
            }
            if self.delivery_cb(&completions[i]) {
                proof {
                    assert(all.skip(count as int)[0] == delivery_of(before, rest[0]));
                    assert(all.skip(count as int).drop_first() == all.skip(count + 1));
                    assert(all.skip(count + 1) == deliveries(self@, rest.drop_first()));
                }
                count += 1;
            }
            i += 1;
        }
        proof {
            assert(completions@.skip(i as int).len() == 0);
            assert(deliveries(old(self)@, completions@).skip(count as int).len() == 0);
            lemma_remaining_unfolds(self@, completions@.skip(i as int));
        }
        count
    }

    /// Tells what a flush with a timeout of `timeout_ms` milliseconds has to do
    /// next, once it has gone on for `elapsed_ms` milliseconds: it is over when
    /// no message is in flight, or when its time has elapsed; until then the
    /// engine is to be polled for the time that is left.
    pub fn flush(&self, timeout_ms: i32, elapsed_ms: u64) -> (step: FlushStep)
        requires
            self.wf(),
        ensures
            step == flush_step(self@.dom().len(), timeout_ms, elapsed_ms),
    {
        if self.in_flight.len() == 0 {
            FlushStep::Flushed
        } else if timeout_ms <= 0 || elapsed_ms >= timeout_ms as u64 {
            FlushStep::TimedOut
        } else {
            FlushStep::Poll(timeout_ms - elapsed_ms as i32)
        }
    }
}

/// A flush is over, with everything reported, exactly when no message is in
/// flight. It is over with messages still in flight exactly when its timeout
/// has elapsed. Otherwise it asks for one more poll, of the time that is left,
/// which is more than nothing and no more than the timeout.
pub proof fn lemma_flush_ends_when_done_or_out_of_time(
    pending: nat,
    timeout_ms: i32,
    elapsed_ms: u64,
)
    ensures
        flush_step(pending, timeout_ms, elapsed_ms) == FlushStep::Flushed <==> pending == 0,
        flush_step(pending, timeout_ms, elapsed_ms) == FlushStep::TimedOut <==> pending > 0
            && elapsed_ms >= timeout_ms,
        flush_step(pending, timeout_ms, elapsed_ms) is Poll <==> pending > 0 && elapsed_ms
            < timeout_ms,
        flush_step(pending, timeout_ms, elapsed_ms) matches FlushStep::Poll(wait_ms) ==> 0
            < wait_ms <= timeout_ms && wait_ms == timeout_ms - elapsed_ms,
{
}

/// After a poll, a flush finds everything reported exactly when the
/// completions that were polled have named every message that was in flight.
pub proof fn lemma_flush_is_over_once_all_completed<D>(
    in_flight: Map<usize, Option<Box<D>>>,
    completions: Seq<Completion>,
    timeout_ms: i32,
    elapsed_ms: u64,
)
    requires
        in_flight.dom().finite(),
    ensures
        flush_step(remaining(in_flight, completions).dom().len(), timeout_ms, elapsed_ms)
            == FlushStep::Flushed <==> (forall|h: usize|
            in_flight.contains_key(h) ==> handles_of(completions).contains(h)),
{
    let left = remaining(in_flight, completions);
    if forall|h: usize| in_flight.contains_key(h) ==> handles_of(completions).contains(h) {
        lemma_nothing_remains_when_all_completed(in_flight, completions);
    } else {
        let h = choose|h: usize| in_flight.contains_key(h) && !handles_of(completions).contains(h);
        assert(left.dom().contains(h));
        assert(left.dom().subset_of(in_flight.dom()));
        vstd::set_lib::lemma_set_subset_finite(in_flight.dom(), left.dom());
        if left.dom().len() == 0 {
            left.dom().lemma_len0_is_empty();
        }
    }
}

/// A message that was sent is reported exactly once. Let a message be sent
/// under the handle `opaque` with `delivery_context`. Then a run of
/// completions that names the message makes one delivery for it and no more,
/// with that delivery context, and leaves it in flight no longer; a run that
/// does not name it makes no delivery for it and leaves it in flight, with
/// that delivery context.
pub proof fn lemma_sent_message_reported_once<D>(
    in_flight: Map<usize, Option<Box<D>>>,
    opaque: usize,
    delivery_context: Option<Box<D>>,
    completions: Seq<Completion>,
)
    ensures
        ({
            let sent = in_flight.insert(opaque, delivery_context);
            let made = deliveries(sent, completions);
            let left = remaining(sent, completions);
            if handles_of(completions).contains(opaque) {
                &&& !left.contains_key(opaque)
                &&& exists|i: int|
                    {
                        &&& 0 <= i < made.len()
                        &&& (#[trigger] made[i]).opaque == opaque
                        &&& made[i].delivery_context == unboxed(delivery_context)
                        &&& forall|j: int|
                            0 <= j < made.len() && j != i ==> (#[trigger] made[j]).opaque != opaque
                    }
            } else {
                &&& left.contains_key(opaque)
                &&& left[opaque] == delivery_context
                &&& forall|j: int| 0 <= j < made.len() ==> (#[trigger] made[j]).opaque != opaque
            }
        }),
{
    let sent = in_flight.insert(opaque, delivery_context);
    let made = deliveries(sent, completions);
    lemma_each_message_delivered_once(sent, completions);
    assert(sent.contains_key(opaque));
    if handles_of(completions).contains(opaque) {
        let i = choose|i: int| 0 <= i < made.len() && made[i].opaque == opaque;
        assert(is_delivery_for(sent, completions, made[i]));
        assert forall|j: int| 0 <= j < made.len() && j != i implies (#[trigger] made[j]).opaque
            != opaque by {
            if j < i {
                assert(made[j].opaque != made[i].opaque);
            } else {
                assert(made[i].opaque != made[j].opaque);
            }
        }
    } else {
        assert forall|j: int| 0 <= j < made.len() implies (#[trigger] made[j]).opaque
            != opaque by {
            assert(is_delivery_for(sent, completions, made[j]));
            let k = choose|k: int| is_first_completion_of(completions, k, made[j].opaque);
            if made[j].opaque == opaque {
                assert(completions[k].opaque == opaque);
            }
        }
    }
}

/// A send that the engine refuses leaves no trace. Let a message be sent under
/// a handle that was not in use, and let the engine refuse it. Then the
/// delivery context that comes back is the one that was sent, the messages in
/// flight are those that were in flight before the send, and no run of
/// completions makes a delivery for the refused message.
pub proof fn lemma_refused_send_leaves_no_trace<D>(
    in_flight: Map<usize, Option<Box<D>>>,
    opaque: usize,
    delivery_context: Option<Box<D>>,
    completions: Seq<Completion>,
)
    requires
        !in_flight.contains_key(opaque),
    ensures
        in_flight.insert(opaque, delivery_context)[opaque] == delivery_context,
        in_flight.insert(opaque, delivery_context).remove(opaque) == in_flight,
        forall|j: int|
            0 <= j < deliveries(in_flight, completions).len() ==> (#[trigger] deliveries(
                in_flight,
                completions,
            )[j]).opaque != opaque,
{
    assert(in_flight.insert(opaque, delivery_context).remove(opaque) =~= in_flight);
    lemma_each_message_delivered_once(in_flight, completions);
    assert forall|j: int| 0 <= j < deliveries(in_flight, completions).len() implies (
    #[trigger] deliveries(in_flight, completions)[j]).opaque != opaque by {
        assert(is_delivery_for(in_flight, completions, deliveries(in_flight, completions)[j]));
    }
}

/// Messages sent one after the other are in flight together, whoever sent
/// them, and one poll serves them all: a run of completions that names two
/// messages sent under different handles makes a delivery for each of them,
/// with its own delivery context.
pub proof fn lemma_poll_serves_every_send<D>(
    in_flight: Map<usize, Option<Box<D>>>,
    first: usize,
    first_context: Option<Box<D>>,
    second: usize,
    second_context: Option<Box<D>>,
    completions: Seq<Completion>,
)
    requires
        first != second,
        handles_of(completions).contains(first),
        handles_of(completions).contains(second),
    ensures
        ({
            let sent = in_flight.insert(first, first_context).insert(second, second_context);
            let made = deliveries(sent, completions);
            exists|i: int, j: int|
                {
                    &&& 0 <= i < made.len()
                    &&& 0 <= j < made.len()
                    &&& i != j
                    &&& (#[trigger] made[i]).opaque == first
                    &&& made[i].delivery_context == unboxed(first_context)
                    &&& (#[trigger] made[j]).opaque == second
                    &&& made[j].delivery_context == unboxed(second_context)
                }
        }),
{
    let sent = in_flight.insert(first, first_context).insert(second, second_context);
    let made = deliveries(sent, completions);
    lemma_each_message_delivered_once(sent, completions);
    assert(sent.contains_key(first) && sent.contains_key(second));
    let i = choose|i: int| 0 <= i < made.len() && made[i].opaque == first;
    let j = choose|j: int| 0 <= j < made.len() && made[j].opaque == second;
    assert(is_delivery_for(sent, completions, made[i]));
    assert(is_delivery_for(sent, completions, made[j]));
}

} // verus!
