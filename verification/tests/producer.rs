use std::collections::VecDeque;
use std::sync::{Arc, Mutex};

use producer_core::context::{EmptyProducerContext, ProducerContext};
use producer_core::error::KafkaError;
use producer_core::message::{Completion, ProduceRequest, MSG_F_COPY, PARTITION_UA, TIMESTAMP_NOW};
use producer_core::producer::{BaseProducer, FlushStep};
use producer_core::report::DeliveryReport;

const INVALID_ARG: i32 = -186;
const QUEUE_FULL: i32 = -184;
const UNKNOWN_PARTITION: i32 = -190;
const MSG_TIMED_OUT: i32 = -192;

/// A context that writes down every delivery it is handed.
struct Recorder {
    seen: Mutex<Vec<(DeliveryReport, Option<String>)>>,
}

impl Recorder {
    fn new() -> Recorder {
        Recorder { seen: Mutex::new(Vec::new()) }
    }

    fn seen(&self) -> Vec<(DeliveryReport, Option<String>)> {
        self.seen.lock().unwrap().clone()
    }
}

impl ProducerContext for Recorder {
    type DeliveryContext = String;

    fn delivery(&self, report: DeliveryReport, delivery_context: Option<String>) {
        self.seen.lock().unwrap().push((report, delivery_context));
    }
}

/// An engine that keeps what it accepted in a queue and completes it in the
/// order in which it came.
struct FifoEngine {
    queue: VecDeque<(usize, i32)>,
    partitions: i32,
    capacity: usize,
    next_offset: i64,
    fail_with: i32,
}

impl FifoEngine {
    fn new(partitions: i32, capacity: usize) -> FifoEngine {
        FifoEngine { queue: VecDeque::new(), partitions, capacity, next_offset: 0, fail_with: 0 }
    }

    fn partition_for(&self, key: &Option<Vec<u8>>) -> i32 {
        match key {
            Some(bytes) if !bytes.is_empty() => {
                let mut hash: u32 = 2166136261;
                for b in bytes {
                    hash = (hash ^ u32::from(*b)).wrapping_mul(16777619);
                }
                (hash % (self.partitions as u32)) as i32
            }
            _ => 0,
        }
    }

    fn produce(&mut self, request: &ProduceRequest) -> i32 {
        if request.topic.len() <= 1 {
            return INVALID_ARG;
        }
        if self.queue.len() >= self.capacity {
            return QUEUE_FULL;
        }
        let partition = if request.partition == PARTITION_UA {
            self.partition_for(&request.key)
        } else {
            request.partition
        };
        if partition < 0 || partition >= self.partitions {
            return UNKNOWN_PARTITION;
        }
        self.queue.push_back((request.opaque, partition));
        0
    }

    fn poll(&mut self, at_most: usize) -> Vec<Completion> {
        let mut done = Vec::new();
        while done.len() < at_most {
            match self.queue.pop_front() {
                Some((opaque, partition)) => {
                    let offset = if self.fail_with == 0 { self.next_offset } else { -1001 };
                    if self.fail_with == 0 {
                        self.next_offset += 1;
                    }
                    done.push(Completion { err: self.fail_with, partition, offset, opaque });
                }
                None => break,
            }
        }
        done
    }
}

/// Sends through producer and engine as a caller of both does.
fn send<C: ProducerContext>(
    producer: &mut BaseProducer<C>,
    engine: &mut FifoEngine,
    topic: &str,
    partition: Option<i32>,
    payload: Option<&str>,
    key: Option<&str>,
    delivery_context: Option<Box<C::DeliveryContext>>,
) -> Result<(), (KafkaError, Option<Box<C::DeliveryContext>>)> {
    let request = producer.send_copy(topic, partition, payload, key, delivery_context, None)?;
    let response = engine.produce(&request);
    producer.send_outcome(request.opaque, response)
}

/// Flushes as a caller does: asks the producer what to do, polls the engine,
/// and counts each poll as one millisecond.
fn flush<C: ProducerContext>(
    producer: &mut BaseProducer<C>,
    engine: &mut FifoEngine,
    timeout_ms: i32,
    per_poll: usize,
) -> FlushStep {
    let mut elapsed_ms: u64 = 0;
    loop {
        match producer.flush(timeout_ms, elapsed_ms) {
            FlushStep::Poll(wait) => {
                assert_eq!(i64::from(wait), i64::from(timeout_ms) - (elapsed_ms as i64));
                let done = engine.poll(per_poll);
                producer.poll(&done);
                elapsed_ms += 1;
            }
            over => return over,
        }
    }
}

#[test]
fn every_accepted_send_is_reported_exactly_once() {
    let mut producer = BaseProducer::from_context(Recorder::new());
    let mut engine = FifoEngine::new(4, 100);
    let n = 25;
    for i in 0..n {
        let sent = send(
            &mut producer,
            &mut engine,
            "topic",
            Some(i % 4),
            Some("payload"),
            None,
            Some(Box::new(format!("message {}", i))),
        );
        assert!(sent.is_ok());
    }
    assert_eq!(producer.pending(), 25);
    assert!(producer.context().seen().is_empty());

    let done = engine.poll(100);
    assert_eq!(done.len(), 25);
    assert_eq!(producer.poll(&done), 25);
    assert_eq!(producer.pending(), 0);

    let seen = producer.context().seen();
    assert_eq!(seen.len(), 25);
    for i in 0..n {
        let (report, delivery_context) = &seen[i as usize];
        assert_eq!(delivery_context, &Some(format!("message {}", i)));
        assert_eq!(report.result(), Ok((i % 4, i64::from(i))));
    }

    // The same completions once more: nothing is reported twice.
    assert_eq!(producer.poll(&done), 0);
    assert_eq!(producer.context().seen().len(), 25);
}

#[test]
fn completions_polled_in_two_rounds_are_reported_once_each() {
    let mut producer = BaseProducer::from_context(Recorder::new());
    let mut engine = FifoEngine::new(1, 100);
    for i in 0..6 {
        send(&mut producer, &mut engine, "topic", None, None, None, Some(Box::new(i.to_string())))
            .unwrap();
    }
    let first = engine.poll(2);
    assert_eq!(producer.poll(&first), 2);
    assert_eq!(producer.pending(), 4);
    let second = engine.poll(100);
    assert_eq!(producer.poll(&second), 4);
    assert_eq!(producer.pending(), 0);
    let contexts: Vec<Option<String>> =
        producer.context().seen().into_iter().map(|(_, dc)| dc).collect();
    let expected: Vec<Option<String>> = (0..6).map(|i: i32| Some(i.to_string())).collect();
    assert_eq!(contexts, expected);
}

#[test]
fn nothing_is_delivered_before_poll() {
    let mut producer = BaseProducer::from_context(Recorder::new());
    let mut engine = FifoEngine::new(1, 100);
    send(&mut producer, &mut engine, "topic", None, Some("a"), None, Some(Box::new("a".into())))
        .unwrap();
    assert!(producer.context().seen().is_empty());
    assert_eq!(producer.poll(&[]), 0);
    assert!(producer.context().seen().is_empty());
    assert_eq!(producer.pending(), 1);
}

#[test]
fn flush_returns_when_everything_is_reported() {
    let mut producer = BaseProducer::from_context(Recorder::new());
    let mut engine = FifoEngine::new(1, 100);
    for i in 0..10 {
        send(&mut producer, &mut engine, "topic", None, None, None, Some(Box::new(i.to_string())))
            .unwrap();
    }
    let step = flush(&mut producer, &mut engine, 1000, 3);
    assert_eq!(step, FlushStep::Flushed);
    assert_eq!(producer.pending(), 0);
    assert_eq!(producer.context().seen().len(), 10);
}

#[test]
fn flush_gives_up_when_the_time_is_over() {
    let mut producer = BaseProducer::from_context(Recorder::new());
    let mut engine = FifoEngine::new(1, 100);
    for i in 0..10 {
        send(&mut producer, &mut engine, "topic", None, None, None, Some(Box::new(i.to_string())))
            .unwrap();
    }
    // Three polls of two completions each fit into the time.
    let step = flush(&mut producer, &mut engine, 3, 2);
    assert_eq!(step, FlushStep::TimedOut);
    assert_eq!(producer.pending(), 4);
    assert_eq!(producer.context().seen().len(), 6);
}

#[test]
fn flush_step_by_pending_and_time() {
    let mut producer = BaseProducer::new();
    assert_eq!(producer.flush(100, 0), FlushStep::Flushed);
    assert_eq!(producer.flush(0, 0), FlushStep::Flushed);
    assert_eq!(producer.flush(100, 500), FlushStep::Flushed);
    let request = producer
        .send_copy("topic", None, None::<&[u8]>, None::<&[u8]>, None, None)
        .unwrap();
    assert_eq!(producer.flush(100, 0), FlushStep::Poll(100));
    assert_eq!(producer.flush(100, 40), FlushStep::Poll(60));
    assert_eq!(producer.flush(100, 99), FlushStep::Poll(1));
    assert_eq!(producer.flush(100, 100), FlushStep::TimedOut);
    assert_eq!(producer.flush(100, u64::MAX), FlushStep::TimedOut);
    assert_eq!(producer.flush(i32::MAX, 0), FlushStep::Poll(i32::MAX));
    assert_eq!(producer.flush(0, 0), FlushStep::TimedOut);
    assert_eq!(producer.flush(-1, 0), FlushStep::TimedOut);
    assert_eq!(producer.flush(i32::MIN, 0), FlushStep::TimedOut);
    let done = Completion { err: 0, partition: 0, offset: 0, opaque: request.opaque };
    assert_eq!(producer.poll(&[done]), 1);
    assert_eq!(producer.flush(0, 0), FlushStep::Flushed);
    assert_eq!(producer.flush(100, 100), FlushStep::Flushed);
}

#[test]
fn handles_of_one_producer_share_its_queue() {
    let shared = Arc::new(Mutex::new(BaseProducer::from_context(Recorder::new())));
    let engine = Arc::new(Mutex::new(FifoEngine::new(1, 100)));
    let one = (shared.clone(), engine.clone());
    let other = (shared.clone(), engine.clone());

    for i in 0..4 {
        let (producer, engine) = if i % 2 == 0 { &one } else { &other };
        send(
            &mut producer.lock().unwrap(),
            &mut engine.lock().unwrap(),
            "topic",
            None,
            None,
            None,
            Some(Box::new(format!("{}", i))),
        )
        .unwrap();
    }

    // Each handle polls what the other has sent.
    let done = other.1.lock().unwrap().poll(3);
    assert_eq!(other.0.lock().unwrap().poll(&done), 3);
    let done = one.1.lock().unwrap().poll(3);
    assert_eq!(one.0.lock().unwrap().poll(&done), 1);

    let producer = shared.lock().unwrap();
    let contexts: Vec<Option<String>> =
        producer.context().seen().into_iter().map(|(_, dc)| dc).collect();
    let expected: Vec<Option<String>> = (0..4).map(|i: i32| Some(i.to_string())).collect();
    assert_eq!(contexts, expected);
    assert_eq!(producer.pending(), 0);
}

#[test]
fn same_key_goes_to_the_same_partition() {
    let mut producer = BaseProducer::from_context(Recorder::new());
    let mut engine = FifoEngine::new(16, 100);
    let first = producer
        .send_copy("topic", None, Some("one"), Some("key-17"), None, None)
        .unwrap();
    let second = producer
        .send_copy("topic", None, Some("another"), Some("key-17"), None, Some(99))
        .unwrap();
    assert_eq!(first.topic, second.topic);
    assert_eq!(first.partition, PARTITION_UA);
    assert_eq!(second.partition, PARTITION_UA);
    assert_eq!(first.key, second.key);
    assert_eq!(first.key, Some(b"key-17".to_vec()));
    assert_eq!(engine.produce(&first), 0);
    assert_eq!(engine.produce(&second), 0);
    let done = engine.poll(2);
    assert_eq!(producer.poll(&done), 2);
    let seen = producer.context().seen();
    assert_eq!(seen[0].0.partition(), seen[1].0.partition());
}

#[test]
fn refused_send_gives_the_delivery_context_back() {
    let mut producer = BaseProducer::from_context(Recorder::new());
    let mut engine = FifoEngine::new(1, 100);
    let refused = send(
        &mut producer,
        &mut engine,
        "",
        None,
        Some("payload"),
        None,
        Some(Box::new("mine".to_string())),
    );
    assert_eq!(
        refused,
        Err((KafkaError::MessageProduction(INVALID_ARG), Some(Box::new("mine".to_string()))))
    );
    assert_eq!(producer.pending(), 0);
    assert!(producer.context().seen().is_empty());
    // Nothing is ever delivered for it.
    let stale = Completion { err: 0, partition: 0, offset: 0, opaque: 0 };
    assert_eq!(producer.poll(&[stale]), 0);
    assert!(producer.context().seen().is_empty());
}

#[test]
fn refused_send_on_full_queue_and_unknown_partition() {
    let mut producer = BaseProducer::from_context(Recorder::new());
    let mut engine = FifoEngine::new(2, 1);
    let unknown =
        send(&mut producer, &mut engine, "topic", Some(7), None, None, Some(Box::new("a".into())));
    assert_eq!(
        unknown,
        Err((KafkaError::MessageProduction(UNKNOWN_PARTITION), Some(Box::new("a".to_string()))))
    );
    assert!(send(&mut producer, &mut engine, "topic", Some(1), None, None, None).is_ok());
    let full = send(&mut producer, &mut engine, "topic", Some(1), None, None, None);
    assert_eq!(full, Err((KafkaError::MessageProduction(QUEUE_FULL), None)));
    assert_eq!(producer.pending(), 1);
}

#[test]
fn topic_with_nul_byte_is_no_production_error() {
    let mut producer = BaseProducer::from_context(Recorder::new());
    let res = producer.send_copy(
        "to\0pic",
        None,
        Some("payload"),
        None::<&str>,
        Some(Box::new("mine".to_string())),
        None,
    );
    match res {
        Err((error, returned)) => {
            assert_eq!(error, KafkaError::Nul(2));
            assert_eq!(error.code(), None);
            assert_eq!(returned, Some(Box::new("mine".to_string())));
        }
        Ok(_) => panic!("a topic name with a zero byte was accepted"),
    }
    assert_eq!(producer.pending(), 0);
}

#[test]
fn request_holds_what_was_sent() {
    let mut producer = BaseProducer::new();
    let mut payload = vec![1u8, 2, 3];
    let key = String::from("k");
    let request =
        producer.send_copy("topic", Some(3), Some(&payload), Some(&key), None, Some(1234)).unwrap();
    payload[0] = 9;
    assert_eq!(request.topic, b"topic\0".to_vec());
    assert_eq!(request.partition, 3);
    assert_eq!(request.msgflags, MSG_F_COPY);
    assert_eq!(request.msgflags, 2);
    assert_eq!(request.payload, Some(vec![1u8, 2, 3]));
    assert_eq!(request.key, Some(vec![b'k']));
    assert_eq!(request.timestamp, 1234);
}

#[test]
fn request_defaults_leave_the_choice_to_the_engine() {
    let mut producer = BaseProducer::new();
    let request = producer
        .send_copy("topic", None, None::<&[u8]>, None::<&[u8]>, None, None)
        .unwrap();
    assert_eq!(request.partition, -1);
    assert_eq!(request.partition, PARTITION_UA);
    assert_eq!(request.timestamp, 0);
    assert_eq!(request.timestamp, TIMESTAMP_NOW);
    assert_eq!(request.payload, None);
    assert_eq!(request.key, None);
}

#[test]
fn empty_payload_is_not_an_absent_payload() {
    let mut producer = BaseProducer::new();
    let request = producer.send_copy("topic", None, Some(""), None::<&str>, None, None).unwrap();
    assert_eq!(request.payload, Some(Vec::new()));
    assert_eq!(request.key, None);
}

#[test]
fn handles_are_distinct_while_in_flight_and_used_again_afterwards() {
    let mut producer = BaseProducer::new();
    let a = producer.send_copy("t", None, None::<&str>, None::<&str>, None, None).unwrap();
    let b = producer.send_copy("t", None, None::<&str>, None::<&str>, None, None).unwrap();
    let c = producer.send_copy("t", None, None::<&str>, None::<&str>, None, None).unwrap();
    assert_ne!(a.opaque, b.opaque);
    assert_ne!(a.opaque, c.opaque);
    assert_ne!(b.opaque, c.opaque);
    assert_eq!(producer.pending(), 3);
    let done = Completion { err: 0, partition: 0, offset: 5, opaque: b.opaque };
    assert!(producer.delivery_cb(&done));
    assert_eq!(producer.pending(), 2);
    let d = producer.send_copy("t", None, None::<&str>, None::<&str>, None, None).unwrap();
    assert_eq!(d.opaque, b.opaque);
    assert_eq!(producer.pending(), 3);
}

#[test]
fn failing_completion_is_reported_with_its_code() {
    let mut producer = BaseProducer::from_context(Recorder::new());
    let mut engine = FifoEngine::new(1, 100);
    send(&mut producer, &mut engine, "topic", None, None, None, Some(Box::new("x".into())))
        .unwrap();
    engine.fail_with = MSG_TIMED_OUT;
    let done = engine.poll(1);
    assert_eq!(producer.poll(&done), 1);
    let seen = producer.context().seen();
    assert_eq!(seen.len(), 1);
    assert!(!seen[0].0.success());
    assert_eq!(seen[0].0.result(), Err(KafkaError::MessageProduction(MSG_TIMED_OUT)));
    assert_eq!(seen[0].1, Some("x".to_string()));
    assert_eq!(producer.pending(), 0);
}

#[test]
fn message_without_delivery_context_is_delivered_with_none() {
    let mut producer = BaseProducer::from_context(Recorder::new());
    let mut engine = FifoEngine::new(1, 100);
    send(&mut producer, &mut engine, "topic", None, Some("p"), None, None).unwrap();
    let done = engine.poll(1);
    assert_eq!(producer.poll(&done), 1);
    let seen = producer.context().seen();
    assert_eq!(seen, vec![(DeliveryReport::new(0, 0, 0), None)]);
}

#[test]
fn completion_for_unknown_message_is_passed_over() {
    let mut producer = BaseProducer::from_context(Recorder::new());
    let stray = Completion { err: 0, partition: 1, offset: 2, opaque: 77 };
    assert!(!producer.delivery_cb(&stray));
    assert_eq!(producer.poll(&[stray, stray]), 0);
    assert!(producer.context().seen().is_empty());
}

#[test]
fn completion_named_twice_in_one_poll_is_delivered_once() {
    let mut producer = BaseProducer::from_context(Recorder::new());
    let request = producer
        .send_copy("topic", None, None::<&str>, None::<&str>, Some(Box::new("x".into())), None)
        .unwrap();
    let first = Completion { err: 0, partition: 1, offset: 10, opaque: request.opaque };
    let again = Completion { err: -1, partition: 2, offset: 20, opaque: request.opaque };
    assert_eq!(producer.poll(&[first, again]), 1);
    let seen = producer.context().seen();
    assert_eq!(seen, vec![(DeliveryReport::new(0, 1, 10), Some("x".to_string()))]);
}

#[test]
fn accepted_send_stays_in_flight() {
    let mut producer = BaseProducer::from_context(Recorder::new());
    let request = producer
        .send_copy("topic", None, None::<&str>, None::<&str>, Some(Box::new("x".into())), None)
        .unwrap();
    assert_eq!(producer.send_outcome(request.opaque, 0), Ok(()));
    assert_eq!(producer.pending(), 1);
}

#[test]
fn producer_without_context_takes_deliveries() {
    let mut producer: BaseProducer<EmptyProducerContext> = BaseProducer::new();
    let request = producer
        .send_copy("topic", None, Some("p"), Some("k"), Some(Box::new(())), None)
        .unwrap();
    assert_eq!(producer.send_outcome(request.opaque, 0), Ok(()));
    let done = Completion { err: 0, partition: 0, offset: 0, opaque: request.opaque };
    assert_eq!(producer.poll(&[done]), 1);
    assert_eq!(producer.pending(), 0);
}
