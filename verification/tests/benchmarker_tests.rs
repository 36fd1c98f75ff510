use protobench::benchmarker::Benchmarker;
use protobench::benchmarker::Collector;
use protobench::benchmarker::Receiver;
use protobench::benchmarker::Sender;
use protobench::benchmarker::GRACE_PERIOD_MICROS;
use protobench::codec::create_message;
use protobench::codec::index_from_message;
use protobench::codec::MsgType;
use protobench::TransportError;

#[test]
fn new_spreads_the_duration_over_the_messages() {
    let b = Benchmarker::new(100, 10_000_000, 64);
    assert_eq!(b.num_messages, 100);
    assert_eq!(b.time_wait, 100_000);
    assert_eq!(b.message_size, 64);
    assert!(b.out_file.is_none());
}

#[test]
fn nth_message_carries_its_number() {
    let b = Benchmarker::new(10, 1_000_000, 32);
    for i in 0..10 {
        let msg = b.nth_message(i);
        assert_eq!(msg.len(), 32);
        assert_eq!(index_from_message(msg), Ok(i as u64));
    }
}

#[test]
fn reduce_reports_the_configured_count_as_sent() {
    let b = Benchmarker::new(5, 5_000_000, 16);
    let send: Vec<u64> = vec![0, 1_000_000, 2_000_000, 3_000_000, 4_000_000];
    let recv: Vec<Option<u64>> = vec![Some(2_000), None, Some(2_002_000), None, None];
    let stats = b.reduce(send, recv);
    assert_eq!(stats.num_sent, 5);
    assert_eq!(stats.num_received, 2);
    assert_eq!(stats.latency_median, 2_000);
}

#[test]
fn a_failed_listen_degrades_to_zero_receipts() {
    let b = Benchmarker::new(3, 3_000_000, 16);
    let ok: Vec<Option<u64>> = vec![Some(5), None, Some(9)];
    assert_eq!(b.receipts_or_none(Ok(ok.clone())), ok);
    let recv = b.receipts_or_none(Err(TransportError::ReceiveFailed));
    assert_eq!(recv, vec![None; 3]);
    let stats = b.reduce(vec![0, 1, 2], recv);
    assert_eq!(stats.num_sent, 3);
    assert_eq!(stats.num_received, 0);
}

#[test]
fn collector_starts_empty_and_open() {
    let c = Collector::new(4, 1_000, 2_000_000);
    assert_eq!(c.num_received(), 0);
    assert!(!c.done());
    assert_eq!(c.into_slots(), vec![None; 4]);
}

#[test]
fn collector_stops_only_past_the_grace_deadline() {
    let start = 1_000u64;
    let duration = 2_000_000u64;
    let c = Collector::new(4, start, duration);
    let deadline = start + duration + GRACE_PERIOD_MICROS;
    assert!(!c.should_stop(start));
    assert!(!c.should_stop(deadline));
    assert!(c.should_stop(deadline + 1));
}

#[test]
fn collector_stamps_the_decoded_slot() {
    let mut c = Collector::new(3, 0, 1_000_000);
    c.record_payload(create_message(1, 16), 777);
    assert_eq!(c.num_received(), 1);
    assert!(!c.done());
    let slots = c.into_slots();
    assert_eq!(slots, vec![None, Some(777), None]);
}

#[test]
fn collector_is_done_once_every_slot_is_stamped() {
    let mut c = Collector::new(3, 0, 1_000_000);
    for i in 0..3 {
        c.record_payload(create_message(i, 16), 100 + i as u64);
    }
    assert_eq!(c.num_received(), 3);
    assert!(c.done());
    // Done wins over any clock reading.
    assert!(c.should_stop(0));
}

#[test]
fn collector_counts_a_duplicate_once_and_keeps_the_last_stamp() {
    let mut c = Collector::new(2, 0, 1_000_000);
    c.record_payload(create_message(0, 16), 10);
    c.record_payload(create_message(0, 16), 20);
    assert_eq!(c.num_received(), 1);
    assert_eq!(c.into_slots(), vec![Some(20), None]);
}

#[test]
fn collector_discards_what_it_cannot_place() {
    let mut c = Collector::new(2, 0, 1_000_000);
    // Too short to decode.
    c.record_payload(vec![1, 2, 3], 10);
    // Decodes, but no such slot.
    c.record_payload(create_message(7, 16), 10);
    assert_eq!(c.num_received(), 0);
    assert_eq!(c.into_slots(), vec![None, None]);
}

struct LoopbackTransport {
    wire: Vec<MsgType>,
    num_messages: usize,
    clock: u64,
}

struct LoopbackReceiver {
    collector: Collector,
    echoes: Vec<(MsgType, u64)>,
}

impl Sender for LoopbackTransport {
    fn send(&mut self, msg: MsgType) -> Result<(), TransportError> {
        self.wire.push(msg);
        Ok(())
    }
}

impl Receiver for LoopbackReceiver {
    fn listen(&mut self) -> Result<Vec<Option<u64>>, TransportError> {
        let mut echoes = std::mem::take(&mut self.echoes);
        for (msg, at) in echoes.drain(..) {
            if self.collector.should_stop(at) {
                break;
            }
            self.collector.record_payload(msg, at);
        }
        let collector = std::mem::replace(&mut self.collector, Collector::new(0, 0, 0));
        Ok(collector.into_slots())
    }
}

#[test]
fn a_paced_trial_over_a_loopback_reduces_to_a_tight_report() {
    // The driver's loop, without threads or sleeps: pace the sends on a
    // simulated clock, echo every payload back 5 ms later, and reduce.
    let num_messages = 100usize;
    let b = Benchmarker::new(num_messages, 10_000_000, 64);
    let mut transport = LoopbackTransport {
        wire: Vec::new(),
        num_messages,
        clock: 0,
    };
    let mut send_times: Vec<u64> = Vec::new();
    for i in 0..transport.num_messages {
        send_times.push(transport.clock);
        let _ = transport.send(b.nth_message(i));
        transport.clock += b.time_wait;
    }
    let echoes: Vec<(MsgType, u64)> = transport
        .wire
        .drain(..)
        .zip(send_times.iter())
        .map(|(msg, sent_at)| (msg, sent_at + 5_000))
        .collect();
    let mut receiver = LoopbackReceiver {
        collector: Collector::new(num_messages, 0, 10_000_000),
        echoes,
    };
    let recv_times = receiver.listen().unwrap();
    let stats = b.reduce(send_times, recv_times);
    assert_eq!(stats.num_sent, 100);
    assert_eq!(stats.num_received, 100);
    assert_eq!(stats.latency_median, 5_000);
    assert_eq!(stats.latency_p99, stats.latency_median);
    assert_eq!(stats.latency_std, 0);
}
