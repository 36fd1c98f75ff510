//! One benchmark trial: pacing parameters, the capability interfaces a
//! transport implements, the collection of receipts, and the reduction
//! into a report.
//!
//! The trial's driver owns the clock, the threads and the sleeps; this
//! module owns every decision.  The driver asks [`Benchmarker`] what to
//! send and how long to pause, feeds every received payload and the
//! current time to a [`Collector`], and hands the timestamps back to
//! [`Benchmarker::reduce`] for the report.

use crate::codec::create_message;
use crate::codec::index_from_message;
use crate::codec::spec_index_of;
use crate::codec::spec_message;
use crate::codec::MsgType;
use crate::histogram::spec_value_at_quantile;
use crate::histogram::spec_variance;
use crate::histogram::MAX_SAMPLE_COUNT;
use crate::stats::spec_latencies;
use crate::stats::BenchStats;
use crate::TransportError;
use vstd::prelude::*;

verus! {

/// How long, in microseconds, a collector keeps listening after the
/// nominal trial duration, to absorb queuing and propagation delay.
pub const GRACE_PERIOD_MICROS: u64 = 5_000_000;

/// The sending half of a transport adapter.
pub trait Sender {
    /// Hands one payload to the peer.  A failure is the caller's to count;
    /// it never aborts a run.
    fn send(&mut self, msg: MsgType) -> Result<(), TransportError>;
}

/// The receiving half of a transport adapter.
pub trait Receiver {
    /// Blocks or polls until its own exit condition — all messages seen,
    /// or the deadline passed — and returns the receipt times, in
    /// microseconds, slot-indexed by sequence index.
    fn listen(&mut self) -> Result<Vec<Option<u64>>, TransportError>;
}

/// The parameters of one load trial: how many messages to send, how large
/// each is, and how to pace them over the trial's duration.
pub struct Benchmarker {
    /// How many messages one trial sends.
    pub num_messages: usize,
    /// Where the driver persists the report, when anywhere.
    pub out_file: Option<String>,
    /// The pause between two sends, in microseconds.  Drift from
    /// scheduling jitter is not corrected.
    pub time_wait: u64,
    /// The size, in bytes, of every payload of the trial.
    pub message_size: usize,
}

impl Benchmarker {
    /// What any trial needs: at least one message, so pacing divides the
    /// duration; room behind the index bytes in every payload; and a
    /// message count the reducer can aggregate exactly.
    pub open spec fn wf(&self) -> bool {
        &&& 1 <= self.num_messages
        &&& self.num_messages as int <= MAX_SAMPLE_COUNT as int
        &&& self.message_size > 8
    }

    /// Lays out one trial: `num_messages` payloads of `message_size`
    /// bytes, paced evenly across `duration_micros`.
    pub fn new(num_messages: usize, duration_micros: u64, message_size: usize) -> (b: Self)
        requires
            1 <= num_messages,
            num_messages as int <= MAX_SAMPLE_COUNT as int,
            message_size > 8,
        ensures
            b.wf(),
            b.num_messages == num_messages,
            b.out_file is None,
            b.time_wait == duration_micros as int / num_messages as int,
            b.message_size == message_size,
    {
        Benchmarker {
            time_wait: duration_micros / (num_messages as u64),
            num_messages,
            out_file: None,
            message_size,
        }
    }

    /// Builds the payload the trial sends as its `msg_nr`-th message.
    pub fn nth_message(&self, msg_nr: usize) -> (msg: MsgType)
        requires
            self.wf(),
        ensures
            msg@ == spec_message(msg_nr as u64, self.message_size as int),
            msg@.len() == self.message_size,
            spec_index_of(msg@) == msg_nr as u64,
    {
        create_message(msg_nr, self.message_size)
    }

    /// Reduces the trial's timestamps into its report.  The send list
    /// holds one entry per message, so `num_sent` always equals the
    /// configured message count, whatever the transport did.
    pub fn reduce(&self, send_times: Vec<u64>, recv_times: Vec<Option<u64>>) -> (stats: BenchStats)
        requires
            self.wf(),
            send_times@.len() == self.num_messages,
        ensures
            stats.num_sent == self.num_messages,
            stats.num_received == spec_latencies(send_times@, recv_times@).len(),
            stats.num_received <= stats.num_sent,
            spec_latencies(send_times@, recv_times@).len() == 0 ==> stats.latency_median == 0
                && stats.latency_p95 == 0 && stats.latency_p99 == 0 && stats.latency_std == 0,
            spec_latencies(send_times@, recv_times@).len() > 0 ==> {
                &&& stats.latency_median == spec_value_at_quantile(
                    spec_latencies(send_times@, recv_times@),
                    500,
                )
                &&& stats.latency_p95 == spec_value_at_quantile(
                    spec_latencies(send_times@, recv_times@),
                    950,
                )
                &&& stats.latency_p99 == spec_value_at_quantile(
                    spec_latencies(send_times@, recv_times@),
                    990,
                )
                &&& (stats.latency_std as int) * (stats.latency_std as int) <= spec_variance(
                    spec_latencies(send_times@, recv_times@),
                )
                &&& (stats.latency_std as int + 1) * (stats.latency_std as int + 1)
                    > spec_variance(spec_latencies(send_times@, recv_times@))
            },
    {
        BenchStats::new(send_times, recv_times)
    }

    /// Applies the engine's receive-failure policy: a transport that
    /// could not listen at all counts as a trial without receipts, so the
    /// report degrades to zero received rather than the run ending.
    pub fn receipts_or_none(&self, outcome: Result<Vec<Option<u64>>, TransportError>) -> (v: Vec<
        Option<u64>,
    >)
        ensures
            outcome is Ok ==> v@ == outcome->Ok_0@,
            outcome is Err ==> v@.len() == self.num_messages && forall|i: int|
                0 <= i < v@.len() ==> v@[i] is None,
    {
        match outcome {
            Ok(slots) => slots,
            Err(_) => {
                let mut slots: Vec<Option<u64>> = Vec::new();
                while slots.len() < self.num_messages
                    invariant
                        slots@.len() <= self.num_messages,
                        forall|i: int| 0 <= i < slots@.len() ==> slots@[i] is None,
                    decreases self.num_messages - slots@.len(),
                {
                    slots.push(None);
                }
                slots
            },
        }
    }
}

/// How many slots hold a receipt.
pub open spec fn count_filled(s: Seq<Option<u64>>) -> int
    decreases s.len(),
{
    if s.len() == 0 {
        0
    } else {
        count_filled(s.drop_last()) + if s.last() is Some {
            1int
        } else {
            0int
        }
    }
}

/// No more slots are filled than exist.
proof fn lemma_count_filled_le_len(s: Seq<Option<u64>>)
    ensures
        0 <= count_filled(s) <= s.len(),
    decreases s.len(),
{
    if s.len() > 0 {
        lemma_count_filled_le_len(s.drop_last());
    }
}

/// An empty slot keeps the filled count strictly under the slot count.
proof fn lemma_count_filled_partial(s: Seq<Option<u64>>, i: int)
    requires
        0 <= i < s.len(),
        s[i] is None,
    ensures
        count_filled(s) < s.len(),
    decreases s.len(),
{
    lemma_count_filled_le_len(s.drop_last());
    if i < s.len() - 1 {
        lemma_count_filled_partial(s.drop_last(), i);
    }
}

/// Stamping a slot raises the filled count exactly when the slot was empty.
proof fn lemma_count_filled_update(s: Seq<Option<u64>>, i: int, t: u64)
    requires
        0 <= i < s.len(),
    ensures
        count_filled(s.update(i, Some(t))) == count_filled(s) + if s[i] is None {
            1int
        } else {
            0int
        },
    decreases s.len(),
{
    let s2 = s.update(i, Some(t));
    if i == s.len() - 1 {
        assert(s2.drop_last() =~= s.drop_last());
    } else {
        assert(s2.drop_last() =~= s.drop_last().update(i, Some(t)));
        lemma_count_filled_update(s.drop_last(), i, t);
    }
}

/// The receiving timeline of one trial: a pre-sized, slot-indexed array
/// of receipt times, and the deadline past which listening stops.
///
/// A collector models the slot array, written `c@`.  The driver feeds it
/// every payload the transport hands over, with the time it arrived, and
/// asks [`Collector::should_stop`] between receipts.  Payloads that do
/// not decode, or whose index addresses no slot, are discarded silently;
/// a duplicate receipt overwrites its slot, so it is never counted twice.
pub struct Collector {
    slots: Vec<Option<u64>>,
    num_received: usize,
    deadline: u64,
}

impl View for Collector {
    type V = Seq<Option<u64>>;

    closed spec fn view(&self) -> Seq<Option<u64>> {
        self.slots@
    }
}

/// When a collector started at `start` for a trial of `duration` stops
/// listening: the duration plus the grace period, capped at the clock's
/// range.
pub open spec fn spec_collect_deadline(start_micros: u64, duration_micros: u64) -> u64 {
    if start_micros + duration_micros + GRACE_PERIOD_MICROS > u64::MAX {
        u64::MAX
    } else {
        (start_micros + duration_micros + GRACE_PERIOD_MICROS) as u64
    }
}

impl Collector {
    /// The time past which the collector stops listening.
    pub closed spec fn spec_deadline(&self) -> u64 {
        self.deadline
    }

    /// The cached filled-slot count agrees with the slots.
    pub closed spec fn wf(&self) -> bool {
        self.num_received as int == count_filled(self.slots@)
    }

    /// A collector for a trial of `num_messages` messages that started at
    /// `start_micros` and nominally lasts `duration_micros`: every slot
    /// empty, the deadline a grace period past the trial's end.
    pub fn new(num_messages: usize, start_micros: u64, duration_micros: u64) -> (c: Self)
        ensures
            c.wf(),
            c@.len() == num_messages,
            forall|i: int| 0 <= i < num_messages ==> c@[i] is None,
            c.spec_deadline() == spec_collect_deadline(start_micros, duration_micros),
    {
        let mut slots: Vec<Option<u64>> = Vec::new();
        while slots.len() < num_messages
            invariant
                slots@.len() <= num_messages,
                forall|i: int| 0 <= i < slots@.len() ==> slots@[i] is None,
            decreases num_messages - slots@.len(),
        {
            slots.push(None);
        }
        proof {
            lemma_count_filled_of_empty(slots@);
        }
        let after_duration: u64 = if start_micros <= u64::MAX - duration_micros {
            start_micros + duration_micros
        } else {
            u64::MAX
        };
        let deadline: u64 = if after_duration <= u64::MAX - GRACE_PERIOD_MICROS {
            after_duration + GRACE_PERIOD_MICROS
        } else {
            u64::MAX
        };
        Collector { slots, num_received: 0, deadline }
    }

    /// How many distinct messages were observed so far.
    pub fn num_received(&self) -> (n: usize)
        requires
            self.wf(),
        ensures
            n as int == count_filled(self@),
    {
        self.num_received
    }

    /// Whether every message of the trial has been observed.
    pub fn done(&self) -> (r: bool)
        requires
            self.wf(),
        ensures
            r == (count_filled(self@) == self@.len()),
    {
        proof {
            lemma_count_filled_le_len(self.slots@);
        }
        self.num_received == self.slots.len()
    }

    /// Whether the collector should stop listening: everything observed,
    /// or the deadline passed.
    pub fn should_stop(&self, now_micros: u64) -> (r: bool)
        requires
            self.wf(),
        ensures
            r == (count_filled(self@) == self@.len() || now_micros > self.spec_deadline()),
    {
        self.done() || now_micros > self.deadline
    }

    /// Takes in one received payload, stamped with the time it arrived.
    /// A payload that decodes to a slot's index stamps that slot — a
    /// repeat receipt just overwrites, last write wins — and anything
    /// else (too short, or a foreign index) is discarded silently.
    pub fn record_payload(&mut self, payload: MsgType, now_micros: u64)
        requires
            old(self).wf(),
        ensures
            final(self).wf(),
            final(self).spec_deadline() == old(self).spec_deadline(),
            payload@.len() >= 8 && (spec_index_of(payload@) as int) < old(self)@.len()
                ==> final(self)@ == old(self)@.update(
                spec_index_of(payload@) as int,
                Some(now_micros),
            ),
            !(payload@.len() >= 8 && (spec_index_of(payload@) as int) < old(self)@.len())
                ==> final(self)@ == old(self)@,
    {
        let n = self.slots.len();
        match index_from_message(payload) {
            Ok(idx) => {
                if idx < n as u64 {
                    let i = idx as usize;
                    proof {
                        lemma_count_filled_update(self.slots@, i as int, now_micros);
                        if self.slots@[i as int] is None {
                            lemma_count_filled_partial(self.slots@, i as int);
                        }
                    }
                    if self.slots[i].is_none() {
                        self.num_received = self.num_received + 1;
                    }
                    self.slots.set(i, Some(now_micros));
                }
            },
            Err(_) => {},
        }
    }

    /// Hands the slot array over for reduction, once listening has ended.
    pub fn into_slots(self) -> (v: Vec<Option<u64>>)
        ensures
            v@ == self@,
    {
        self.slots
    }
}

/// A slot array of empty slots has a zero filled count.
proof fn lemma_count_filled_of_empty(s: Seq<Option<u64>>)
    requires
        forall|i: int| 0 <= i < s.len() ==> s[i] is None,
    ensures
        count_filled(s) == 0,
    decreases s.len(),
{
    if s.len() > 0 {
        lemma_count_filled_of_empty(s.drop_last());
    }
}

} // verus!
