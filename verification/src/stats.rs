//! Reduction of one trial's timestamps into a statistics record.
//!
//! A trial leaves two slot-indexed collections behind: the time each
//! message was sent, and the time a matching receipt was observed, if one
//! was.  Matching is by slot, so the latency of slot `i` is simply the
//! difference of the two entries.  Slots without a receipt contribute
//! nothing; they only lower `num_received`.

use crate::histogram::spec_clamp;
use crate::histogram::spec_value_at_quantile;
use crate::histogram::spec_variance;
use crate::histogram::LatencyHistogram;
use crate::histogram::MAX_SAMPLE_COUNT;
use crate::histogram::MAX_TRACKABLE_MICROS;
use vstd::prelude::*;

verus! {

/// The statistics record one benchmark trial produces.  Latencies are in
/// microseconds; the standard deviation is rounded down to whole
/// microseconds.  Never mutated after creation.
#[derive(Debug, Clone, Copy, PartialEq, Eq, Structural)]
pub struct BenchStats {
    /// How many messages the trial sent.
    pub num_sent: usize,
    /// How many distinct receipts matched a sent message.
    pub num_received: usize,
    /// The median round-trip latency.
    pub latency_median: u64,
    /// The 95th-percentile round-trip latency.
    pub latency_p95: u64,
    /// The 99th-percentile round-trip latency.
    pub latency_p99: u64,
    /// The population standard deviation of the round-trip latencies.
    pub latency_std: u64,
}

/// The latency of one matched pair, clamped to the histogram's range.
/// A receipt stamped before its send (which the protocol cannot produce,
/// but a foreign clock could) counts as zero.
pub open spec fn spec_latency(sent: u64, received: u64) -> u64 {
    spec_clamp(
        if received >= sent {
            (received - sent) as u64
        } else {
            0u64
        },
    )
}

/// The matched latencies among the first `n` slots, in slot order.
pub open spec fn spec_latencies_prefix(send: Seq<u64>, recv: Seq<Option<u64>>, n: int) -> Seq<u64>
    recommends
        n <= send.len(),
        n <= recv.len(),
    decreases n,
{
    if n <= 0 {
        Seq::empty()
    } else {
        spec_latencies_prefix(send, recv, n - 1) + match recv[n - 1] {
            Some(r) => seq![spec_latency(send[n - 1], r)],
            None => Seq::<u64>::empty(),
        }
    }
}

/// All matched latencies of a trial, one per slot that holds a receipt.
/// Entries of the longer collection beyond the shorter one are ignored.
pub open spec fn spec_latencies(send: Seq<u64>, recv: Seq<Option<u64>>) -> Seq<u64> {
    spec_latencies_prefix(
        send,
        recv,
        vstd::math::min(send.len() as int, recv.len() as int),
    )
}

/// There are never more matched latencies than slots, and each is within
/// the histogram's trackable range.
proof fn lemma_latencies_prefix_props(send: Seq<u64>, recv: Seq<Option<u64>>, n: int)
    ensures
        spec_latencies_prefix(send, recv, n).len() <= if n <= 0 {
            0
        } else {
            n
        },
        forall|i: int|
            0 <= i < spec_latencies_prefix(send, recv, n).len() ==> spec_latencies_prefix(
                send,
                recv,
                n,
            )[i] <= MAX_TRACKABLE_MICROS,
    decreases n,
{
    if n > 0 {
        lemma_latencies_prefix_props(send, recv, n - 1);
    }
}

/// Each sample among the first `n` slots stems from a slot holding a
/// receipt.
proof fn lemma_prefix_sample_witness(send: Seq<u64>, recv: Seq<Option<u64>>, n: int, j: int)
    requires
        0 <= n <= send.len(),
        n <= recv.len(),
        0 <= j < spec_latencies_prefix(send, recv, n).len(),
    ensures
        exists|i: int|
            #![auto]
            0 <= i < n && recv[i] is Some && spec_latencies_prefix(send, recv, n)[j]
                == spec_latency(send[i], recv[i]->Some_0),
    decreases n,
{
    let pre = spec_latencies_prefix(send, recv, n - 1);
    if j < pre.len() {
        lemma_prefix_sample_witness(send, recv, n - 1, j);
        assert(spec_latencies_prefix(send, recv, n)[j] == pre[j]);
    } else {
        assert(recv[n - 1] is Some);
        assert(spec_latencies_prefix(send, recv, n)[j] == spec_latency(
            send[n - 1],
            recv[n - 1]->Some_0,
        ));
    }
}

/// Law: every latency sample stems from a slot that holds a receipt, so
/// a dropped message contributes nothing to the sample set.
pub proof fn lemma_every_sample_has_a_receipt(send: Seq<u64>, recv: Seq<Option<u64>>, j: int)
    requires
        0 <= j < spec_latencies(send, recv).len(),
    ensures
        exists|i: int|
            #![auto]
            0 <= i < send.len() && i < recv.len() && recv[i] is Some && spec_latencies(
                send,
                recv,
            )[j] == spec_latency(send[i], recv[i]->Some_0),
{
    lemma_prefix_sample_witness(
        send,
        recv,
        vstd::math::min(send.len() as int, recv.len() as int),
        j,
    );
}

impl BenchStats {
    /// Reduces one trial's timestamps: counts the sends and the matched
    /// receipts, and aggregates every matched pair's latency into the
    /// percentile and deviation figures.
    ///
    /// Receipts always count at most once per slot, so `num_received`
    /// never exceeds `num_sent`, however a transport behaved.
    pub fn new(send_times: Vec<u64>, recv_times: Vec<Option<u64>>) -> (stats: BenchStats)
        requires
            send_times@.len() <= MAX_SAMPLE_COUNT,
        ensures
            stats.num_sent == send_times@.len(),
            stats.num_received == spec_latencies(send_times@, recv_times@).len(),
            stats.num_received <= stats.num_sent,
            spec_latencies(send_times@, recv_times@).len() == 0 ==> stats.latency_median == 0
                && stats.latency_p95 == 0 && stats.latency_p99 == 0 && stats.latency_std == 0,
            spec_latencies(send_times@, recv_times@).len() > 0 ==> {
                &&& stats.latency_median == spec_value_at_quantile(
                    spec_latencies(send_times@, recv_times@),
                    500,
                )
                &&& stats.latency_p95 == spec_value_at_quantile(
                    spec_latencies(send_times@, recv_times@),
                    950,
                )
                &&& stats.latency_p99 == spec_value_at_quantile(
                    spec_latencies(send_times@, recv_times@),
                    990,
                )
                &&& (stats.latency_std as int) * (stats.latency_std as int) <= spec_variance(
                    spec_latencies(send_times@, recv_times@),
                )
                &&& (stats.latency_std as int + 1) * (stats.latency_std as int + 1)
                    > spec_variance(spec_latencies(send_times@, recv_times@))
            },
    {
        let n = if send_times.len() <= recv_times.len() {
            send_times.len()
        } else {
            recv_times.len()
        };
        let mut hist = LatencyHistogram::new();
        let mut received: usize = 0;
        let mut i: usize = 0;
        while i < n
            invariant
                n == vstd::math::min(send_times@.len() as int, recv_times@.len() as int),
                send_times@.len() <= MAX_SAMPLE_COUNT,
                i <= n,
                hist.wf(),
                hist@ == spec_latencies_prefix(send_times@, recv_times@, i as int),
                received == hist@.len(),
            decreases n - i,
        {
            let ghost pre = hist@;
            proof {
                lemma_latencies_prefix_props(send_times@, recv_times@, i as int);
            }
            let r = recv_times[i];
            match r {
                Some(rt) => {
                    let st = send_times[i];
                    let lat = if rt >= st {
                        rt - st
                    } else {
                        0
                    };
                    hist.record(lat);
                    received = received + 1;
                    proof {
                        assert(hist@ =~= spec_latencies_prefix(
                            send_times@,
                            recv_times@,
                            i as int + 1,
                        ));
                    }
                },
                None => {
                    proof {
                        assert(hist@ =~= spec_latencies_prefix(
                            send_times@,
                            recv_times@,
                            i as int + 1,
                        ));
                    }
                },
            }
            i = i + 1;
        }
        proof {
            lemma_latencies_prefix_props(send_times@, recv_times@, n as int);
        }
        let latency_median = hist.value_at_quantile(500);
        let latency_p95 = hist.value_at_quantile(950);
        let latency_p99 = hist.value_at_quantile(990);
        let latency_std = hist.stdev_micros();
        BenchStats {
            num_sent: send_times.len(),
            num_received: received,
            latency_median,
            latency_p95,
            latency_p99,
            latency_std,
        }
    }
}

} // verus!
