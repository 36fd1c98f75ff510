use protobench::stats::BenchStats;

#[test]
fn num_sent_equals_the_send_list_length() {
    let send: Vec<u64> = (0..100).map(|i| i * 1000).collect();
    let recv: Vec<Option<u64>> = (0..100)
        .map(|i| if i % 3 == 0 { Some(i * 1000 + 10) } else { None })
        .collect();
    let stats = BenchStats::new(send, recv);
    assert_eq!(stats.num_sent, 100);
}

#[test]
fn num_received_never_exceeds_num_sent() {
    let send: Vec<u64> = vec![10, 20, 30];
    let cases: Vec<Vec<Option<u64>>> = vec![
        vec![],
        vec![Some(11)],
        vec![Some(11), Some(21), Some(31)],
        vec![Some(11), Some(21), Some(31), Some(41), Some(51)],
    ];
    for recv in cases {
        let stats = BenchStats::new(send.clone(), recv);
        assert!(stats.num_received <= stats.num_sent);
        assert_eq!(stats.num_sent, 3);
    }
}

#[test]
fn scenario_loopback_without_loss() {
    // 100 messages over 10 s; every receipt 5 ms after its send.
    let send: Vec<u64> = (0..100u64).map(|i| i * 100_000).collect();
    let recv: Vec<Option<u64>> = send.iter().map(|t| Some(t + 5_000)).collect();
    let stats = BenchStats::new(send, recv);
    assert_eq!(stats.num_sent, 100);
    assert_eq!(stats.num_received, 100);
    assert_eq!(stats.latency_median, 5_000);
    assert!(stats.latency_median < 50_000);
    assert!(stats.latency_p99 < 50_000);
    // A tight distribution: the 99th percentile equals the median.
    assert_eq!(stats.latency_p99, stats.latency_median);
    assert_eq!(stats.latency_std, 0);
}

#[test]
fn scenario_transport_drops_even_indices() {
    let send: Vec<u64> = (0..100u64).map(|i| i * 100_000).collect();
    let recv: Vec<Option<u64>> = (0..100u64)
        .map(|i| if i % 2 == 1 { Some(i * 100_000 + 7_000) } else { None })
        .collect();
    let stats = BenchStats::new(send, recv);
    assert_eq!(stats.num_sent, 100);
    assert_eq!(stats.num_received, 50);
    // Every surviving latency is 7 ms, so the sample set holds nothing
    // else: each percentile is 7 ms and the deviation vanishes.
    assert_eq!(stats.latency_median, 7_000);
    assert_eq!(stats.latency_p95, 7_000);
    assert_eq!(stats.latency_p99, 7_000);
    assert_eq!(stats.latency_std, 0);
}

#[test]
fn scenario_sender_that_always_fails() {
    // Nothing ever comes back; the reduction still yields a full report.
    let send: Vec<u64> = (0..40u64).map(|i| i * 250_000).collect();
    let recv: Vec<Option<u64>> = vec![None; 40];
    let stats = BenchStats::new(send, recv);
    assert_eq!(stats.num_sent, 40);
    assert_eq!(stats.num_received, 0);
    assert_eq!(stats.latency_median, 0);
    assert_eq!(stats.latency_p95, 0);
    assert_eq!(stats.latency_p99, 0);
    assert_eq!(stats.latency_std, 0);
}

#[test]
fn receipts_beyond_the_send_list_are_ignored() {
    let send: Vec<u64> = vec![100];
    let recv: Vec<Option<u64>> = vec![Some(150), Some(999), Some(999)];
    let stats = BenchStats::new(send, recv);
    assert_eq!(stats.num_sent, 1);
    assert_eq!(stats.num_received, 1);
    assert_eq!(stats.latency_median, 50);
}

#[test]
fn a_receipt_stamped_before_its_send_counts_as_zero() {
    let send: Vec<u64> = vec![1000];
    let recv: Vec<Option<u64>> = vec![Some(400)];
    let stats = BenchStats::new(send, recv);
    assert_eq!(stats.num_received, 1);
    assert_eq!(stats.latency_median, 0);
}

#[test]
fn mixed_latencies_reduce_to_their_percentiles() {
    let send: Vec<u64> = vec![0, 0, 0, 0, 0];
    let recv: Vec<Option<u64>> = vec![Some(10), Some(20), Some(30), Some(40), Some(50)];
    let stats = BenchStats::new(send, recv);
    assert_eq!(stats.num_received, 5);
    assert_eq!(stats.latency_median, 30);
    assert_eq!(stats.latency_p95, 50);
    assert_eq!(stats.latency_p99, 50);
    // Population deviation of {10..50} is sqrt(200) = 14.14..., floored.
    assert_eq!(stats.latency_std, 14);
}
