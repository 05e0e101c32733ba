use market_gateway::latency::{percentile, to_micros, LatencyTracker};

#[test]
fn percentile_picks_sorted_index() {
    let s = [5i64, 1, 3, 2, 4];
    assert_eq!(percentile(&s, 50), 3);
    assert_eq!(percentile(&s, 99), 5);
    assert_eq!(percentile(&s, 0), 1);
    assert_eq!(percentile(&s, 100), 5);
    assert_eq!(percentile(&s, usize::MAX), 5);
}

#[test]
fn percentile_of_empty_is_zero() {
    assert_eq!(percentile(&[], 50), 0);
    assert_eq!(percentile(&[], 99), 0);
}

#[test]
fn p50_never_exceeds_p99() {
    let sets: Vec<Vec<i64>> = vec![vec![7], vec![9, -3], vec![4, 4, 4, 1], (0..250).map(|i| (i * 7919) % 1000 - 500).collect()];
    for s in sets {
        assert!(percentile(&s, 50) <= percentile(&s, 99));
    }
}

#[test]
fn micros_round_toward_zero() {
    assert_eq!(to_micros(1999), 1);
    assert_eq!(to_micros(-1999), -1);
    assert_eq!(to_micros(0), 0);
    assert_eq!(to_micros(i64::MIN), -9_223_372_036_854_775);
}

#[test]
fn tracker_percentiles_and_counters() {
    let mut t = LatencyTracker::new(100);
    for ns in [1_000i64, 2_000, 3_000, 4_000] {
        t.record_ingestion(ns);
        t.record_processing(ns * 10);
        t.record_publish(ns * 100);
    }
    t.record_gap();
    t.record_reconnect();
    assert_eq!(t.p50_ingestion_us(), 3);
    assert_eq!(t.p99_ingestion_us(), 4);
    assert_eq!(t.p50_processing_us(), 30);
    assert_eq!(t.p99_processing_us(), 40);
    assert_eq!(t.p50_publish_us(), 300);
    assert_eq!(t.p99_publish_us(), 400);
    assert_eq!((t.ticks_processed(), t.gaps_detected(), t.reconnects(), t.nats_published()), (4, 1, 1, 4));
    assert_eq!(
        t.summary(),
        "Ticks:4 | Gaps:1 | Reconnects:1 | NATS:4 | Ingestion P50:3μs P99:4μs | Process P50:30μs P99:40μs | Publish P50:300μs P99:400μs"
    );
}

#[test]
fn empty_tracker_summary() {
    let t = LatencyTracker::new(10);
    assert_eq!(
        t.summary(),
        "Ticks:0 | Gaps:0 | Reconnects:0 | NATS:0 | Ingestion P50:0μs P99:0μs | Process P50:0μs P99:0μs | Publish P50:0μs P99:0μs"
    );
}

#[test]
fn full_buffer_drops_oldest_half() {
    let mut t = LatencyTracker::new(4);
    for ns in [1_000i64, 2_000, 3_000, 4_000, 5_000] {
        t.record_processing(ns);
    }
    // 1000 and 2000 were dropped: 3000, 4000, 5000 remain.
    assert_eq!(t.p50_processing_us(), 4);
    assert_eq!(t.p99_processing_us(), 5);
    let mut z = LatencyTracker::new(0);
    z.record_publish(-7_000);
    assert_eq!(z.p99_publish_us(), 0);
    assert_eq!(z.nats_published(), 1);
}
