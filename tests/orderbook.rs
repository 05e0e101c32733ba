use market_gateway::book_side::OrderbookLevel;
use market_gateway::orderbook::{L2Orderbook, OrderbookSnapshot};
use market_gateway::pipeline::{apply_tick, MarketTick};

fn level(price: i64, quantity: i64) -> OrderbookLevel {
    OrderbookLevel { price, quantity }
}

fn snapshot(bids: Vec<OrderbookLevel>, asks: Vec<OrderbookLevel>, seq_id: u64) -> OrderbookSnapshot {
    OrderbookSnapshot { symbol: "BTCUSDT".to_string(), bids, asks, seq_id, timestamp_ns: 42 }
}

#[test]
fn snapshot_then_deltas_leave_no_asks() {
    let mut book = L2Orderbook::new("BTCUSDT");
    book.apply_snapshot(&snapshot(vec![level(100_000_000, 2_000_000)], vec![level(100_100_000, 1_500_000)], 10));
    assert!(book.apply_delta(100_050_000, 1_000_000, true, 11));
    assert!(book.apply_delta(100_100_000, 0, false, 12));
    assert_eq!(book.best_bid(), Some(100_050_000));
    assert_eq!(book.best_ask(), None);
    assert_eq!(book.mid_price(), None);
    assert_eq!(book.spread_bps(), None);
    assert_eq!(book.last_seq_id, 12);
    assert_eq!(book.total_updates, 3);
}

#[test]
fn sequence_gap_is_rejected() {
    let mut book = L2Orderbook::new("BTCUSDT");
    book.apply_snapshot(&snapshot(vec![level(100_000_000, 2_000_000)], vec![level(100_100_000, 1_500_000)], 5));
    let gaps = book.gaps_detected;
    let updates = book.total_updates;
    assert!(!book.apply_delta(99_000_000, 3_000_000, true, 8));
    assert_eq!(book.gaps_detected, gaps + 1);
    assert_eq!(book.total_updates, updates);
    assert_eq!(book.last_seq_id, 5);
    assert!(book.apply_delta(99_000_000, 3_000_000, true, 6));
    assert_eq!(book.last_seq_id, 6);
}

#[test]
fn rejected_deltas_leave_levels_unchanged() {
    let mut book = L2Orderbook::new("ETHUSDT");
    book.apply_snapshot(&snapshot(
        vec![level(100_000_000, 2_000_000), level(99_000_000, 1_000_000)],
        vec![level(101_000_000, 1_500_000)],
        20,
    ));
    let before = book.depth(10);
    for seq in [0u64, 5, 20, 22, 1000, u64::MAX] {
        assert!(!book.apply_delta(100_500_000, 7, seq % 2 == 0, seq));
        assert!(!book.apply_delta(99_000_000, 0, true, seq));
    }
    assert_eq!(book.depth(10), before);
    assert_eq!(book.last_seq_id, 20);
    assert_eq!(book.gaps_detected, 12);
}

#[test]
fn gapless_deltas_match_empty_snapshot() {
    let deltas = [
        (100_000_000i64, 2_000_000i64, true, 7u64),
        (101_000_000, 1_000_000, false, 8),
        (99_000_000, 3_000_000, true, 9),
        (100_000_000, 0, true, 10),
        (102_000_000, 4_000_000, false, 11),
        (101_000_000, 2_500_000, false, 12),
    ];
    let mut fresh = L2Orderbook::new("X");
    let mut seeded = L2Orderbook::new("X");
    seeded.apply_snapshot(&snapshot(vec![], vec![], 6));
    for (p, q, b, s) in deltas {
        assert!(fresh.apply_delta(p, q, b, s));
        assert!(seeded.apply_delta(p, q, b, s));
    }
    assert_eq!(fresh.depth(100), seeded.depth(100));
    assert_eq!(
        fresh.depth(100),
        (vec![level(99_000_000, 3_000_000)], vec![level(101_000_000, 2_500_000), level(102_000_000, 4_000_000)])
    );
    assert_eq!(fresh.last_seq_id, seeded.last_seq_id);
}

#[test]
fn valid_operations_keep_book_uncrossed() {
    let mut book = L2Orderbook::new("X");
    book.apply_snapshot(&snapshot(
        vec![level(100_000_000, 1), level(99_500_000, 2)],
        vec![level(100_200_000, 3), level(100_400_000, 4)],
        1,
    ));
    assert!(book.apply_delta(100_100_000, 5, true, 2));
    assert!(book.apply_delta(100_150_000, 5, false, 3));
    assert!(book.apply_delta(100_150_000, 0, false, 4));
    let (b, a) = (book.best_bid().unwrap(), book.best_ask().unwrap());
    assert!(b < a);
    assert_eq!((b, a), (100_100_000, 100_200_000));
}

#[test]
fn mid_spread_and_depth() {
    let mut book = L2Orderbook::new("X");
    book.apply_snapshot(&snapshot(
        vec![level(99_000_000, 1), level(100_000_000, 2), level(98_000_000, 3)],
        vec![level(100_100_000, 4), level(100_300_000, 5)],
        3,
    ));
    assert_eq!(book.best_bid(), Some(100_000_000));
    assert_eq!(book.best_ask(), Some(100_100_000));
    assert_eq!(book.mid_price(), Some(100_050_000));
    // 0.1 over 100.0 is 10 basis points.
    assert_eq!(book.spread_bps(), Some(10_000_000));
    let (bids, asks) = book.depth(2);
    assert_eq!(bids, vec![level(100_000_000, 2), level(99_000_000, 1)]);
    assert_eq!(asks, vec![level(100_100_000, 4), level(100_300_000, 5)]);
    assert_eq!(book.depth(0), (vec![], vec![]));
}

#[test]
fn mid_rounds_down_and_spread_needs_positive_bid() {
    let mut book = L2Orderbook::new("X");
    assert!(book.apply_delta(-3, 1, true, 1));
    assert!(book.apply_delta(0, 1, false, 2));
    assert_eq!(book.mid_price(), Some(-2));
    assert_eq!(book.spread_bps(), None);
}

#[test]
fn snapshot_replaces_book_and_keeps_counters() {
    let mut book = L2Orderbook::new("X");
    assert!(book.apply_delta(50, 1, true, 1));
    assert!(!book.apply_delta(50, 1, true, 9));
    book.apply_snapshot(&snapshot(vec![level(10, 1), level(10, 4), level(11, 0)], vec![], 30));
    assert_eq!(book.depth(5), (vec![level(10, 4)], vec![]));
    assert_eq!(book.last_seq_id, 30);
    assert_eq!(book.last_update_ns, 42);
    assert_eq!(book.gaps_detected, 1);
    assert_eq!(book.total_updates, 2);
}

#[test]
fn removing_missing_level_is_noop() {
    let mut book = L2Orderbook::new("X");
    assert!(book.apply_delta(10, 1, true, 1));
    assert!(book.apply_delta(20, 0, true, 2));
    assert!(book.apply_delta(20, -5, false, 3));
    assert_eq!(book.depth(5), (vec![level(10, 1)], vec![]));
}

#[test]
fn tick_applies_as_two_subsequences() {
    let mut book = L2Orderbook::new("BTCUSDT");
    let mut tick = MarketTick {
        symbol: "BTCUSDT".to_string(),
        bid_price: 67_499_000_000,
        ask_price: 67_501_000_000,
        bid_size: 1_500_000,
        ask_size: 2_000_000,
        last_price: 67_500_000_000,
        volume: 100_000_000,
        timestamp_ns: 0,
        seq_id: 3,
        exchange_ts_ns: 0,
        ingestion_latency_ns: 800_000,
    };
    assert!(apply_tick(&mut book, &tick));
    assert_eq!(book.last_seq_id, 7);
    tick.seq_id = 4;
    tick.bid_price = 67_498_000_000;
    assert!(apply_tick(&mut book, &tick));
    assert_eq!(book.last_seq_id, 9);
    assert_eq!(book.best_bid(), Some(67_499_000_000));
    tick.seq_id = 6;
    assert!(!apply_tick(&mut book, &tick));
    assert_eq!(book.gaps_detected, 2);
}

#[test]
fn smallest_spread_is_positive() {
    let mut book = L2Orderbook::new("X");
    book.apply_snapshot(&snapshot(
        vec![level(1_000_000_000_000, 1)],
        vec![level(1_000_000_000_001, 1)],
        1,
    ));
    assert_eq!(book.spread_bps(), Some(1));
    let mut btc = L2Orderbook::new("BTCUSDT");
    btc.apply_snapshot(&snapshot(vec![level(67_500_000_000, 1)], vec![level(67_500_000_001, 1)], 1));
    // 0.000001 over 67500 is about 0.148 millionths of a basis point.
    assert_eq!(btc.spread_bps(), Some(1));
}

#[test]
fn crossed_spread_rounds_up() {
    let mut book = L2Orderbook::new("X");
    book.apply_snapshot(&snapshot(vec![level(3, 1)], vec![level(2, 1)], 1));
    // -1 over 3 is -3333333333.33... millionths of a basis point.
    assert_eq!(book.spread_bps(), Some(-3_333_333_333));
}
