use market_gateway::execution::{ExecutionEngine, OrderRequest};

fn request(key: &str, client: &str, quantity: i64, price: i64) -> OrderRequest {
    OrderRequest {
        client_id: client.to_string(),
        symbol: "BTCUSDT".to_string(),
        side: "BUY".to_string(),
        quantity,
        price,
        order_type: "LIMIT".to_string(),
        idempotency_key: key.to_string(),
        timestamp_ns: 1,
    }
}

#[test]
fn duplicate_key_is_rejected() {
    let mut engine = ExecutionEngine::new();
    let ack = engine.submit_order(&request("K1", "c1", 1_000_000, 100_000_000)).unwrap();
    assert_eq!(ack.status, "SUBMITTED");
    assert_eq!(ack.client_id, "c1");
    assert!(ack.exchange_order_id.starts_with("EX-"));
    assert_eq!(ack.exchange_order_id.len(), 39);
    for (i, c) in ack.exchange_order_id[3..].chars().enumerate() {
        if [8, 13, 18, 23].contains(&i) {
            assert_eq!(c, '-');
        } else {
            assert!(c.is_ascii_digit() || ('a'..='f').contains(&c));
        }
    }
    assert!(ack.latency_ns >= 0);
    assert!(ack.timestamp_ns > 0);
    let err = engine.submit_order(&request("K1", "c1", 1_000_000, 100_000_000)).unwrap_err();
    assert_eq!(err, "DUPLICATE_ORDER: key=K1");
    assert_eq!(engine.stats(), (1, 1, 0));
}

#[test]
fn same_key_twice_in_either_order() {
    let a = request("K", "first", 1, 2);
    let b = request("K", "second", 3, 4);
    for (x, y) in [(&a, &b), (&b, &a)] {
        let mut engine = ExecutionEngine::new();
        let first = engine.submit_order(x);
        let second = engine.submit_order(y);
        assert!(first.is_ok());
        assert!(second.is_err());
        assert_eq!(engine.stats(), (1, 1, 0));
    }
}

#[test]
fn exchange_ids_differ() {
    let mut engine = ExecutionEngine::new();
    let a = engine.submit_order(&request("A", "c", 1, 1)).unwrap();
    let b = engine.submit_order(&request("B", "c", 1, 1)).unwrap();
    assert_ne!(a.exchange_order_id, b.exchange_order_id);
    assert_ne!(&a.exchange_order_id[3..], "");
    assert_eq!(engine.stats(), (2, 0, 0));
}

#[test]
fn fill_charges_four_basis_points() {
    let mut engine = ExecutionEngine::new();
    let req = request("F", "client-7", 2_000_000, 100_000_000);
    let ack = engine.submit_order(&req).unwrap();
    let fill = engine.process_fill(&ack, &req);
    assert_eq!(fill.order_id, "client-7");
    assert_eq!(fill.exchange_order_id, ack.exchange_order_id);
    assert_eq!(fill.symbol, "BTCUSDT");
    assert_eq!(fill.side, "BUY");
    assert_eq!(fill.filled_qty, 2_000_000);
    assert_eq!(fill.fill_price, 100_000_000);
    // 2.0 at 100.0 is 200.0 notional; 4 bps of it is 0.08.
    assert_eq!(fill.commission, 80_000);
    assert_eq!(fill.seq_id, 1);
    let again = engine.process_fill(&ack, &req);
    assert_eq!(again.seq_id, 2);
    assert_eq!(engine.stats(), (1, 0, 2));
}

#[test]
fn commission_rounds_down() {
    let mut engine = ExecutionEngine::new();
    let req = request("N", "c", -1, 1);
    let ack = engine.submit_order(&req).unwrap();
    assert_eq!(engine.process_fill(&ack, &req).commission, -1);
    let small = request("S", "c", 1, 1);
    assert_eq!(engine.process_fill(&ack, &small).commission, 0);
}
