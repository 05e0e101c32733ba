use market_gateway::pipeline::{
    after_send, feed_is_stale, interval_elapsed, pulls_input, stage_transition, IngestionCounts, NatsPublisher,
    SendOutcome, SequenceGenerator, StageEvent, StageState,
};

#[test]
fn stage_lifecycle() {
    let s = stage_transition(StageState::Running, StageEvent::WorkDone);
    assert_eq!(s, StageState::Running);
    let s = stage_transition(s, StageEvent::Shutdown);
    assert_eq!(s, StageState::Draining);
    assert!(!pulls_input(s));
    assert_eq!(stage_transition(s, StageEvent::Shutdown), StageState::Draining);
    assert_eq!(stage_transition(s, StageEvent::WorkDone), StageState::Stopped);
    assert_eq!(stage_transition(StageState::Running, StageEvent::InputClosed), StageState::Stopped);
    assert_eq!(stage_transition(StageState::Stopped, StageEvent::WorkDone), StageState::Stopped);
    assert!(pulls_input(StageState::Running));
}

#[test]
fn backpressure_drops_and_disconnect_stops() {
    let c = IngestionCounts { sent: 0, dropped: 0 };
    let (c, go) = after_send(c, SendOutcome::Sent);
    assert!(go);
    let (c, go) = after_send(c, SendOutcome::Full);
    assert!(go);
    assert_eq!(c, IngestionCounts { sent: 1, dropped: 1 });
    let (c2, go) = after_send(c, SendOutcome::Disconnected);
    assert!(!go);
    assert_eq!(c2, c);
}

#[test]
fn sequence_ids_increase() {
    let mut g = SequenceGenerator::new();
    assert_eq!(g.next_id(), Some(0));
    assert_eq!(g.next_id(), Some(1));
    assert_eq!(g.next_id(), Some(2));
}

#[test]
fn staleness_and_intervals() {
    assert!(!feed_is_stale(0, 10_000_000_000));
    assert!(feed_is_stale(0, 10_000_000_001));
    assert!(interval_elapsed(100, 5_000_000_100, 5_000_000_000));
    assert!(!interval_elapsed(100, 5_000_000_099, 5_000_000_000));
    assert!(feed_is_stale(i64::MIN, i64::MAX));
}

#[test]
fn publisher_keeps_url() {
    assert_eq!(NatsPublisher::new("nats://localhost:4222").nats_url, "nats://localhost:4222");
}
